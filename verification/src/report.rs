//! What the user is told at the end of a command.
use crate::text::same_text;
use std::path::PathBuf;
use vstd::prelude::*;

verus! {

// ---------------------------------------------------------------------------
// Build and organize
// ---------------------------------------------------------------------------

/// The reason of a failure, also where none is known
pub fn failure_text(message: &Option<String>) -> (r: String)
    ensures
        r@ == match message {
            Some(m) => m@,
            None => "Unknown error"@,
        },
{
    match message {
        Some(m) => m.clone(),
        None => "Unknown error".to_owned(),
    }
}

/// How a book was built
pub fn mode_text(used_copy_mode: bool) -> (r: String)
    ensures
        r@ == if used_copy_mode {
            "copy mode"@
        } else {
            "transcode"@
        },
{
    if used_copy_mode {
        "copy mode".to_owned()
    } else {
        "transcode".to_owned()
    }
}

/// How many books of a batch were built and how many failed
#[derive(Debug, Clone, Copy, PartialEq, Eq, Structural)]
pub struct BatchSummary {
    pub successful: usize,
    pub failed: usize,
}

/// How many of some flags are set.
pub open spec fn set_flags(flags: Seq<bool>) -> nat {
    flags.filter(|f: bool| f).len()
}

fn count_set(flags: &[bool]) -> (r: usize)
    ensures
        r == set_flags(flags@),
        r <= flags@.len(),
{
    let mut count: usize = 0;
    let mut i: usize = 0;
    proof {
        reveal(Seq::filter);
    }
    while i < flags.len()
        invariant
            i <= flags.len(),
            count == set_flags(flags@.take(i as int)),
            count <= i,
        decreases flags.len() - i,
    {
        proof {
            reveal(Seq::filter);
            assert(flags@.take(i + 1).drop_last() =~= flags@.take(i as int));
        }
        if flags[i] {
            count = count + 1;
        }
        i = i + 1;
    }
    assert(flags@.take(flags@.len() as int) =~= flags@);
    count
}

/// Count the books of a batch that were built and those that failed
pub fn summarize_batch(successes: &[bool]) -> (r: BatchSummary)
    ensures
        r.successful == set_flags(successes@),
        r.successful + r.failed == successes@.len(),
{
    let successful: usize = count_set(successes);
    BatchSummary { successful, failed: successes.len() - successful }
}

/// What became of a book that was organized
#[derive(Debug, Clone, Copy, PartialEq, Eq, Structural)]
pub struct OrganizeOutcome {
    pub success: bool,
    /// Whether there is a place that it goes to
    pub has_destination: bool,
}

/// How the fate of a book is told
#[derive(Debug, Clone, Copy, PartialEq, Eq, Structural)]
pub enum OrganizeLine {
    /// With the place that it went to
    Moved,
    /// With what was done in place of a move
    Stayed,
    /// With the reason of the failure
    Failed,
}

/// How the fate of a book is told: a failure goes before the place that it was meant for.
pub open spec fn line_for(outcome: OrganizeOutcome) -> OrganizeLine {
    if !outcome.success {
        OrganizeLine::Failed
    } else if outcome.has_destination {
        OrganizeLine::Moved
    } else {
        OrganizeLine::Stayed
    }
}

/// How the fate of a book is told
pub fn organize_line(outcome: OrganizeOutcome) -> (r: OrganizeLine)
    ensures
        r == match (outcome.success, outcome.has_destination) {
            (true, true) => OrganizeLine::Moved,
            (true, false) => OrganizeLine::Stayed,
            (false, _) => OrganizeLine::Failed,
        },
        r == line_for(outcome),
{
    if !outcome.success {
        OrganizeLine::Failed
    } else if outcome.has_destination {
        OrganizeLine::Moved
    } else {
        OrganizeLine::Stayed
    }
}

/// How many books were moved, skipped and failed
#[derive(Debug, Clone, Copy, PartialEq, Eq, Structural)]
pub struct OrganizeSummary {
    pub moved: usize,
    pub skipped: usize,
    pub failed: usize,
}

/// How many books were moved.
pub open spec fn moved(outcomes: Seq<OrganizeOutcome>) -> nat {
    outcomes.filter(|o: OrganizeOutcome| o.success && o.has_destination).len()
}

/// How many books have no place to go to.
pub open spec fn skipped(outcomes: Seq<OrganizeOutcome>) -> nat {
    outcomes.filter(|o: OrganizeOutcome| !o.has_destination).len()
}

/// How many books could not be organized.
pub open spec fn failed(outcomes: Seq<OrganizeOutcome>) -> nat {
    outcomes.filter(|o: OrganizeOutcome| !o.success).len()
}

/// Count what became of the books
pub fn summarize_organize(outcomes: &[OrganizeOutcome]) -> (r: OrganizeSummary)
    ensures
        r.moved == moved(outcomes@),
        r.skipped == skipped(outcomes@),
        r.failed == failed(outcomes@),
{
    let mut n_moved: usize = 0;
    let mut n_skipped: usize = 0;
    let mut n_failed: usize = 0;
    let mut i: usize = 0;
    proof {
        reveal(Seq::filter);
    }
    while i < outcomes.len()
        invariant
            i <= outcomes.len(),
            n_moved == moved(outcomes@.take(i as int)),
            n_skipped == skipped(outcomes@.take(i as int)),
            n_failed == failed(outcomes@.take(i as int)),
            n_moved <= i,
            n_skipped <= i,
            n_failed <= i,
        decreases outcomes.len() - i,
    {
        proof {
            reveal(Seq::filter);
            assert(outcomes@.take(i + 1).drop_last() =~= outcomes@.take(i as int));
        }
        let outcome: OrganizeOutcome = outcomes[i];
        if outcome.success && outcome.has_destination {
            n_moved = n_moved + 1;
        }
        if !outcome.has_destination {
            n_skipped = n_skipped + 1;
        }
        if !outcome.success {
            n_failed = n_failed + 1;
        }
        i = i + 1;
    }
    assert(outcomes@.take(outcomes@.len() as int) =~= outcomes@);
    OrganizeSummary { moved: n_moved, skipped: n_skipped, failed: n_failed }
}

// ---------------------------------------------------------------------------
// Configuration
// ---------------------------------------------------------------------------

/// What becomes of a request for a new configuration file
#[derive(Debug, Clone, Copy, PartialEq, Eq, Structural)]
pub enum InitAction {
    /// There is one, which stays
    Refuse,
    /// The file is written
    Create,
}

/// What becomes of a request for a new configuration file.
pub open spec fn init_choice(exists: bool, force: bool) -> InitAction {
    if exists && !force {
        InitAction::Refuse
    } else {
        InitAction::Create
    }
}

/// Decide about a new configuration file: one that exists is overwritten only by force
pub fn init_action(exists: bool, force: bool) -> (r: InitAction)
    ensures
        r == if exists && !force {
            InitAction::Refuse
        } else {
            InitAction::Create
        },
        r == init_choice(exists, force),
{
    if exists && !force {
        InitAction::Refuse
    } else {
        InitAction::Create
    }
}

/// The configuration file to read
pub enum ConfigFile {
    /// One that is given
    Given(PathBuf),
    /// The usual one
    Usual,
}

/// The configuration file to read: the one that is given, or else the usual one
pub fn config_file(given: Option<PathBuf>) -> (r: ConfigFile)
    ensures
        r == match given {
            Some(path) => ConfigFile::Given(path),
            None => ConfigFile::Usual,
        },
{
    match given {
        Some(path) => ConfigFile::Given(path),
        None => ConfigFile::Usual,
    }
}

// ---------------------------------------------------------------------------
// Dependencies
// ---------------------------------------------------------------------------

/// A tool that the program depends on
#[derive(Debug, Clone, Copy, PartialEq, Eq, Structural)]
pub enum Tool {
    FFmpeg,
    AtomicParsley,
    Mp4Box,
}

impl Tool {
    /// The name of the tool.
    pub open spec fn text(self) -> Seq<char> {
        match self {
            Self::FFmpeg => "FFmpeg"@,
            Self::AtomicParsley => "AtomicParsley"@,
            Self::Mp4Box => "MP4Box"@,
        }
    }

    /// The name of the tool
    pub fn name(&self) -> (r: String)
        ensures
            r@ == self.text(),
    {
        let name: &'static str = match self {
            Self::FFmpeg => "FFmpeg",
            Self::AtomicParsley => "AtomicParsley",
            Self::Mp4Box => "MP4Box",
        };
        name.to_owned()
    }
}

/// What is told about a tool
#[derive(Debug, Clone, Copy, PartialEq, Eq, Structural)]
pub struct ToolLine {
    pub tool: Tool,
    pub found: bool,
    /// Whether its AAC encoders are listed
    pub lists_encoders: bool,
}

/// What is told about the dependencies
pub struct CheckReport {
    pub lines: Vec<ToolLine>,
    pub all_found: bool,
}

/// What is told about a tool: the encoders of FFmpeg are listed where it is found.
pub open spec fn tool_line(tool: Tool, found: bool) -> ToolLine {
    ToolLine { tool, found, lists_encoders: found && tool == Tool::FFmpeg }
}

fn report_tool(tool: Tool, found: bool) -> (r: ToolLine)
    ensures
        r == tool_line(tool, found),
{
    ToolLine { tool, found, lists_encoders: found && tool == Tool::FFmpeg }
}

/// Tell which dependencies were found
pub fn check_report(ffmpeg: bool, atomic_parsley: bool, mp4box: bool) -> (r: CheckReport)
    ensures
        r.lines@ == seq![
            tool_line(Tool::FFmpeg, ffmpeg),
            tool_line(Tool::AtomicParsley, atomic_parsley),
            tool_line(Tool::Mp4Box, mp4box),
        ],
        r.all_found == (ffmpeg && atomic_parsley && mp4box),
{
    let mut lines: Vec<ToolLine> = Vec::new();
    lines.push(report_tool(Tool::FFmpeg, ffmpeg));
    lines.push(report_tool(Tool::AtomicParsley, atomic_parsley));
    lines.push(report_tool(Tool::Mp4Box, mp4box));
    CheckReport { lines, all_found: ffmpeg && atomic_parsley && mp4box }
}

/// Which of the available encoders are the selected one
pub fn selected_encoders(available: &[String], selected: &str) -> (r: Vec<bool>)
    ensures
        r@ == Seq::new(available@.len(), |i: int| available@[i]@ == selected@),
{
    let mut r: Vec<bool> = Vec::new();
    let mut i: usize = 0;
    while i < available.len()
        invariant
            i <= available.len(),
            r@ == Seq::new(i as nat, |k: int| available@[k]@ == selected@),
        decreases available.len() - i,
    {
        r.push(same_text(available[i].as_str(), selected));
        i = i + 1;
    }
    r
}

// ---------------------------------------------------------------------------
// Laws
// ---------------------------------------------------------------------------

/// Every organized book is counted, and only one that failed without a place to go to is counted
/// twice: as skipped and as failed.
pub proof fn every_organized_book_is_counted(outcomes: Seq<OrganizeOutcome>)
    ensures
        moved(outcomes) + skipped(outcomes) + failed(outcomes) == outcomes.len() + outcomes.filter(
            |o: OrganizeOutcome| !o.success && !o.has_destination,
        ).len(),
    decreases outcomes.len(),
{
    reveal(Seq::filter);
    if outcomes.len() > 0 {
        every_organized_book_is_counted(outcomes.drop_last());
    }
}

/// One more book counts as built if and only if it was built.
pub proof fn one_more_built_book_is_counted(flags: Seq<bool>, built: bool)
    ensures
        set_flags(Seq::empty()) == 0,
        set_flags(flags.push(built)) == set_flags(flags) + (if built {
            1int
        } else {
            0
        }),
{
    reveal(Seq::filter);
    assert(flags.push(built).drop_last() =~= flags);
}

/// One more book counts as moved if it was organized and has a place to go to, as skipped if it has
/// none, and as failed if it could not be organized.
pub proof fn one_more_organized_book_is_counted(
    outcomes: Seq<OrganizeOutcome>,
    success: bool,
    has_destination: bool,
)
    ensures
        moved(Seq::empty()) == 0 && skipped(Seq::empty()) == 0 && failed(Seq::empty()) == 0,
        ({
            let more = outcomes.push(OrganizeOutcome { success, has_destination });
            &&& moved(more) == moved(outcomes) + (if success && has_destination {
                1int
            } else {
                0
            })
            &&& skipped(more) == skipped(outcomes) + (if has_destination {
                0int
            } else {
                1
            })
            &&& failed(more) == failed(outcomes) + (if success {
                0int
            } else {
                1
            })
        }),
{
    reveal(Seq::filter);
    assert(outcomes.push(OrganizeOutcome { success, has_destination }).drop_last() =~= outcomes);
}

/// A book is told as moved if and only if it counts as moved, and as failed if and only if it counts
/// as failed; one that is told to have stayed counts as skipped.
pub proof fn books_are_told_as_they_are_counted(outcome: OrganizeOutcome)
    ensures
        line_for(outcome) == OrganizeLine::Moved <==> moved(seq![outcome]) == 1,
        line_for(outcome) == OrganizeLine::Failed <==> failed(seq![outcome]) == 1,
        line_for(outcome) == OrganizeLine::Stayed <==> skipped(seq![outcome]) == 1 && failed(
            seq![outcome],
        ) == 0,
        line_for(outcome) == OrganizeLine::Failed <==> !outcome.success,
        line_for(outcome) == OrganizeLine::Moved ==> outcome.has_destination,
        line_for(outcome) == OrganizeLine::Stayed ==> !outcome.has_destination,
{
    let none = Seq::<OrganizeOutcome>::empty();
    one_more_organized_book_is_counted(none, outcome.success, outcome.has_destination);
    assert(none.push(outcome) =~= seq![outcome]);
}

/// A configuration file is never overwritten without force, and a new one is always written.
pub proof fn a_config_file_is_overwritten_by_force_only()
    ensures
        forall|exists: bool, force: bool| #[trigger]
            init_choice(exists, force) == InitAction::Create <==> (exists ==> force),
{
}

/// The encoders are listed for FFmpeg alone, and only where it is found.
pub proof fn encoders_are_listed_for_ffmpeg_alone(tool: Tool, found: bool)
    ensures
        tool_line(tool, found).tool == tool,
        tool_line(tool, found).found == found,
        tool_line(Tool::FFmpeg, found).lists_encoders == found,
        !tool_line(Tool::AtomicParsley, found).lists_encoders,
        !tool_line(Tool::Mp4Box, found).lists_encoders,
{
}

} // verus!
