//! The interactive matching of M4B files with Audible metadata.
use crate::commands::MatchArgs;
use crate::text::{same_text, texts};
use vstd::prelude::*;

verus! {

// ---------------------------------------------------------------------------
// Choices
// ---------------------------------------------------------------------------

/// Result of processing a single file
#[derive(Debug, Clone, Copy, PartialEq, Eq, Structural)]
pub enum ProcessResult {
    Applied,
    Skipped,
}

/// Action to take when no results found
#[derive(Debug, Clone, Copy, PartialEq, Eq, Structural)]
pub enum NoResultsAction {
    ManualEntry,
    CustomSearch,
    Skip,
}

/// What the user makes of the candidates
#[derive(Debug, Clone, Copy, PartialEq, Eq, Structural)]
pub enum UserChoice {
    /// Take the candidate at a position
    SelectMatch(usize),
    Skip,
    ManualEntry,
    CustomSearch,
}

/// The option to skip a file.
pub const SKIP_OPTION: &'static str = "[S]kip this file";

/// The option to search again.
pub const SEARCH_OPTION: &'static str = "Search with [D]ifferent terms";

/// The option to enter metadata.
pub const MANUAL_OPTION: &'static str = "Enter metadata [M]anually";

/// What the user can do where a search found nothing
pub fn no_results_options() -> (r: Vec<String>)
    ensures
        texts(r@) == seq![SKIP_OPTION@, SEARCH_OPTION@, MANUAL_OPTION@],
{
    let mut r: Vec<String> = Vec::new();
    r.push(SKIP_OPTION.to_owned());
    r.push(SEARCH_OPTION.to_owned());
    r.push(MANUAL_OPTION.to_owned());
    proof {
        assert(texts(r@) =~= seq![SKIP_OPTION@, SEARCH_OPTION@, MANUAL_OPTION@]);
    }
    r
}

/// The action that an option stands for.
pub open spec fn action_of(option: Seq<char>) -> NoResultsAction {
    if option == SEARCH_OPTION@ {
        NoResultsAction::CustomSearch
    } else if option == MANUAL_OPTION@ {
        NoResultsAction::ManualEntry
    } else {
        NoResultsAction::Skip
    }
}

/// The action that an option stands for; one that is not known stands for skipping
pub fn no_results_action(option: &str) -> (r: NoResultsAction)
    ensures
        r == action_of(option@),
{
    if same_text(option, SEARCH_OPTION) {
        NoResultsAction::CustomSearch
    } else if same_text(option, MANUAL_OPTION) {
        NoResultsAction::ManualEntry
    } else {
        NoResultsAction::Skip
    }
}

// ---------------------------------------------------------------------------
// The matching of a file
// ---------------------------------------------------------------------------

/// What the options say about the matching of a file
pub struct MatchOptions {
    /// Manual title override
    pub title: Option<String>,
    /// Manual author override
    pub author: Option<String>,
    /// Take the best match and ask nothing
    pub auto: bool,
    /// Show matches but don't apply
    pub dry_run: bool,
}

fn copy_optional(text: &Option<String>) -> (r: Option<String>)
    ensures
        r == *text,
{
    match text {
        Some(t) => Some(t.clone()),
        None => None,
    }
}

/// The options of the match command
pub fn match_options(args: &MatchArgs) -> (r: MatchOptions)
    ensures
        r == (MatchOptions {
            title: args.title,
            author: args.author,
            auto: args.auto,
            dry_run: args.dry_run,
        }),
{
    MatchOptions {
        title: copy_optional(&args.title),
        author: copy_optional(&args.author),
        auto: args.auto,
        dry_run: args.dry_run,
    }
}

/// What to search for
pub struct SearchTerms {
    pub title: Option<String>,
    pub author: Option<String>,
    /// Whether the user entered it
    pub manual: bool,
}

impl SearchTerms {
    /// Whether there is anything to search for.
    pub open spec fn usable(self) -> bool {
        self.title is Some || self.author is Some
    }
}

/// Why the matching of a file failed
#[derive(Debug, Clone, Copy, PartialEq, Eq, Structural)]
pub enum MatchError {
    /// There is neither a title nor an author to search for
    NoSearchTerms,
}

impl MatchError {
    /// The message of the error.
    pub open spec fn text(self) -> Seq<char> {
        "Need at least title or author to search"@
    }

    /// The message of the error.
    pub fn to_string(&self) -> (r: String)
        ensures
            r@ == self.text(),
    {
        "Need at least title or author to search".to_owned()
    }
}

/// Where the matching of a file stands: what it waits for
pub enum MatchState {
    /// The metadata of the file
    Extracting,
    /// What a search finds
    Searching,
    /// What to do without a match
    WithoutMatch,
    /// Which of the candidates to take
    Selecting { candidates: usize },
    /// Metadata that the user enters
    EnteringMetadata,
    /// Other terms to search for
    EnteringTerms,
    /// That the metadata has been applied
    Applying,
    Finished(Result<ProcessResult, MatchError>),
}

/// What the matching of a file asks for
pub enum MatchAction {
    /// Read the metadata of the file
    Extract,
    Search(SearchTerms),
    /// Ask what to do without a match
    AskWithoutMatch,
    /// Ask which of the candidates to take
    AskSelection,
    AskMetadata,
    AskTerms,
    /// Take a candidate, and apply it or not
    UseCandidate { index: usize, apply: bool },
    /// Take the metadata that was entered, and apply it or not
    UseEntered { apply: bool },
    Finish,
}

/// What comes back
pub enum MatchEvent {
    Extracted { title: Option<String>, author: Option<String> },
    /// The number of candidates that a search found
    Results(usize),
    WithoutMatch(NoResultsAction),
    Selected(UserChoice),
    MetadataEntered,
    TermsEntered { title: Option<String>, author: Option<String> },
    /// What was to be applied has been
    Applied,
}

/// Whether an event answers what the matching of a file waits for.
pub open spec fn match_answers(state: MatchState, event: MatchEvent) -> bool {
    match state {
        MatchState::Extracting => event is Extracted,
        MatchState::Searching => event is Results,
        MatchState::WithoutMatch => event is WithoutMatch,
        MatchState::Selecting { candidates } => match event {
            MatchEvent::Selected(UserChoice::SelectMatch(index)) => index < candidates,
            MatchEvent::Selected(_) => true,
            _ => false,
        },
        MatchState::EnteringMetadata => event is MetadataEntered,
        MatchState::EnteringTerms => event is TermsEntered,
        MatchState::Applying => event is Applied,
        MatchState::Finished(_) => false,
    }
}

/// A file that is done with.
pub open spec fn finished(result: Result<ProcessResult, MatchError>) -> (MatchState, MatchAction) {
    (MatchState::Finished(result), MatchAction::Finish)
}

/// A search, if there is anything to search for.
pub open spec fn search_for(terms: SearchTerms) -> (MatchState, MatchAction) {
    if terms.usable() {
        (MatchState::Searching, MatchAction::Search(terms))
    } else {
        finished(Err(MatchError::NoSearchTerms))
    }
}

/// How the matching of a file starts: with the terms of the options, if there are any, else with
/// those of the file.
pub open spec fn match_start(options: MatchOptions) -> (MatchState, MatchAction) {
    if options.title is Some || options.author is Some {
        search_for(SearchTerms { title: options.title, author: options.author, manual: true })
    } else {
        (MatchState::Extracting, MatchAction::Extract)
    }
}

/// Where the matching of a file goes on an event, and what it asks for then.
pub open spec fn match_next(options: MatchOptions, state: MatchState, event: MatchEvent) -> (
    MatchState,
    MatchAction,
) {
    let apply = !options.dry_run;
    match event {
        MatchEvent::Extracted { title, author } => search_for(
            SearchTerms { title, author, manual: false },
        ),
        MatchEvent::TermsEntered { title, author } => search_for(
            SearchTerms { title, author, manual: true },
        ),
        MatchEvent::Results(count) => if count == 0 {
            if options.auto {
                finished(Ok(ProcessResult::Skipped))
            } else {
                (MatchState::WithoutMatch, MatchAction::AskWithoutMatch)
            }
        } else if options.auto {
            (MatchState::Applying, MatchAction::UseCandidate { index: 0, apply })
        } else {
            (MatchState::Selecting { candidates: count }, MatchAction::AskSelection)
        },
        MatchEvent::WithoutMatch(NoResultsAction::Skip) => finished(Ok(ProcessResult::Skipped)),
        MatchEvent::Selected(UserChoice::Skip) => finished(Ok(ProcessResult::Skipped)),
        MatchEvent::WithoutMatch(NoResultsAction::ManualEntry) => (
            MatchState::EnteringMetadata,
            MatchAction::AskMetadata,
        ),
        MatchEvent::Selected(UserChoice::ManualEntry) => (
            MatchState::EnteringMetadata,
            MatchAction::AskMetadata,
        ),
        MatchEvent::WithoutMatch(NoResultsAction::CustomSearch) => (
            MatchState::EnteringTerms,
            MatchAction::AskTerms,
        ),
        MatchEvent::Selected(UserChoice::CustomSearch) => (
            MatchState::EnteringTerms,
            MatchAction::AskTerms,
        ),
        MatchEvent::Selected(UserChoice::SelectMatch(index)) => (
            MatchState::Applying,
            MatchAction::UseCandidate { index, apply },
        ),
        MatchEvent::MetadataEntered => (MatchState::Applying, MatchAction::UseEntered { apply }),
        MatchEvent::Applied => finished(Ok(ProcessResult::Applied)),
    }
}

fn finish(result: Result<ProcessResult, MatchError>) -> (r: (MatchState, MatchAction))
    ensures
        r == finished(result),
{
    (MatchState::Finished(result), MatchAction::Finish)
}

/// Search for terms: there must be a title or an author
fn search_audible(terms: SearchTerms) -> (r: (MatchState, MatchAction))
    ensures
        r == search_for(terms),
{
    if terms.title.is_none() && terms.author.is_none() {
        finish(Err(MatchError::NoSearchTerms))
    } else {
        (MatchState::Searching, MatchAction::Search(terms))
    }
}

/// Start the matching of a file
pub fn begin_match(options: &MatchOptions) -> (r: (MatchState, MatchAction))
    ensures
        r == match_start(*options),
{
    if options.title.is_some() || options.author.is_some() {
        search_audible(
            SearchTerms {
                title: copy_optional(&options.title),
                author: copy_optional(&options.author),
                manual: true,
            },
        )
    } else {
        (MatchState::Extracting, MatchAction::Extract)
    }
}

/// Take the matching of a file one step further
pub fn match_step(options: &MatchOptions, state: MatchState, event: MatchEvent) -> (r: (
    MatchState,
    MatchAction,
))
    requires
        match_answers(state, event),
    ensures
        r == match_next(*options, state, event),
{
    let apply: bool = !options.dry_run;
    match event {
        MatchEvent::Extracted { title, author } => search_audible(
            SearchTerms { title, author, manual: false },
        ),
        MatchEvent::TermsEntered { title, author } => search_audible(
            SearchTerms { title, author, manual: true },
        ),
        MatchEvent::Results(count) => {
            if count == 0 {
                if options.auto {
                    finish(Ok(ProcessResult::Skipped))
                } else {
                    (MatchState::WithoutMatch, MatchAction::AskWithoutMatch)
                }
            } else if options.auto {
                (MatchState::Applying, MatchAction::UseCandidate { index: 0, apply })
            } else {
                (MatchState::Selecting { candidates: count }, MatchAction::AskSelection)
            }
        },
        MatchEvent::WithoutMatch(action) => match action {
            NoResultsAction::ManualEntry => (
                MatchState::EnteringMetadata,
                MatchAction::AskMetadata,
            ),
            NoResultsAction::CustomSearch => (MatchState::EnteringTerms, MatchAction::AskTerms),
            NoResultsAction::Skip => finish(Ok(ProcessResult::Skipped)),
        },
        MatchEvent::Selected(choice) => match choice {
            UserChoice::SelectMatch(index) => (
                MatchState::Applying,
                MatchAction::UseCandidate { index, apply },
            ),
            UserChoice::Skip => finish(Ok(ProcessResult::Skipped)),
            UserChoice::ManualEntry => (MatchState::EnteringMetadata, MatchAction::AskMetadata),
            UserChoice::CustomSearch => (MatchState::EnteringTerms, MatchAction::AskTerms),
        },
        MatchEvent::MetadataEntered => (MatchState::Applying, MatchAction::UseEntered { apply }),
        MatchEvent::Applied => finish(Ok(ProcessResult::Applied)),
    }
}

// ---------------------------------------------------------------------------
// Summary
// ---------------------------------------------------------------------------

/// What became of a file
#[derive(Debug, Clone, Copy, PartialEq, Eq, Structural)]
pub enum FileOutcome {
    Applied,
    Skipped,
    Failed,
}

/// How many files were processed, skipped and failed
#[derive(Debug, Clone, Copy, PartialEq, Eq, Structural)]
pub struct MatchSummary {
    pub processed: usize,
    pub skipped: usize,
    pub failed: usize,
}

/// How often an outcome occurs.
pub open spec fn occurrences(outcomes: Seq<FileOutcome>, outcome: FileOutcome) -> nat {
    outcomes.filter(|o: FileOutcome| o == outcome).len()
}

/// Count what became of the files
pub fn summarize(outcomes: &[FileOutcome]) -> (r: MatchSummary)
    ensures
        r.processed == occurrences(outcomes@, FileOutcome::Applied),
        r.skipped == occurrences(outcomes@, FileOutcome::Skipped),
        r.failed == occurrences(outcomes@, FileOutcome::Failed),
        r.processed + r.skipped + r.failed == outcomes@.len(),
{
    let mut processed: usize = 0;
    let mut skipped: usize = 0;
    let mut failed: usize = 0;
    let mut i: usize = 0;
    proof {
        reveal(Seq::filter);
    }
    while i < outcomes.len()
        invariant
            i <= outcomes.len(),
            processed == occurrences(outcomes@.take(i as int), FileOutcome::Applied),
            skipped == occurrences(outcomes@.take(i as int), FileOutcome::Skipped),
            failed == occurrences(outcomes@.take(i as int), FileOutcome::Failed),
            processed + skipped + failed == i,
        decreases outcomes.len() - i,
    {
        proof {
            reveal(Seq::filter);
            assert(outcomes@.take(i + 1).drop_last() =~= outcomes@.take(i as int));
        }
        match outcomes[i] {
            FileOutcome::Applied => {
                processed = processed + 1;
            },
            FileOutcome::Skipped => {
                skipped = skipped + 1;
            },
            FileOutcome::Failed => {
                failed = failed + 1;
            },
        }
        i = i + 1;
    }
    assert(outcomes@.take(outcomes@.len() as int) =~= outcomes@);
    MatchSummary { processed, skipped, failed }
}

// ---------------------------------------------------------------------------
// Laws
// ---------------------------------------------------------------------------

/// What the matching of a file asks for on a row of answers.
pub open spec fn match_actions(
    options: MatchOptions,
    state: MatchState,
    events: Seq<MatchEvent>,
) -> Seq<MatchAction>
    decreases events.len(),
{
    if events.len() == 0 {
        Seq::empty()
    } else {
        let (next, action) = match_next(options, state, events[0]);
        seq![action] + match_actions(options, next, events.skip(1))
    }
}

/// Where the matching of a file stands after a row of answers.
pub open spec fn match_end(
    options: MatchOptions,
    state: MatchState,
    events: Seq<MatchEvent>,
) -> MatchState
    decreases events.len(),
{
    if events.len() == 0 {
        state
    } else {
        match_end(options, match_next(options, state, events[0]).0, events.skip(1))
    }
}

/// Whether every event of a row answers what is waited for when it comes.
pub open spec fn all_answer(
    options: MatchOptions,
    state: MatchState,
    events: Seq<MatchEvent>,
) -> bool
    decreases events.len(),
{
    events.len() > 0 ==> match_answers(state, events[0]) && all_answer(
        options,
        match_next(options, state, events[0]).0,
        events.skip(1),
    )
}

/// Whether an action changes the file.
pub open spec fn changes_file(action: MatchAction) -> bool {
    match action {
        MatchAction::UseCandidate { apply, .. } => apply,
        MatchAction::UseEntered { apply } => apply,
        _ => false,
    }
}

/// Whether an action asks the user.
pub open spec fn asks_user(action: MatchAction) -> bool {
    action is AskWithoutMatch || action is AskSelection || action is AskMetadata
        || action is AskTerms
}

/// Whether a state can be reached without asking the user.
pub open spec fn unattended(state: MatchState) -> bool {
    state is Extracting || state is Searching || state is Applying || state is Finished
}

/// A dry run never changes a file, whatever is found and whatever the user answers.
pub proof fn a_dry_run_changes_no_file(
    options: MatchOptions,
    state: MatchState,
    events: Seq<MatchEvent>,
    i: int,
)
    requires
        options.dry_run,
        0 <= i < match_actions(options, state, events).len(),
    ensures
        !changes_file(match_actions(options, state, events)[i]),
        !changes_file(match_start(options).1),
    decreases events.len(),
{
    if i > 0 {
        let next = match_next(options, state, events[0]).0;
        a_dry_run_changes_no_file(options, next, events.skip(1), i - 1);
    }
}

/// In automatic mode the user is never asked.
pub proof fn automatic_mode_asks_nothing(
    options: MatchOptions,
    state: MatchState,
    events: Seq<MatchEvent>,
    i: int,
)
    requires
        options.auto,
        unattended(state),
        all_answer(options, state, events),
        0 <= i < match_actions(options, state, events).len(),
    ensures
        !asks_user(match_actions(options, state, events)[i]),
        !asks_user(match_start(options).1),
        unattended(match_start(options).0),
    decreases events.len(),
{
    let next = match_next(options, state, events[0]).0;
    assert(unattended(next));
    if i > 0 {
        automatic_mode_asks_nothing(options, next, events.skip(1), i - 1);
    }
}

/// In automatic mode the matching of a file ends after three answers at most.
pub proof fn automatic_mode_ends(options: MatchOptions, events: Seq<MatchEvent>)
    requires
        options.auto,
        all_answer(options, match_start(options).0, events),
    ensures
        events.len() <= 3,
{
    reveal_with_fuel(all_answer, 5);
    if events.len() > 3 {
        let s0 = match_start(options).0;
        let s1 = match_next(options, s0, events[0]).0;
        let s2 = match_next(options, s1, events[1]).0;
        let s3 = match_next(options, s2, events[2]).0;
        assert(events.skip(1)[0] == events[1]);
        assert(events.skip(1).skip(1)[0] == events[2]);
        assert(events.skip(1).skip(1).skip(1)[0] == events[3]);
        assert(match_answers(s0, events[0]));
        assert(match_answers(s1, events[1]));
        assert(match_answers(s2, events[2]));
        assert(match_answers(s3, events[3]));
    }
}

/// Every search has a title or an author to search for.
pub proof fn every_search_has_terms(
    options: MatchOptions,
    state: MatchState,
    events: Seq<MatchEvent>,
    i: int,
)
    requires
        0 <= i < match_actions(options, state, events).len(),
    ensures
        match_actions(options, state, events)[i] matches MatchAction::Search(terms)
            ==> terms.usable(),
        match_start(options).1 matches MatchAction::Search(terms) ==> terms.usable(),
    decreases events.len(),
{
    if i > 0 {
        let next = match_next(options, state, events[0]).0;
        every_search_has_terms(options, next, events.skip(1), i - 1);
    }
}

/// A file that ends up skipped is left as it was.
pub proof fn a_skipped_file_is_not_changed(
    options: MatchOptions,
    state: MatchState,
    events: Seq<MatchEvent>,
    i: int,
)
    requires
        all_answer(options, state, events),
        match_end(options, state, events) == MatchState::Finished(Ok(ProcessResult::Skipped)),
        0 <= i < match_actions(options, state, events).len(),
    ensures
        !changes_file(match_actions(options, state, events)[i]),
    decreases events.len(),
{
    reveal_with_fuel(all_answer, 3);
    reveal_with_fuel(match_end, 3);
    reveal_with_fuel(match_actions, 3);
    let next = match_next(options, state, events[0]).0;
    let rest = events.skip(1);
    if i > 0 {
        a_skipped_file_is_not_changed(options, next, rest, i - 1);
    } else if next is Applying {
        if rest.len() > 0 {
            let after = match_next(options, next, rest[0]).0;
            assert(match_answers(next, rest[0]));
            assert(after == MatchState::Finished(Ok::<ProcessResult, MatchError>(
                ProcessResult::Applied,
            )));
            assert(all_answer(options, after, rest.skip(1)));
            if rest.skip(1).len() > 0 {
                assert(match_answers(after, rest.skip(1)[0]));
            }
            assert(match_end(options, after, rest.skip(1)) == after);
            assert(match_end(options, next, rest) == after);
        }
    }
}

/// Outside a dry run a file that ends up applied was changed by the last thing that was asked for
/// before the end.
pub proof fn an_applied_file_was_changed(
    options: MatchOptions,
    state: MatchState,
    events: Seq<MatchEvent>,
)
    requires
        !options.dry_run,
        !(state is Applying),
        !(state is Finished),
        all_answer(options, state, events),
        match_end(options, state, events) == MatchState::Finished(Ok(ProcessResult::Applied)),
    ensures
        match_actions(options, state, events).len() >= 2,
        changes_file(
            match_actions(options, state, events)[match_actions(options, state, events).len() - 2],
        ),
    decreases events.len(),
{
    reveal_with_fuel(all_answer, 3);
    reveal_with_fuel(match_end, 3);
    reveal_with_fuel(match_actions, 3);
    let next = match_next(options, state, events[0]).0;
    let rest = events.skip(1);
    assert(match_answers(state, events[0]));
    let tail = match_actions(options, next, rest);
    let actions = match_actions(options, state, events);
    assert(actions =~= seq![match_next(options, state, events[0]).1] + tail);
    if next is Applying {
        assert(rest.len() > 0);
        let after = match_next(options, next, rest[0]).0;
        assert(match_answers(next, rest[0]));
        assert(all_answer(options, after, rest.skip(1)));
        if rest.skip(1).len() > 0 {
            assert(match_answers(after, rest.skip(1)[0]));
        }
        assert(match_actions(options, after, rest.skip(1)) =~= Seq::empty());
        assert(tail.len() == 1);
    } else if next is Finished {
        if rest.len() > 0 {
            assert(match_answers(next, rest[0]));
        }
    } else {
        an_applied_file_was_changed(options, next, rest);
        assert(actions[actions.len() - 2] == tail[tail.len() - 2]);
    }
}

/// The option that stands for an action.
pub open spec fn option_of(action: NoResultsAction) -> Seq<char> {
    match action {
        NoResultsAction::Skip => SKIP_OPTION@,
        NoResultsAction::CustomSearch => SEARCH_OPTION@,
        NoResultsAction::ManualEntry => MANUAL_OPTION@,
    }
}

/// Every action has an option that stands for it.
pub proof fn every_action_has_an_option(action: NoResultsAction)
    ensures
        action_of(option_of(action)) == action,
{
    reveal_strlit("[S]kip this file");
    reveal_strlit("Search with [D]ifferent terms");
    reveal_strlit("Enter metadata [M]anually");
    assert(SKIP_OPTION@.len() == 16);
    assert(SEARCH_OPTION@.len() == 29);
    assert(MANUAL_OPTION@.len() == 25);
}

/// Whichever candidate the user picks, that candidate is used, and it is applied unless the run is
/// dry.
pub proof fn the_candidate_that_is_picked_is_used(
    options: MatchOptions,
    candidates: usize,
    index: usize,
)
    requires
        index < candidates,
    ensures
        ({
            let (next, action) = match_next(
                options,
                MatchState::Selecting { candidates },
                MatchEvent::Selected(UserChoice::SelectMatch(index)),
            );
            &&& next is Applying
            &&& action is UseCandidate
            &&& action->UseCandidate_index == index
            &&& action->UseCandidate_apply == !options.dry_run
        }),
{
}

/// In automatic mode the first of the candidates is used; otherwise the user is asked to pick one
/// of as many as were found. Where none was found, the user is asked what to do, or, in automatic
/// mode, the file is skipped.
pub proof fn results_are_offered_or_the_best_is_used(options: MatchOptions, count: usize)
    ensures
        ({
            let (next, action) = match_next(
                options,
                MatchState::Searching,
                MatchEvent::Results(count),
            );
            &&& count > 0 && options.auto ==> next is Applying && action is UseCandidate
                && action->UseCandidate_index == 0 && action->UseCandidate_apply == !options.dry_run
            &&& count > 0 && !options.auto ==> next is Selecting && next->candidates == count
                && action is AskSelection
            &&& count == 0 && options.auto ==> next == MatchState::Finished(
                Ok::<ProcessResult, MatchError>(ProcessResult::Skipped),
            )
            &&& count == 0 && !options.auto ==> next is WithoutMatch && action is AskWithoutMatch
        }),
{
}

/// What the user enters is what is used, and it is applied unless the run is dry; what has been
/// used ends the file as applied.
pub proof fn what_is_entered_is_used(options: MatchOptions)
    ensures
        ({
            let (next, action) = match_next(
                options,
                MatchState::EnteringMetadata,
                MatchEvent::MetadataEntered,
            );
            &&& next is Applying
            &&& action is UseEntered
            &&& action->UseEntered_apply == !options.dry_run
        }),
        match_next(options, MatchState::Applying, MatchEvent::Applied).0 == MatchState::Finished(Ok::<ProcessResult, MatchError>(ProcessResult::Applied)),
{
}

/// A wish of the user is followed, whether anything was found or not: to enter metadata, to search
/// for something else, or to skip the file.
pub proof fn the_wish_of_the_user_is_followed(options: MatchOptions, candidates: usize)
    ensures
        ({
            let picked = |choice: UserChoice|
                match_next(
                    options,
                    MatchState::Selecting { candidates },
                    MatchEvent::Selected(choice),
                );
            let told = |action: NoResultsAction|
                match_next(options, MatchState::WithoutMatch, MatchEvent::WithoutMatch(action));
            &&& picked(UserChoice::ManualEntry).0 is EnteringMetadata
            &&& picked(UserChoice::ManualEntry).1 is AskMetadata
            &&& told(NoResultsAction::ManualEntry).0 is EnteringMetadata
            &&& told(NoResultsAction::ManualEntry).1 is AskMetadata
            &&& picked(UserChoice::CustomSearch).0 is EnteringTerms
            &&& picked(UserChoice::CustomSearch).1 is AskTerms
            &&& told(NoResultsAction::CustomSearch).0 is EnteringTerms
            &&& told(NoResultsAction::CustomSearch).1 is AskTerms
            &&& picked(UserChoice::Skip).0 == MatchState::Finished(
                Ok::<ProcessResult, MatchError>(ProcessResult::Skipped),
            )
            &&& told(NoResultsAction::Skip).0 == MatchState::Finished(
                Ok::<ProcessResult, MatchError>(ProcessResult::Skipped),
            )
        }),
{
}

/// What is searched for is what was given: in the options, in the file where the options give
/// nothing, or by the user; and without a title or an author nothing is searched for.
pub proof fn what_is_given_is_searched_for(
    options: MatchOptions,
    title: Option<String>,
    author: Option<String>,
)
    ensures
        title is Some || author is Some ==> match_next(
            options,
            MatchState::Extracting,
            MatchEvent::Extracted { title, author },
        ) == (
            MatchState::Searching,
            MatchAction::Search(SearchTerms { title, author, manual: false }),
        ),
        title is Some || author is Some ==> match_next(
            options,
            MatchState::EnteringTerms,
            MatchEvent::TermsEntered { title, author },
        ) == (
            MatchState::Searching,
            MatchAction::Search(SearchTerms { title, author, manual: true }),
        ),
        title is None && author is None ==> match_next(
            options,
            MatchState::EnteringTerms,
            MatchEvent::TermsEntered { title, author },
        ).0 == MatchState::Finished(Err::<ProcessResult, MatchError>(MatchError::NoSearchTerms)),
        title is None && author is None ==> match_next(
            options,
            MatchState::Extracting,
            MatchEvent::Extracted { title, author },
        ).0 == MatchState::Finished(Err::<ProcessResult, MatchError>(MatchError::NoSearchTerms)),
        options.title is Some || options.author is Some ==> match_start(options) == (
            MatchState::Searching,
            MatchAction::Search(
                SearchTerms { title: options.title, author: options.author, manual: true },
            ),
        ),
        options.title is None && options.author is None ==> match_start(options) == (
            MatchState::Extracting,
            MatchAction::Extract,
        ),
{
}

/// One more file adds one to the count of what became of it, and to no other.
pub proof fn one_more_file_is_counted_once(
    outcomes: Seq<FileOutcome>,
    last: FileOutcome,
    outcome: FileOutcome,
)
    ensures
        occurrences(Seq::<FileOutcome>::empty(), outcome) == 0,
        last == outcome ==> occurrences(outcomes.push(last), outcome) == occurrences(
            outcomes,
            outcome,
        ) + 1,
        last != outcome ==> occurrences(outcomes.push(last), outcome) == occurrences(
            outcomes,
            outcome,
        ),
{
    reveal(Seq::filter);
    assert(outcomes.push(last).drop_last() =~= outcomes);
}

/// Every option that the user is not shown stands for skipping, and every one that is shown stands
/// for its own action.
pub proof fn options_stand_for_what_they_say(option: Seq<char>)
    ensures
        option == "Search with [D]ifferent terms"@ ==> action_of(option)
            == NoResultsAction::CustomSearch,
        option == "Enter metadata [M]anually"@ ==> action_of(option)
            == NoResultsAction::ManualEntry,
        option != "Search with [D]ifferent terms"@ && option != "Enter metadata [M]anually"@
            ==> action_of(option) == NoResultsAction::Skip,
{
    reveal_strlit("Search with [D]ifferent terms");
    reveal_strlit("Enter metadata [M]anually");
    assert("Search with [D]ifferent terms"@.len() == 29);
    assert("Enter metadata [M]anually"@.len() == 25);
}

} // verus!
