//! The decisions of the build command.
use crate::commands::BuildArgs;
use crate::config::Config;
use crate::scanner::{BookCase, BookFolder};
use crate::text::{lowercase, parse_u64, same_text, to_lowercase, unsigned_value};
use std::path::PathBuf;
use vstd::prelude::*;

verus! {

// ---------------------------------------------------------------------------
// Root directory
// ---------------------------------------------------------------------------

/// The first of two choices that is made.
pub open spec fn first_choice(cli: Option<PathBuf>, configured: Option<PathBuf>) -> Option<PathBuf> {
    match cli {
        Some(path) => Some(path),
        None => configured,
    }
}

/// The directory that is named: on the command line, or else in the configuration
pub fn named_root(cli: Option<PathBuf>, configured: &Option<PathBuf>) -> (r: Option<PathBuf>)
    ensures
        r == first_choice(cli, *configured),
        r == if cli is Some {
            cli
        } else {
            *configured
        },
{
    match cli {
        Some(path) => Some(path),
        None => match configured {
            Some(path) => Some(path.clone()),
            None => None,
        },
    }
}

/// What the root of a build was found to be
pub enum RootFinding {
    /// A directory was named; it is an audiobook folder itself, or a library of such folders
    Named { path: PathBuf, is_audiobook: bool },
    /// None was named; the current directory if it is an audiobook folder
    Current(Option<PathBuf>),
}

/// Where a build starts
pub struct BuildRoot {
    pub path: PathBuf,
    /// Whether the directory is one audiobook, in place of a library
    pub auto_detected: bool,
}

/// Where a build starts, if anywhere: at a directory that is named, as one audiobook if it is one,
/// or at the current directory if that is an audiobook.
pub open spec fn start_of(finding: RootFinding) -> Option<(PathBuf, bool)> {
    match finding {
        RootFinding::Named { path, is_audiobook } => Some((path, is_audiobook)),
        RootFinding::Current(Some(path)) => Some((path, true)),
        RootFinding::Current(None) => None,
    }
}

/// Determine root directory: one that is named, or else the current directory if it is an
/// audiobook folder
pub fn build_root(finding: RootFinding) -> (r: Option<BuildRoot>)
    ensures
        match r {
            Some(root) => start_of(finding) == Some((root.path, root.auto_detected)),
            None => start_of(finding) is None,
        },
        r == match finding {
            RootFinding::Named { path, is_audiobook } => Some(
                (BuildRoot { path, auto_detected: is_audiobook }),
            ),
            RootFinding::Current(Some(path)) => Some((BuildRoot { path, auto_detected: true })),
            RootFinding::Current(None) => None,
        },
{
    match finding {
        RootFinding::Named { path, is_audiobook } => Some(
            BuildRoot { path, auto_detected: is_audiobook },
        ),
        RootFinding::Current(Some(path)) => Some(BuildRoot { path, auto_detected: true }),
        RootFinding::Current(None) => None,
    }
}

/// The message where there is no root directory to build.
pub const NO_BUILD_ROOT: &'static str =
    "No root directory specified. Use --root, configure directories.source, or run from inside an audiobook folder";

/// The message where there is no root directory to organize.
pub const NO_ORGANIZE_ROOT: &'static str =
    "No root directory specified. Use --root or configure directories.source";

// ---------------------------------------------------------------------------
// Which books to build
// ---------------------------------------------------------------------------

/// Whether a book is still to be built: it has no M4B file, or has parts to merge.
pub open spec fn unfinished(book: BookFolder) -> bool {
    book.m4b_files@.len() == 0 || book.case == BookCase::E
}

/// Whether a book is merged only because the user asks for it: it has several M4B files that do
/// not look like parts.
pub open spec fn merged_on_request(book: BookFolder) -> bool {
    book.m4b_files@.len() > 1 && book.case == BookCase::C
}

/// A book with the case that a forced merge gives it.
pub open spec fn forced(book: BookFolder) -> BookFolder {
    if merged_on_request(book) {
        BookFolder { case: BookCase::E, ..book }
    } else {
        book
    }
}

/// Whether there is something to do for a book where finished ones are left out: it is unfinished,
/// or the user asks for merges and it is merged on request.
pub open spec fn wanted(book: BookFolder, merge_m4b: bool) -> bool {
    unfinished(book) || merge_m4b && merged_on_request(book)
}

/// The books that are left after finished ones have been left out, if they are.
pub open spec fn remaining(books: Seq<BookFolder>, skip: bool, merge_m4b: bool) -> Seq<BookFolder> {
    if skip {
        books.filter(|b: BookFolder| wanted(b, merge_m4b))
    } else {
        books
    }
}

/// The books of a build.
pub open spec fn chosen(books: Seq<BookFolder>, skip: bool, merge_m4b: bool) -> Seq<BookFolder> {
    if merge_m4b {
        remaining(books, skip, merge_m4b).map_values(|b: BookFolder| forced(b))
    } else {
        remaining(books, skip, merge_m4b)
    }
}

fn is_merged_on_request(book: &BookFolder) -> (r: bool)
    ensures
        r == merged_on_request(*book),
{
    book.m4b_files.len() > 1 && book.case == BookCase::C
}

/// Leaves out the books that there is nothing to do for.
fn leave_out_finished(books: Vec<BookFolder>, merge_m4b: bool) -> (r: Vec<BookFolder>)
    ensures
        r@ == remaining(books@, true, merge_m4b),
{
    let ghost all = books@;
    let ghost keeps = |b: BookFolder| wanted(b, merge_m4b);
    let mut kept: Vec<BookFolder> = Vec::new();
    proof {
        reveal(Seq::filter);
    }
    for book in it: books
        invariant
            it.seq() == all,
            keeps == (|b: BookFolder| wanted(b, merge_m4b)),
            kept@ == all.take(it.index() as int).filter(keeps),
    {
        proof {
            reveal(Seq::filter);
            let i = it.index() as int;
            assert(all.take(i + 1).drop_last() =~= all.take(i));
            assert(all.take(i + 1).last() == book);
        }
        if book.m4b_files.is_empty() || book.is_mergeable() || merge_m4b && is_merged_on_request(
            &book,
        ) {
            kept.push(book);
        }
    }
    assert(all.take(all.len() as int) =~= all);
    kept
}

/// Gives every book with several M4B files the case of a merge.
fn force_merges(books: Vec<BookFolder>) -> (r: Vec<BookFolder>)
    ensures
        r@ == books@.map_values(|b: BookFolder| forced(b)),
{
    let ghost all = books@;
    let ghost force = |b: BookFolder| forced(b);
    let mut r: Vec<BookFolder> = Vec::new();
    for book in it: books
        invariant
            it.seq() == all,
            force == (|b: BookFolder| forced(b)),
            r@ == all.take(it.index() as int).map_values(force),
    {
        proof {
            let i = it.index() as int;
            assert(all.take(i + 1).map_values(force) =~= all.take(i).map_values(force).push(
                forced(book),
            ));
        }
        if is_merged_on_request(&book) {
            r.push(BookFolder { case: BookCase::E, ..book });
        } else {
            r.push(book);
        }
    }
    assert(all.take(all.len() as int) =~= all);
    r
}

/// What a build does with the books that were found
pub enum BuildPlan {
    /// There are none
    NothingFound,
    /// All have been built before
    AllProcessed,
    /// List them and change nothing
    DryRun(Vec<BookFolder>),
    /// Build them
    Process(Vec<BookFolder>),
}

/// A plan, and the numbers to tell the user on the way to it
pub struct PlannedBuild {
    pub plan: BuildPlan,
    /// How many books were found
    pub found: usize,
    /// How many are left, where finished ones were left out
    pub left: Option<usize>,
}

/// What the options of a build say about the choice of books
pub struct BuildOptions {
    /// Leave out books with M4B files
    pub skip_existing: bool,
    /// Build them all the same
    pub force: bool,
    /// Merge M4B files that do not look like parts too
    pub merge_m4b: bool,
    pub dry_run: bool,
}

/// The options of a build.
pub open spec fn asked_options(args: BuildArgs, config: Config) -> BuildOptions {
    BuildOptions {
        skip_existing: if args.skip_existing is Some {
            args.skip_existing->0
        } else {
            config.processing.skip_existing
        },
        force: args.force,
        merge_m4b: args.merge_m4b,
        dry_run: args.dry_run,
    }
}

/// The options of a build from its arguments and the configuration; what the command line says
/// goes before the configuration
pub fn build_options(args: &BuildArgs, config: &Config) -> (r: BuildOptions)
    ensures
        r.skip_existing == match args.skip_existing {
            Some(skip) => skip,
            None => config.processing.skip_existing,
        },
        r.force == args.force,
        r.merge_m4b == args.merge_m4b,
        r.dry_run == args.dry_run,
        r == asked_options(*args, *config),
{
    BuildOptions {
        skip_existing: match args.skip_existing {
            Some(skip) => skip,
            None => config.processing.skip_existing,
        },
        force: args.force,
        merge_m4b: args.merge_m4b,
        dry_run: args.dry_run,
    }
}

impl BuildOptions {
    /// Whether books that have been built before are left out.
    pub open spec fn skips(self) -> bool {
        self.skip_existing && !self.force
    }
}

/// Whether a plan is the one for the books that were found.
pub open spec fn plan_fits(books: Seq<BookFolder>, options: BuildOptions, plan: BuildPlan) -> bool {
    let chosen_books = chosen(books, options.skips(), options.merge_m4b);
    match plan {
        BuildPlan::NothingFound => books.len() == 0,
        BuildPlan::AllProcessed => books.len() > 0 && chosen_books.len() == 0,
        BuildPlan::DryRun(listed) => chosen_books.len() > 0 && options.dry_run && listed@
            == chosen_books,
        BuildPlan::Process(built) => chosen_books.len() > 0 && !options.dry_run && built@
            == chosen_books,
    }
}

/// Decide what to do with the books that were found
pub fn plan_build(books: Vec<BookFolder>, options: &BuildOptions) -> (r: PlannedBuild)
    ensures
        plan_fits(books@, *options, r.plan),
        r.found == books@.len(),
        r.left == if books@.len() > 0 && options.skips() {
            Some(remaining(books@, true, options.merge_m4b).len() as usize)
        } else {
            None
        },
{
    let found: usize = books.len();
    if found == 0 {
        return PlannedBuild { plan: BuildPlan::NothingFound, found, left: None };
    }
    let skips: bool = options.skip_existing && !options.force;
    let books: Vec<BookFolder> = if skips {
        leave_out_finished(books, options.merge_m4b)
    } else {
        books
    };
    let left: Option<usize> = if skips {
        Some(books.len())
    } else {
        None
    };
    let books: Vec<BookFolder> = if options.merge_m4b {
        force_merges(books)
    } else {
        books
    };
    let plan: BuildPlan = if books.is_empty() {
        BuildPlan::AllProcessed
    } else if options.dry_run {
        BuildPlan::DryRun(books)
    } else {
        BuildPlan::Process(books)
    };
    PlannedBuild { plan, found, left }
}

/// The books to merge: with what belongs to them, in order.
pub open spec fn to_merge<T>(books: Seq<(BookFolder, T)>) -> Seq<(BookFolder, T)> {
    books.filter(|b: (BookFolder, T)| b.0.case == BookCase::E)
}

/// The books to convert: with what belongs to them, in order.
pub open spec fn to_convert<T>(books: Seq<(BookFolder, T)>) -> Seq<(BookFolder, T)> {
    books.filter(|b: (BookFolder, T)| b.0.case != BookCase::E)
}

/// Separate the books to merge from those to convert
pub fn separate_merges<T>(books: Vec<(BookFolder, T)>) -> (r: (
    Vec<(BookFolder, T)>,
    Vec<(BookFolder, T)>,
))
    ensures
        r.0@ == to_merge(books@),
        r.1@ == to_convert(books@),
{
    let ghost all = books@;
    let mut merges: Vec<(BookFolder, T)> = Vec::new();
    let mut converts: Vec<(BookFolder, T)> = Vec::new();
    proof {
        reveal(Seq::filter);
    }
    for book in it: books
        invariant
            it.seq() == all,
            merges@ == to_merge(all.take(it.index() as int)),
            converts@ == to_convert(all.take(it.index() as int)),
    {
        proof {
            reveal(Seq::filter);
            let i = it.index() as int;
            assert(all.take(i + 1).drop_last() =~= all.take(i));
            assert(all.take(i + 1).last() == book);
        }
        if book.0.is_mergeable() {
            merges.push(book);
        } else {
            converts.push(book);
        }
    }
    assert(all.take(all.len() as int) =~= all);
    (merges, converts)
}

// ---------------------------------------------------------------------------
// Output directory
// ---------------------------------------------------------------------------

/// Where finished books go
pub enum OutputDir {
    /// To a given path
    At(PathBuf),
    /// To the directory that the configuration names
    Configured(String),
}

/// The configured output that stands for the source directory.
pub const SAME_AS_SOURCE: &'static str = "same_as_source";

/// The path that finished books go to; nothing where it is the directory that the configuration
/// names.
pub open spec fn output_path(
    root: PathBuf,
    auto_detected: bool,
    out: Option<PathBuf>,
    configured: Seq<char>,
) -> Option<PathBuf> {
    if out is Some {
        out
    } else if auto_detected || configured == SAME_AS_SOURCE@ {
        Some(root)
    } else {
        None
    }
}

/// Determine output directory: the one on the command line; else, for a single audiobook folder,
/// the folder itself; else what the configuration says
pub fn output_dir(root: BuildRoot, out: Option<PathBuf>, configured: &str) -> (r: OutputDir)
    ensures
        match r {
            OutputDir::At(path) => output_path(root.path, root.auto_detected, out, configured@)
                == Some(path),
            OutputDir::Configured(name) => output_path(
                root.path,
                root.auto_detected,
                out,
                configured@,
            ) is None && name@ == configured@,
        },
        match r {
            OutputDir::At(path) => match out {
                Some(p) => path == p,
                None => (root.auto_detected || configured@ == SAME_AS_SOURCE@) && path == root.path,
            },
            OutputDir::Configured(name) => out is None && !root.auto_detected && configured@
                != SAME_AS_SOURCE@ && name@ == configured@,
        },
{
    match out {
        Some(path) => OutputDir::At(path),
        None => if root.auto_detected || same_text(configured, SAME_AS_SOURCE) {
            OutputDir::At(root.path)
        } else {
            OutputDir::Configured(configured.to_owned())
        },
    }
}

/// The chapter source priority: that of the command line, or else that of the configuration
pub fn chapter_priority(args: &BuildArgs, config: &Config) -> (r: String)
    ensures
        r == match args.chapter_source {
            Some(source) => source,
            None => config.quality.chapter_source,
        },
{
    match &args.chapter_source {
        Some(source) => source.clone(),
        None => config.quality.chapter_source.clone(),
    }
}

// ---------------------------------------------------------------------------
// Encoder
// ---------------------------------------------------------------------------

/// The AAC encoder to use, `E` being what encoder names stand for
pub enum EncoderChoice<E> {
    /// One that is named
    Named(E),
    /// That of Apple Silicon
    AppleSilicon,
    /// The native one
    Native,
    /// The one that detection finds
    Detect,
}

/// The name of the encoder in the configuration, in small letters
pub fn configured_encoder(config: &Config) -> (r: String)
    ensures
        r@ == lowercase(config.advanced.aac_encoder@),
{
    to_lowercase(config.advanced.aac_encoder.as_str())
}

/// The encoder that four settings lead to, each before those behind it: the encoder named on the
/// command line, the superseded setting, the name in the configuration and what it stands for.
pub open spec fn encoder_for<E>(
    cli: Option<E>,
    apple_silicon: Option<bool>,
    name: Seq<char>,
    configured: Option<E>,
) -> EncoderChoice<E> {
    if cli is Some {
        EncoderChoice::Named(cli->0)
    } else if apple_silicon is Some {
        if apple_silicon->0 {
            EncoderChoice::AppleSilicon
        } else {
            EncoderChoice::Native
        }
    } else if configured is Some && lowercase(name) != "auto"@ {
        EncoderChoice::Named(configured->0)
    } else {
        EncoderChoice::Detect
    }
}

/// Resolve which AAC encoder to use: that of the command line, if its name is known; else what the
/// superseded setting says, if there is one; else that of the configuration, if its name is known
/// and is not `auto`; else whichever is detected. The names stand for `cli` and `configured`.
pub fn resolve_encoder<E>(config: &Config, cli: Option<E>, configured: Option<E>) -> (r:
    EncoderChoice<E>)
    ensures
        r == encoder_for(
            cli,
            config.advanced.use_apple_silicon_encoder,
            config.advanced.aac_encoder@,
            configured,
        ),
        r == match (cli, config.advanced.use_apple_silicon_encoder) {
            (Some(e), _) => EncoderChoice::Named(e),
            (None, Some(true)) => EncoderChoice::AppleSilicon,
            (None, Some(false)) => EncoderChoice::Native,
            (None, None) => match configured {
                Some(e) if lowercase(config.advanced.aac_encoder@) != "auto"@ =>
                    EncoderChoice::Named(e),
                _ => EncoderChoice::Detect,
            },
        },
{
    match cli {
        Some(e) => {
            return EncoderChoice::Named(e);
        },
        None => {},
    }
    match config.advanced.use_apple_silicon_encoder {
        Some(apple_silicon) => {
            return if apple_silicon {
                EncoderChoice::AppleSilicon
            } else {
                EncoderChoice::Native
            };
        },
        None => {},
    }
    let name: String = configured_encoder(config);
    if same_text(name.as_str(), "auto") {
        return EncoderChoice::Detect;
    }
    match configured {
        Some(e) => EncoderChoice::Named(e),
        None => EncoderChoice::Detect,
    }
}

// ---------------------------------------------------------------------------
// How much at a time
// ---------------------------------------------------------------------------

/// `num_cpus::get`: the number of CPUs, which is at least one. It depends on the machine, so
/// nothing more is said of it.
#[verifier::external_body]
pub(crate) fn cpu_count() -> (r: usize)
    ensures
        r >= 1,
{
    num_cpus::get()
}

/// A number held between two bounds.
pub open spec fn between(n: int, least: int, most: int) -> int {
    if n < least {
        least
    } else if n > most {
        most
    } else {
        n
    }
}

/// The number that a setting asks for: that of the CPUs for `auto`, else the number written,
/// else `fallback`; one that is not automatic is held between one and `most`.
pub open spec fn concurrency(setting: Seq<char>, cpus: nat, fallback: nat, most: nat) -> int {
    if setting == "auto"@ {
        cpus as int
    } else {
        match unsigned_value(setting, usize::MAX as nat) {
            Some(n) => between(n as int, 1, most as int),
            None => between(fallback as int, 1, most as int),
        }
    }
}

fn parse_usize(s: &str) -> (r: Option<usize>)
    ensures
        match r {
            Some(n) => unsigned_value(s@, usize::MAX as nat) == Some(n as nat),
            None => unsigned_value(s@, usize::MAX as nat) is None,
        },
{
    match parse_u64(s) {
        Some(n) => if n <= usize::MAX as u64 {
            Some(n as usize)
        } else {
            None
        },
        None => None,
    }
}

fn read_concurrency(setting: &str, cpus: usize, fallback: usize, most: usize) -> (r: usize)
    requires
        most >= 1,
    ensures
        r == concurrency(setting@, cpus as nat, fallback as nat, most as nat),
{
    if same_text(setting, "auto") {
        return cpus;
    }
    let n: usize = match parse_usize(setting) {
        Some(n) => n,
        None => fallback,
    };
    if n < 1 {
        1
    } else if n > most {
        most
    } else {
        n
    }
}

/// The most encodes at a time that a configuration can ask for.
pub const MAX_ENCODES: usize = 16;

/// The most files of a book at a time that a configuration can ask for.
pub const MAX_FILES: usize = 32;

/// The number of files of a book at a time where the configuration is not a number.
pub const USUAL_FILES: usize = 8;

/// How a batch of books is processed
pub struct BatchSettings {
    /// Books at a time
    pub workers: usize,
    pub keep_temp: bool,
    /// Encodes at a time
    pub max_concurrent: usize,
    /// Files of a book at a time
    pub max_concurrent_files: usize,
}

/// Whether settings are those that the arguments and the configuration ask for on a machine with
/// the given number of CPUs.
pub open spec fn settings_fit(
    args: BuildArgs,
    config: Config,
    cpus: nat,
    settings: BatchSettings,
) -> bool {
    &&& settings.workers == match args.parallel {
        Some(n) => n,
        None => config.processing.parallel_workers,
    }
    &&& settings.keep_temp == (args.keep_temp || config.processing.keep_temp_files)
    &&& settings.max_concurrent == concurrency(
        config.performance.max_concurrent_encodes@,
        cpus,
        cpus,
        MAX_ENCODES as nat,
    )
    &&& settings.max_concurrent_files == concurrency(
        config.performance.max_concurrent_files_per_book@,
        cpus,
        USUAL_FILES as nat,
        MAX_FILES as nat,
    )
}

/// The number of workers: that of the command line, or else that of the configuration
pub fn worker_count(args: &BuildArgs, config: &Config) -> (r: usize)
    ensures
        r == match args.parallel {
            Some(n) => n,
            None => config.processing.parallel_workers,
        },
{
    match args.parallel {
        Some(n) => n as usize,
        None => config.processing.parallel_workers as usize,
    }
}

/// The settings of a batch on a machine with the given number of CPUs
pub fn batch_settings_for(args: &BuildArgs, config: &Config, cpus: usize) -> (r: BatchSettings)
    ensures
        settings_fit(*args, *config, cpus as nat, r),
{
    BatchSettings {
        workers: worker_count(args, config),
        keep_temp: args.keep_temp || config.processing.keep_temp_files,
        max_concurrent: read_concurrency(
            config.performance.max_concurrent_encodes.as_str(),
            cpus,
            cpus,
            MAX_ENCODES,
        ),
        max_concurrent_files: read_concurrency(
            config.performance.max_concurrent_files_per_book.as_str(),
            cpus,
            USUAL_FILES,
            MAX_FILES,
        ),
    }
}

/// The settings of a batch on this machine
pub fn batch_settings(args: &BuildArgs, config: &Config) -> (r: BatchSettings)
    ensures
        exists|cpus: nat| cpus >= 1 && #[trigger] settings_fit(*args, *config, cpus, r),
{
    let cpus: usize = cpu_count();
    batch_settings_for(args, config, cpus)
}

// ---------------------------------------------------------------------------
// Laws
// ---------------------------------------------------------------------------

/// Whatever the settings say, at least one encode and one file is worked on at a time.
pub proof fn a_batch_makes_progress(args: BuildArgs, config: Config, cpus: nat, settings: BatchSettings)
    requires
        cpus >= 1,
        settings_fit(args, config, cpus, settings),
    ensures
        settings.max_concurrent >= 1,
        settings.max_concurrent_files >= 1,
{
}

/// A setting that is not `auto` stays within its bounds, whatever the machine.
pub proof fn a_written_setting_is_bounded(setting: Seq<char>, cpus: nat, fallback: nat, most: nat)
    requires
        setting != "auto"@,
        most >= 1,
    ensures
        1 <= concurrency(setting, cpus, fallback, most) <= most,
{
}

/// No book is built twice or lost between merging and converting: each is in one of the two lists.
pub proof fn every_book_is_merged_or_converted<T>(books: Seq<(BookFolder, T)>)
    ensures
        to_merge(books).len() + to_convert(books).len() == books.len(),
        to_merge(books).to_multiset().add(to_convert(books).to_multiset())
            == books.to_multiset(),
    decreases books.len(),
{
    reveal(Seq::filter);
    broadcast use vstd::seq_lib::group_to_multiset_ensures;

    if books.len() > 0 {
        let before = books.drop_last();
        let book = books.last();
        every_book_is_merged_or_converted(before);
        assert(books =~= before.push(book));
        let m = to_merge(before).to_multiset();
        let c = to_convert(before).to_multiset();
        if book.0.case == BookCase::E {
            assert(to_merge(books) == to_merge(before).push(book));
            assert(m.insert(book).add(c) =~= m.add(c).insert(book));
        } else {
            assert(to_convert(books) == to_convert(before).push(book));
            assert(m.add(c.insert(book)) =~= m.add(c).insert(book));
        }
    } else {
        assert(to_merge(books) =~= Seq::empty());
        assert(to_convert(books) =~= Seq::empty());
        assert(books =~= Seq::empty());
        assert(books.to_multiset().add(books.to_multiset()) =~= books.to_multiset());
    }
}

/// A dry run never processes a book.
pub proof fn a_dry_run_processes_nothing(books: Seq<BookFolder>, options: BuildOptions, plan: BuildPlan)
    requires
        options.dry_run,
        plan_fits(books, options, plan),
    ensures
        !(plan is Process),
{
}

/// With `force`, or without `skip_existing`, every book that was found is chosen.
pub proof fn force_leaves_no_book_out(books: Seq<BookFolder>, options: BuildOptions)
    requires
        options.force || !options.skip_existing,
    ensures
        chosen(books, options.skips(), options.merge_m4b).len() == books.len(),
{
}

/// Under `merge_m4b` every book that is merged on request is built, with the case of a merge, also
/// where finished books are left out.
pub proof fn a_requested_merge_is_carried_out(
    books: Seq<BookFolder>,
    options: BuildOptions,
    book: BookFolder,
)
    requires
        options.merge_m4b,
        merged_on_request(book),
        books.contains(book),
    ensures
        chosen(books, options.skips(), options.merge_m4b).contains(
            (BookFolder { case: BookCase::E, ..book }),
        ),
{
    let rest = remaining(books, options.skips(), true);
    let k = choose|k: int| 0 <= k < books.len() && books[k] == book;
    if options.skips() {
        books.lemma_filter_contains(|b: BookFolder| wanted(b, true), k);
    }
    assert(rest.contains(book));
    let i = choose|i: int| 0 <= i < rest.len() && rest[i] == book;
    assert(chosen(books, options.skips(), true)[i] == forced(book));
}

/// Where finished books are left out, the books that are left are those that there is something to
/// do for, and no others.
pub proof fn exactly_the_wanted_books_remain(books: Seq<BookFolder>, merge_m4b: bool, book: BookFolder)
    ensures
        remaining(books, true, merge_m4b).contains(book) <==> books.contains(book) && wanted(
            book,
            merge_m4b,
        ),
    decreases books.len(),
{
    reveal(Seq::filter);
    let rest = remaining(books, true, merge_m4b);
    if books.len() > 0 {
        let before = books.drop_last();
        let kept = remaining(before, true, merge_m4b);
        exactly_the_wanted_books_remain(before, merge_m4b, book);
        if rest.contains(book) {
            let i = choose|i: int| 0 <= i < rest.len() && rest[i] == book;
            if i < kept.len() {
                assert(kept[i] == book);
                assert(before.contains(book));
                let k = choose|k: int| 0 <= k < before.len() && before[k] == book;
                assert(books[k] == book);
            } else {
                assert(books[books.len() - 1] == book);
            }
        }
        if books.contains(book) && wanted(book, merge_m4b) {
            let k = choose|k: int| 0 <= k < books.len() && books[k] == book;
            if k < before.len() {
                assert(before[k] == book);
                assert(kept.contains(book));
                let i = choose|i: int| 0 <= i < kept.len() && kept[i] == book;
                assert(rest[i] == book);
            } else {
                assert(rest[rest.len() - 1] == book);
            }
        }
    }
}

} // verus!
