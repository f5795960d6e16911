//! What the commands decide, told of every result that a decision can have.
use crate::audible::{
    fetched_count, lookup_options, lookup_step, one_more_lookup_is_counted, region_name, region_or,
    wants_audible, LookupAction, LookupEvent, LookupOptions, LookupOutcome, LookupState,
};
use crate::building::{
    a_written_setting_is_bounded, batch_settings_for, build_options, build_root, chapter_priority,
    named_root, output_dir, plan_build, resolve_encoder, separate_merges, worker_count,
    BatchSettings, BuildOptions, BuildRoot, EncoderChoice, OutputDir, PlannedBuild, RootFinding,
};
use crate::building_laws::{
    a_batch_follows_its_settings, a_plan_holds_the_books_to_build, books_are_merged_by_their_case,
    books_of,
};
use crate::chapter::ChapterSource;
use crate::chapter_file_laws::increasing;
use crate::commands::{BuildArgs, MatchArgs};
use crate::config::Config;
use crate::matching::{
    begin_match, match_options, match_step, no_results_action, no_results_options,
    one_more_file_is_counted_once, summarize, FileOutcome, MatchAction, MatchEvent, MatchOptions,
    MatchState, MatchSummary, NoResultsAction, ProcessResult, UserChoice,
};
use crate::metadata::{
    chapters_file_name, cover_file_name, cover_to_download, detected_asin, fetch_query,
    first_result, plan_enrich, EnrichPlan, EnrichRequest, EnrichRest, FetchQuery, MetadataError,
};
use crate::report::{
    check_report, config_file, failure_text, init_action, mode_text,
    one_more_built_book_is_counted, one_more_organized_book_is_counted, organize_line,
    selected_encoders, summarize_batch, summarize_organize, BatchSummary, CheckReport, ConfigFile,
    InitAction, OrganizeLine, OrganizeOutcome, OrganizeSummary, Tool,
};
use crate::scanner::{BookCase, BookFolder};
use crate::text::{lowercase, texts};
use std::path::PathBuf;
use vstd::prelude::*;

verus! {

// ---------------------------------------------------------------------------
// Build
// ---------------------------------------------------------------------------

/// What the command line says goes before what the configuration says.
pub proof fn the_command_line_overrides_the_configuration(
    args: &BuildArgs,
    config: &Config,
    options: BuildOptions,
    workers: usize,
    priority: String,
    region: String,
)
    requires
        call_ensures(build_options, (args, config), options),
        call_ensures(worker_count, (args, config), workers),
        call_ensures(chapter_priority, (args, config), priority),
        call_ensures(region_name, (args, config), region),
    ensures
        args.skip_existing is Some ==> options.skip_existing == args.skip_existing->0,
        args.skip_existing is None ==> options.skip_existing == config.processing.skip_existing,
        options.force == args.force,
        options.merge_m4b == args.merge_m4b,
        options.dry_run == args.dry_run,
        args.parallel is Some ==> workers == args.parallel->0,
        args.parallel is None ==> workers == config.processing.parallel_workers,
        args.chapter_source is Some ==> priority == args.chapter_source->0,
        args.chapter_source is None ==> priority == config.quality.chapter_source,
        args.audible_region is Some ==> region == args.audible_region->0,
        args.audible_region is None ==> region == config.metadata.audible.region,
{
}

/// A directory that is named is where a command works: the one on the command line, or else the one
/// in the configuration.
pub proof fn a_named_root_is_used(
    path: PathBuf,
    configured: &Option<PathBuf>,
    given: Option<PathBuf>,
    fallback: Option<PathBuf>,
)
    requires
        call_ensures(named_root, (Some(path), configured), given),
        call_ensures(named_root, (None, configured), fallback),
    ensures
        given == Some(path),
        fallback == *configured,
{
}

/// A build starts at the directory that is named, as an audiobook if and only if it is one, or else
/// at the current directory if that is an audiobook, or else nowhere.
pub proof fn a_build_starts_at_its_root(finding: RootFinding, r: Option<BuildRoot>)
    requires
        call_ensures(build_root, (finding,), r),
    ensures
        finding is Named ==> r is Some && r->0.path == finding->path && r->0.auto_detected
            == finding->is_audiobook,
        finding is Current && finding->Current_0 is Some ==> r is Some && r->0.path
            == finding->Current_0->0 && r->0.auto_detected,
        finding is Current && finding->Current_0 is None ==> r is None,
{
}

/// Books go to the directory on the command line, or else, for a single audiobook, to its folder, or
/// else to what the configuration says, where `same_as_source` stands for the root.
pub proof fn books_go_to_their_directory(
    root: BuildRoot,
    out: Option<PathBuf>,
    configured: &str,
    r: OutputDir,
)
    requires
        call_ensures(output_dir, (root, out, configured), r),
    ensures
        out is Some ==> r == OutputDir::At(out->0),
        out is None && root.auto_detected ==> r == OutputDir::At(root.path),
        out is None && configured@ == "same_as_source"@ ==> r == OutputDir::At(root.path),
        out is None && !root.auto_detected && configured@ != "same_as_source"@ ==> r
            is Configured && r->Configured_0@ == configured@,
{
}

/// A plan for books is made of the found books that there is something to do for, in their order. Of
/// the found books all are counted, and of those that are left all are where finished ones are left
/// out. A book without an M4B file, of whatever case, is always left, and so is every book of case E.
pub proof fn planned_books_are_those_to_build(
    books: Vec<BookFolder>,
    options: &BuildOptions,
    r: PlannedBuild,
) -> (at: Seq<int>)
    requires
        call_ensures(plan_build, (books, options), r),
    ensures
        increasing(at),
        forall|i: int|
            0 <= i < books@.len() && books@[i].m4b_files@.len() == 0 ==> #[trigger] at.contains(i),
        forall|i: int|
            0 <= i < books@.len() && books@[i].case == BookCase::E ==> #[trigger] at.contains(i),
        forall|i: int|
            0 <= i < books@.len() && (options.force || !options.skip_existing)
                ==> #[trigger] at.contains(i),
        forall|i: int|
            0 <= i < books@.len() && options.merge_m4b && books@[i].case == BookCase::C
                && books@[i].m4b_files@.len() > 1 ==> #[trigger] at.contains(i),
        forall|i: int|
            0 <= i < books@.len() && options.skip_existing && !options.force
                && books@[i].m4b_files@.len() == 1 && books@[i].case != BookCase::E
                ==> !#[trigger] at.contains(i),
        books_of(r.plan).len() == at.len(),
        forall|k: int|
            0 <= k < at.len() ==> 0 <= #[trigger] at[k] < books@.len() && books_of(r.plan)[k].path
                == books@[at[k]].path && books_of(r.plan)[k].m4b_files == books@[at[k]].m4b_files
                && books_of(r.plan)[k].mp3_files == books@[at[k]].mp3_files,
        r.found == books@.len(),
        books@.len() > 0 && options.skip_existing && !options.force ==> r.left is Some && r.left->0
            == at.len(),
        books@.len() == 0 || !options.skip_existing || options.force ==> r.left is None,
        r.plan is NothingFound <==> books@.len() == 0,
        r.plan is AllProcessed <==> books@.len() > 0 && at.len() == 0,
        r.plan is DryRun <==> at.len() > 0 && options.dry_run,
{
    let at = a_plan_holds_the_books_to_build(books@, *options, r.plan);
    assert(books_of(r.plan).len() == at.len());
    at
}

/// Books of case E are merged and all others converted, each in their order and with what belongs to
/// it.
pub proof fn books_are_separated_by_their_case<T>(
    books: Vec<(BookFolder, T)>,
    r: (Vec<(BookFolder, T)>, Vec<(BookFolder, T)>),
) -> (at: (Seq<int>, Seq<int>))
    requires
        call_ensures(separate_merges::<T>, (books,), r),
    ensures
        increasing(at.0),
        increasing(at.1),
        r.0@.len() == at.0.len(),
        r.1@.len() == at.1.len(),
        forall|k: int|
            0 <= k < at.0.len() ==> 0 <= #[trigger] at.0[k] < books@.len() && r.0@[k]
                == books@[at.0[k]],
        forall|k: int|
            0 <= k < at.1.len() ==> 0 <= #[trigger] at.1[k] < books@.len() && r.1@[k]
                == books@[at.1[k]],
        forall|i: int|
            0 <= i < books@.len() ==> (#[trigger] at.0.contains(i) <==> books@[i].0.case
                == BookCase::E),
        forall|i: int|
            0 <= i < books@.len() ==> (#[trigger] at.1.contains(i) <==> books@[i].0.case
                != BookCase::E),
{
    books_are_merged_by_their_case(books@)
}

/// An encoder on the command line goes first, then the superseded setting, then the configured name
/// unless it is `auto`; otherwise the encoder is detected.
pub proof fn the_encoder_is_the_first_that_is_given<E>(
    config: &Config,
    cli: Option<E>,
    configured: Option<E>,
    r: EncoderChoice<E>,
)
    requires
        call_ensures(resolve_encoder::<E>, (config, cli, configured), r),
    ensures
        cli is Some ==> r == EncoderChoice::Named(cli->0),
        cli is None && config.advanced.use_apple_silicon_encoder == Some(true) ==> r
            == EncoderChoice::<E>::AppleSilicon,
        cli is None && config.advanced.use_apple_silicon_encoder == Some(false) ==> r
            == EncoderChoice::<E>::Native,
        cli is None && config.advanced.use_apple_silicon_encoder is None ==> {
            &&& configured is Some && lowercase(config.advanced.aac_encoder@) != "auto"@ ==> r
                == EncoderChoice::Named(configured->0)
            &&& configured is None || lowercase(config.advanced.aac_encoder@) == "auto"@ ==> r
                == EncoderChoice::<E>::Detect
        },
{
}

/// The settings of a batch are those that the command line and the configuration ask for.
pub proof fn a_batch_is_set_as_asked(
    args: &BuildArgs,
    config: &Config,
    cpus: usize,
    r: BatchSettings,
)
    requires
        call_ensures(batch_settings_for, (args, config, cpus), r),
    ensures
        args.parallel is Some ==> r.workers == args.parallel->0,
        args.parallel is None ==> r.workers == config.processing.parallel_workers,
        r.keep_temp <==> args.keep_temp || config.processing.keep_temp_files,
        config.performance.max_concurrent_encodes@ == "auto"@ ==> r.max_concurrent == cpus,
        config.performance.max_concurrent_files_per_book@ == "auto"@ ==> r.max_concurrent_files
            == cpus,
        config.performance.max_concurrent_encodes@ != "auto"@ ==> 1 <= r.max_concurrent <= 16,
        config.performance.max_concurrent_files_per_book@ != "auto"@ ==> 1 <= r.max_concurrent_files
            <= 32,
{
    a_batch_follows_its_settings(*args, *config, cpus as nat, r, 0);
    if config.performance.max_concurrent_encodes@ != "auto"@ {
        a_written_setting_is_bounded(
            config.performance.max_concurrent_encodes@,
            cpus as nat,
            cpus as nat,
            16,
        );
    }
    if config.performance.max_concurrent_files_per_book@ != "auto"@ {
        a_written_setting_is_bounded(
            config.performance.max_concurrent_files_per_book@,
            cpus as nat,
            8,
            32,
        );
    }
}

// ---------------------------------------------------------------------------
// Audible metadata during a build
// ---------------------------------------------------------------------------

/// Metadata is fetched, and books are searched for by name, if the command line or the configuration
/// asks for it; chapters are fetched if the configuration asks for them.
pub proof fn metadata_is_fetched_where_asked_for(
    args: &BuildArgs,
    config: &Config,
    wanted: bool,
    options: LookupOptions,
)
    requires
        call_ensures(wants_audible, (args, config), wanted),
        call_ensures(lookup_options, (args, config), options),
    ensures
        wanted <==> args.fetch_audible || config.metadata.audible.enabled,
        options.auto_match <==> args.audible_auto_match || config.metadata.audible.auto_match,
        options.fetch_chapters <==> config.metadata.audible.fetch_chapters,
{
}

/// The region is the one that the name stands for, or else the usual one.
pub proof fn a_known_region_is_used<R>(region: R, usual: R, given: R, fallback: R)
    requires
        call_ensures(region_or::<R>, (Some(region), usual), given),
        call_ensures(region_or::<R>, (None, usual), fallback),
    ensures
        given == region,
        fallback == usual,
{
}

/// A lookup uses the ASIN in the name of the book, or else the first that a search finds; what is in
/// the cache is not fetched, and what is fetched is put there.
pub proof fn a_lookup_goes_step_by_step(
    options: &LookupOptions,
    state: LookupState,
    event: LookupEvent,
    r: (LookupState, LookupAction),
)
    requires
        call_ensures(lookup_step, (options, state, event), r),
    ensures
        state is Detecting && event is Detected && event->Detected_0 is Some ==> r.1
            == (LookupAction::ReadCache { asin: event->Detected_0->0 }),
        state is Detecting && event is Detected && event->Detected_0 is None && options.auto_match
            ==> r.1 is Search,
        state is Detecting && event is Detected && event->Detected_0 is None && !options.auto_match
            ==> r.0 == LookupState::Finished(LookupOutcome::NotAttempted),
        state is Searching && event is Found && event->Found_0@.len() > 0 ==> r.1
            == (LookupAction::ReadCache { asin: event->Found_0@[0] }),
        state is Searching && event is Found && event->Found_0@.len() == 0 ==> r.0
            == LookupState::Finished(LookupOutcome::NoMatch),
        state is Searching && event is SearchFailed ==> r.0 == LookupState::Finished(
            LookupOutcome::SearchFailed,
        ),
        state is ReadingCache && event is CacheHit ==> r.0 == LookupState::Finished(
            LookupOutcome::Cached {
                asin: state->ReadingCache_asin,
                matched: state->ReadingCache_matched,
            },
        ),
        state is ReadingCache && event is CacheMiss ==> r.1 == (LookupAction::Fetch {
            asin: state->ReadingCache_asin,
        }),
        state is Fetching && event is Fetched ==> r.1 == (LookupAction::Store {
            asin: state->Fetching_asin,
        }),
        state is Fetching && event is FetchFailed ==> r.0 == LookupState::Finished(
            LookupOutcome::FetchFailed {
                asin: state->Fetching_asin,
                matched: state->Fetching_matched,
            },
        ),
        state is Storing && options.fetch_chapters ==> r.1 == (LookupAction::FetchChapters {
            asin: state->Storing_asin,
        }),
        state is Storing && !options.fetch_chapters ==> r.0 == LookupState::Finished(
            LookupOutcome::Fetched {
                asin: state->Storing_asin,
                matched: state->Storing_matched,
            },
        ),
        state is FetchingChapters ==> r.0 == LookupState::Finished(
            LookupOutcome::Fetched {
                asin: state->FetchingChapters_asin,
                matched: state->FetchingChapters_matched,
            },
        ),
{
}

// ---------------------------------------------------------------------------
// Match
// ---------------------------------------------------------------------------

/// The options of a match are those of the command line.
pub proof fn a_match_follows_the_command_line(
    args: &MatchArgs,
    options: MatchOptions,
    start: (MatchState, MatchAction),
)
    requires
        call_ensures(match_options, (args,), options),
        call_ensures(begin_match, (&options,), start),
    ensures
        options.auto == args.auto,
        options.dry_run == args.dry_run,
        args.title is None && args.author is None ==> start.1 is Extract,
        args.title is Some || args.author is Some ==> start.1 is Search && start.1->Search_0.title
            == args.title && start.1->Search_0.author == args.author,
{
}

/// The candidate that the user picks is used, in automatic mode the first one, and what the user
/// enters is used as it is; unless it is a dry run, what is used is applied.
pub proof fn a_match_uses_what_is_chosen(
    options: &MatchOptions,
    state: MatchState,
    event: MatchEvent,
    index: usize,
    r: (MatchState, MatchAction),
)
    requires
        call_ensures(match_step, (options, state, event), r),
    ensures
        event == MatchEvent::Selected(UserChoice::SelectMatch(index)) ==> r.1
            == (MatchAction::UseCandidate { index, apply: !options.dry_run }),
        event is Results && event->Results_0 > 0 && options.auto ==> r.1
            == (MatchAction::UseCandidate { index: 0, apply: !options.dry_run }),
        event is Results && event->Results_0 > 0 && !options.auto ==> r.0
            == (MatchState::Selecting { candidates: event->Results_0 }) && r.1 is AskSelection,
        event is Results && event->Results_0 == 0 && options.auto ==> r.0 == MatchState::Finished(
            Ok(ProcessResult::Skipped),
        ),
        event is Results && event->Results_0 == 0 && !options.auto ==> r.1 is AskWithoutMatch,
        event == MatchEvent::MetadataEntered ==> r.1 == (MatchAction::UseEntered {
            apply: !options.dry_run,
        }),
        event == MatchEvent::Selected(UserChoice::Skip) || event == MatchEvent::WithoutMatch(
            NoResultsAction::Skip,
        ) ==> r.0 == MatchState::Finished(Ok(ProcessResult::Skipped)),
        event == MatchEvent::Selected(UserChoice::ManualEntry) || event == MatchEvent::WithoutMatch(
            NoResultsAction::ManualEntry,
        ) ==> r.1 is AskMetadata,
        event == MatchEvent::Selected(UserChoice::CustomSearch) || event
            == MatchEvent::WithoutMatch(NoResultsAction::CustomSearch) ==> r.1 is AskTerms,
        event == MatchEvent::Applied ==> r.0 == MatchState::Finished(Ok(ProcessResult::Applied)),
{
}

/// Three things can be done without a match, and each is done on its option.
pub proof fn options_are_offered_and_understood(
    offered: Vec<String>,
    skip: NoResultsAction,
    search: NoResultsAction,
    manual: NoResultsAction,
)
    requires
        call_ensures(no_results_options, (), offered),
        call_ensures(no_results_action, ("[S]kip this file",), skip),
        call_ensures(no_results_action, ("Search with [D]ifferent terms",), search),
        call_ensures(no_results_action, ("Enter metadata [M]anually",), manual),
    ensures
        texts(offered@) == seq![
            "[S]kip this file"@,
            "Search with [D]ifferent terms"@,
            "Enter metadata [M]anually"@,
        ],
        skip == NoResultsAction::Skip,
        search == NoResultsAction::CustomSearch,
        manual == NoResultsAction::ManualEntry,
{
    reveal_strlit("[S]kip this file");
    reveal_strlit("Search with [D]ifferent terms");
    reveal_strlit("Enter metadata [M]anually");
    assert("[S]kip this file"@.len() == 16);
    assert("Search with [D]ifferent terms"@.len() == 29);
    assert("Enter metadata [M]anually"@.len() == 25);
}

/// Every file is counted, and one more file adds one to the count of what became of it and to no
/// other.
pub proof fn files_are_counted_by_what_became_of_them(
    outcomes: &[FileOutcome],
    last: FileOutcome,
    more: &[FileOutcome],
    r: MatchSummary,
    s: MatchSummary,
)
    requires
        call_ensures(summarize, (outcomes,), r),
        call_ensures(summarize, (more,), s),
        more@ == outcomes@.push(last),
    ensures
        r.processed + r.skipped + r.failed == outcomes@.len(),
        last == FileOutcome::Applied ==> s.processed == r.processed + 1,
        last != FileOutcome::Applied ==> s.processed == r.processed,
        last == FileOutcome::Skipped ==> s.skipped == r.skipped + 1,
        last != FileOutcome::Skipped ==> s.skipped == r.skipped,
        last == FileOutcome::Failed ==> s.failed == r.failed + 1,
        last != FileOutcome::Failed ==> s.failed == r.failed,
{
    one_more_file_is_counted_once(outcomes@, last, FileOutcome::Applied);
    one_more_file_is_counted_once(outcomes@, last, FileOutcome::Skipped);
    one_more_file_is_counted_once(outcomes@, last, FileOutcome::Failed);
}

// ---------------------------------------------------------------------------
// Metadata
// ---------------------------------------------------------------------------

/// An ASIN goes before a search; a search is for what is given of title and author; and with none of
/// the three there is nothing to fetch.
pub proof fn a_fetch_is_for_what_is_given(
    asin: Option<String>,
    title: Option<String>,
    author: Option<String>,
    r: Result<FetchQuery, MetadataError>,
)
    requires
        call_ensures(fetch_query, (asin, title, author), r),
    ensures
        asin is Some ==> r == Ok::<FetchQuery, MetadataError>(FetchQuery::Asin(asin->0)),
        asin is None && (title is Some || author is Some) ==> r == Ok::<FetchQuery, MetadataError>(
            FetchQuery::Search { title, author },
        ),
        asin is None && title is None && author is None ==> r == Err::<FetchQuery, MetadataError>(
            MetadataError::NoQuery,
        ),
{
}

/// Of what a search found the first is fetched, and nothing is where it found nothing.
pub proof fn the_first_result_is_fetched(asins: &[String], r: Result<String, MetadataError>)
    requires
        call_ensures(first_result, (asins,), r),
    ensures
        asins@.len() > 0 ==> r == Ok::<String, MetadataError>(asins@[0]),
        asins@.len() == 0 ==> r == Err::<String, MetadataError>(MetadataError::NoResults),
{
}

/// Unless only chapters are to be updated, an enrichment goes on with the metadata of exactly the
/// ASIN that is given, or, without one, with detection where that is asked for, whether chapters are
/// given too or not.
pub proof fn an_enrichment_uses_its_asin(
    request: EnrichRequest,
    r: Result<EnrichPlan, MetadataError>,
)
    requires
        call_ensures(plan_enrich, (request,), r),
        r is Ok,
    ensures
        !request.update_chapters_only && request.asin is Some ==> r->Ok_0.rest
            == EnrichRest::UseAsin(request.asin->0),
        !request.update_chapters_only && request.asin is None && request.auto_detect
            ==> r->Ok_0.rest is DetectAsin,
        request.update_chapters_only ==> !(r->Ok_0.rest is UseAsin) && !(r->Ok_0.rest is DetectAsin),
        request.chapters is Some ==> r->Ok_0.source is Some && !(r->Ok_0.source->0 is Audnex),
        request.chapters is None && request.chapters_asin is Some ==> r->Ok_0.source == Some(
            ChapterSource::Audnex { asin: request.chapters_asin->0 },
        ),
        request.chapters is None && request.chapters_asin is None ==> r->Ok_0.source is None,
        r->Ok_0.rest is Fail <==> request.chapters is None && request.chapters_asin is None && (
        request.update_chapters_only || request.asin is None && !request.auto_detect),
{
}

/// A detected ASIN is used as it is, and a cover is downloaded only where that is wanted.
pub proof fn what_is_detected_or_wanted_is_used(
    asin: String,
    url: &Option<String>,
    download_covers: bool,
    keep_cover: bool,
    found: Result<String, MetadataError>,
    missing: Result<String, MetadataError>,
    cover: Option<String>,
)
    requires
        call_ensures(detected_asin, (Some(asin),), found),
        call_ensures(detected_asin, (None,), missing),
        call_ensures(cover_to_download, (download_covers, keep_cover, url), cover),
    ensures
        found == Ok::<String, MetadataError>(asin),
        missing == Err::<String, MetadataError>(MetadataError::AsinNotDetected),
        download_covers && !keep_cover ==> cover == *url,
        !download_covers || keep_cover ==> cover is None,
{
}

/// Temporary files are told apart by what they are for: different stems, and different ASINs, give
/// different names.
pub proof fn temporary_names_differ(
    a: &str,
    b: &str,
    chapters_a: String,
    chapters_b: String,
    cover_a: String,
    cover_b: String,
)
    requires
        call_ensures(chapters_file_name, (a,), chapters_a),
        call_ensures(chapters_file_name, (b,), chapters_b),
        call_ensures(cover_file_name, (a,), cover_a),
        call_ensures(cover_file_name, (b,), cover_b),
        a@ != b@,
    ensures
        chapters_a@ == "chapters_"@ + a@ + ".txt"@,
        cover_a@ == a@ + ".jpg"@,
        chapters_a@ != chapters_b@,
        cover_a@ != cover_b@,
{
    reveal_strlit("chapters_");
    reveal_strlit(".txt");
    reveal_strlit(".jpg");
    assert("chapters_"@.len() == 9 && ".txt"@.len() == 4 && ".jpg"@.len() == 4);
    if chapters_a@ == chapters_b@ {
        assert(chapters_a@.subrange(9, chapters_a@.len() - 4) =~= a@);
        assert(chapters_b@.subrange(9, chapters_b@.len() - 4) =~= b@);
    }
    if cover_a@ == cover_b@ {
        assert(cover_a@.take(cover_a@.len() - 4) =~= a@);
        assert(cover_b@.take(cover_b@.len() - 4) =~= b@);
    }
}

// ---------------------------------------------------------------------------
// Reports
// ---------------------------------------------------------------------------

/// A failure is told with its reason, if one is known, and a book with how it was built.
pub proof fn reasons_and_modes_are_told(
    message: Option<String>,
    reason: String,
    copied: String,
    transcoded: String,
)
    requires
        call_ensures(failure_text, (&message,), reason),
        call_ensures(mode_text, (true,), copied),
        call_ensures(mode_text, (false,), transcoded),
    ensures
        message is Some ==> reason@ == message->0@,
        message is None ==> reason@ == "Unknown error"@,
        copied@ == "copy mode"@,
        transcoded@ == "transcode"@,
{
}

/// Every book of a batch counts as built or as failed, and one more book as what it is.
pub proof fn batches_are_counted(
    flags: &[bool],
    built: bool,
    more: &[bool],
    r: BatchSummary,
    s: BatchSummary,
)
    requires
        call_ensures(summarize_batch, (flags,), r),
        call_ensures(summarize_batch, (more,), s),
        more@ == flags@.push(built),
    ensures
        r.successful + r.failed == flags@.len(),
        built ==> s.successful == r.successful + 1 && s.failed == r.failed,
        !built ==> s.successful == r.successful && s.failed == r.failed + 1,
{
    one_more_built_book_is_counted(flags@, built);
}

/// One more book that was organized counts as moved, as skipped and as failed as its outcome says.
pub proof fn organized_books_are_counted(
    outcomes: &[OrganizeOutcome],
    last: OrganizeOutcome,
    more: &[OrganizeOutcome],
    r: OrganizeSummary,
    s: OrganizeSummary,
)
    requires
        call_ensures(summarize_organize, (outcomes,), r),
        call_ensures(summarize_organize, (more,), s),
        more@ == outcomes@.push(last),
    ensures
        last.success && last.has_destination ==> s.moved == r.moved + 1,
        !last.success || !last.has_destination ==> s.moved == r.moved,
        !last.has_destination ==> s.skipped == r.skipped + 1,
        last.has_destination ==> s.skipped == r.skipped,
        !last.success ==> s.failed == r.failed + 1,
        last.success ==> s.failed == r.failed,
{
    one_more_organized_book_is_counted(outcomes@, last.success, last.has_destination);
}

/// One more lookup counts if and only if it found metadata, in the cache or by a fetch.
pub proof fn lookups_are_counted(
    outcomes: &[LookupOutcome],
    last: LookupOutcome,
    more: &[LookupOutcome],
    r: usize,
    s: usize,
)
    requires
        call_ensures(fetched_count, (outcomes,), r),
        call_ensures(fetched_count, (more,), s),
        more@ == outcomes@.push(last),
    ensures
        last is Cached || last is Fetched ==> s == r + 1,
        !(last is Cached) && !(last is Fetched) ==> s == r,
{
    one_more_lookup_is_counted(outcomes@, last);
}

/// A book that could not be organized is told as failed, and of the others those with a place to go
/// to as moved.
pub proof fn organized_books_are_told_by_their_fate(outcome: OrganizeOutcome, r: OrganizeLine)
    requires
        call_ensures(organize_line, (outcome,), r),
    ensures
        r is Failed <==> !outcome.success,
        r is Moved <==> outcome.success && outcome.has_destination,
        r is Stayed <==> outcome.success && !outcome.has_destination,
{
}

/// A configuration file is never overwritten without force, and the one that is given is read.
pub proof fn configuration_files_are_safe_and_chosen(
    exists: bool,
    force: bool,
    path: PathBuf,
    action: InitAction,
    given: ConfigFile,
    usual: ConfigFile,
)
    requires
        call_ensures(init_action, (exists, force), action),
        call_ensures(config_file, (Some(path),), given),
        call_ensures(config_file, (None,), usual),
    ensures
        action is Refuse <==> exists && !force,
        given == ConfigFile::Given(path),
        usual == ConfigFile::Usual,
{
}

/// Each of the three tools has its line, and all are found if and only if each is.
pub proof fn tools_are_reported_one_by_one(
    ffmpeg: bool,
    atomic_parsley: bool,
    mp4box: bool,
    r: CheckReport,
)
    requires
        call_ensures(check_report, (ffmpeg, atomic_parsley, mp4box), r),
    ensures
        r.lines@.len() == 3,
        r.lines@[0].tool == Tool::FFmpeg && r.lines@[0].found == ffmpeg
            && r.lines@[0].lists_encoders == ffmpeg,
        r.lines@[1].tool == Tool::AtomicParsley && r.lines@[1].found == atomic_parsley
            && !r.lines@[1].lists_encoders,
        r.lines@[2].tool == Tool::Mp4Box && r.lines@[2].found == mp4box
            && !r.lines@[2].lists_encoders,
        r.all_found <==> ffmpeg && atomic_parsley && mp4box,
{
}

/// An available encoder is marked if and only if it is the selected one.
pub proof fn the_selected_encoder_is_marked(
    available: &[String],
    selected: &str,
    r: Vec<bool>,
    i: int,
)
    requires
        call_ensures(selected_encoders, (available, selected), r),
    ensures
        r@.len() == available@.len(),
        0 <= i < available@.len() ==> (r@[i] <==> available@[i]@ == selected@),
{
}

} // verus!
