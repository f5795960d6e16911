use audiobook_forge::audible::{
    begin_lookup, fetched_count, lookup_options, lookup_step, region_name, region_or,
    wants_audible,
    LookupAction, LookupEvent, LookupOptions, LookupOutcome, LookupState,
};
use audiobook_forge::building::{
    batch_settings, batch_settings_for, build_options, build_root, chapter_priority,
    configured_encoder, named_root, output_dir, plan_build, resolve_encoder, separate_merges,
    worker_count, BuildOptions, BuildPlan, BuildRoot, EncoderChoice, OutputDir, RootFinding,
    NO_BUILD_ROOT, NO_ORGANIZE_ROOT,
};
use audiobook_forge::commands::BuildArgs;
use audiobook_forge::config::{
    AdvancedConfig, AudibleConfig, Config, DirectoryConfig, MetadataConfig, PerformanceConfig,
    ProcessingConfig, QualityConfig,
};
use audiobook_forge::report::{
    check_report, config_file, failure_text, init_action, mode_text, organize_line,
    selected_encoders, summarize_batch, summarize_organize, ConfigFile, InitAction, OrganizeLine,
    OrganizeOutcome, Tool,
};
use audiobook_forge::scanner::{BookCase, BookFolder};
use std::path::PathBuf;

fn args() -> BuildArgs {
    BuildArgs {
        root: None,
        out: None,
        parallel: None,
        skip_existing: None,
        force: false,
        merge_m4b: false,
        normalize: false,
        dry_run: false,
        prefer_stereo: None,
        chapter_source: None,
        cover_names: None,
        language: None,
        keep_temp: false,
        delete_originals: false,
        quality: None,
        aac_encoder: None,
        use_apple_silicon_encoder: None,
        fetch_audible: false,
        audible_region: None,
        audible_auto_match: false,
        config: None,
    }
}

fn config() -> Config {
    Config {
        directories: DirectoryConfig { source: None, output: "same_as_source".to_string() },
        processing: ProcessingConfig {
            parallel_workers: 2,
            skip_existing: true,
            keep_temp_files: false,
        },
        performance: PerformanceConfig {
            max_concurrent_encodes: "auto".to_string(),
            max_concurrent_files_per_book: "auto".to_string(),
        },
        quality: QualityConfig { chapter_source: "auto".to_string() },
        metadata: MetadataConfig {
            cover_filenames: Vec::new(),
            auto_extract_cover: true,
            audible: AudibleConfig {
                enabled: false,
                region: "us".to_string(),
                auto_match: false,
                download_covers: true,
                fetch_chapters: false,
            },
        },
        advanced: AdvancedConfig {
            aac_encoder: "auto".to_string(),
            use_apple_silicon_encoder: None,
        },
    }
}

fn book(name: &str, case: BookCase, m4b: usize) -> BookFolder {
    BookFolder {
        path: PathBuf::from(name),
        name: name.to_string(),
        case,
        mp3_files: Vec::new(),
        m4b_files: (0..m4b).map(|i| PathBuf::from(format!("{i}.m4b"))).collect(),
        cue_file: None,
        cover_file: None,
    }
}

fn library() -> Vec<BookFolder> {
    vec![
        book("a", BookCase::A, 0),
        book("b", BookCase::C, 1),
        book("c", BookCase::C, 2),
        book("d", BookCase::E, 3),
    ]
}

fn names(books: &[BookFolder]) -> Vec<&str> {
    books.iter().map(|b| b.name.as_str()).collect()
}

fn options(skip_existing: bool, force: bool, merge_m4b: bool, dry_run: bool) -> BuildOptions {
    BuildOptions { skip_existing, force, merge_m4b, dry_run }
}

#[test]
fn a_root_on_the_command_line_goes_first() {
    let a = Some(PathBuf::from("a"));
    let b = Some(PathBuf::from("b"));
    assert_eq!(named_root(a.clone(), &b), a);
    assert_eq!(named_root(None, &b), b);
    assert_eq!(named_root(None, &None), None);
    assert!(NO_BUILD_ROOT.starts_with("No root directory specified. Use --root, configure"));
    assert!(NO_ORGANIZE_ROOT.ends_with("Use --root or configure directories.source"));
}

#[test]
fn a_build_starts_at_a_named_or_detected_folder() {
    let named = build_root(RootFinding::Named { path: PathBuf::from("r"), is_audiobook: false });
    assert!(matches!(named, Some(r) if r.path == PathBuf::from("r") && !r.auto_detected));
    let single = build_root(RootFinding::Named { path: PathBuf::from("r"), is_audiobook: true });
    assert!(matches!(single, Some(r) if r.auto_detected));
    let current = build_root(RootFinding::Current(Some(PathBuf::from("c"))));
    assert!(matches!(current, Some(r) if r.path == PathBuf::from("c") && r.auto_detected));
    assert!(build_root(RootFinding::Current(None)).is_none());
}

#[test]
fn finished_books_are_left_out() {
    let planned = plan_build(library(), &options(true, false, false, false));
    assert_eq!((planned.found, planned.left), (4, Some(2)));
    match planned.plan {
        BuildPlan::Process(books) => assert_eq!(names(&books), vec!["a", "d"]),
        _ => panic!("not processed"),
    }
}

#[test]
fn force_builds_every_book() {
    let planned = plan_build(library(), &options(true, true, false, false));
    assert_eq!((planned.found, planned.left), (4, None));
    match planned.plan {
        BuildPlan::Process(books) => assert_eq!(names(&books), vec!["a", "b", "c", "d"]),
        _ => panic!("not processed"),
    }
}

#[test]
fn a_merge_on_request_takes_books_with_several_files() {
    let planned = plan_build(library(), &options(false, false, true, false));
    match planned.plan {
        BuildPlan::Process(books) => {
            let cases: Vec<BookCase> = books.iter().map(|b| b.case).collect();
            assert_eq!(cases, vec![BookCase::A, BookCase::C, BookCase::E, BookCase::E]);
            assert_eq!(books[2].m4b_files.len(), 2);
        }
        _ => panic!("not processed"),
    }
}

#[test]
fn a_finished_book_is_merged_on_request() {
    let books = vec![book("c", BookCase::C, 2)];
    let planned = plan_build(books, &options(true, false, true, false));
    assert_eq!((planned.found, planned.left), (1, Some(1)));
    match planned.plan {
        BuildPlan::Process(books) => {
            assert_eq!(names(&books), vec!["c"]);
            assert_eq!(books[0].case, BookCase::E);
            assert_eq!(books[0].m4b_files.len(), 2);
        }
        _ => panic!("not processed"),
    }
}

#[test]
fn a_request_to_merge_keeps_no_other_finished_book() {
    let planned = plan_build(library(), &options(true, false, true, false));
    assert_eq!((planned.found, planned.left), (4, Some(3)));
    match planned.plan {
        BuildPlan::Process(books) => {
            assert_eq!(names(&books), vec!["a", "c", "d"]);
            let cases: Vec<BookCase> = books.iter().map(|b| b.case).collect();
            assert_eq!(cases, vec![BookCase::A, BookCase::E, BookCase::E]);
        }
        _ => panic!("not processed"),
    }
}

#[test]
fn a_finished_book_is_left_alone_without_a_request() {
    for files in [1, 2] {
        let books = vec![book("c", BookCase::C, files)];
        let planned = plan_build(books, &options(true, false, false, false));
        assert!(matches!(planned.plan, BuildPlan::AllProcessed));
        assert_eq!((planned.found, planned.left), (1, Some(0)));
    }
}

#[test]
fn a_dry_run_lists_and_does_not_process() {
    let planned = plan_build(library(), &options(true, false, false, true));
    match planned.plan {
        BuildPlan::DryRun(books) => assert_eq!(names(&books), vec!["a", "d"]),
        _ => panic!("not listed"),
    }
}

#[test]
fn nothing_found_is_told_apart_from_nothing_left() {
    let none = plan_build(Vec::new(), &options(true, false, false, true));
    assert!(matches!(none.plan, BuildPlan::NothingFound));
    assert_eq!((none.found, none.left), (0, None));
}

#[test]
fn the_command_line_overrides_the_configuration() {
    let mut a = args();
    let mut c = config();
    assert!(build_options(&a, &c).skip_existing);
    a.skip_existing = Some(false);
    a.force = true;
    a.merge_m4b = true;
    a.dry_run = true;
    let o = build_options(&a, &c);
    assert!(!o.skip_existing && o.force && o.merge_m4b && o.dry_run);
    assert_eq!(chapter_priority(&a, &c), "auto");
    c.quality.chapter_source = "cue".to_string();
    assert_eq!(chapter_priority(&a, &c), "cue");
    a.chapter_source = Some("files".to_string());
    assert_eq!(chapter_priority(&a, &c), "files");
}

#[test]
fn merges_are_separated_and_nothing_is_lost() {
    let books: Vec<(BookFolder, usize)> =
        library().into_iter().enumerate().map(|(i, b)| (b, i)).collect();
    let (merges, converts) = separate_merges(books);
    let merged: Vec<usize> = merges.iter().map(|b| b.1).collect();
    let converted: Vec<usize> = converts.iter().map(|b| b.1).collect();
    assert_eq!((merged, converted), (vec![3], vec![0, 1, 2]));
}

#[test]
fn the_output_goes_where_it_is_said() {
    let root = |auto_detected: bool| BuildRoot { path: PathBuf::from("root"), auto_detected };
    let is_at = |o: OutputDir, p: &str| matches!(o, OutputDir::At(q) if q == PathBuf::from(p));
    let out = Some(PathBuf::from("out"));
    assert!(is_at(output_dir(root(true), out.clone(), "other"), "out"));
    assert!(is_at(output_dir(root(false), out, "other"), "out"));
    assert!(is_at(output_dir(root(true), None, "other"), "root"));
    assert!(is_at(output_dir(root(false), None, "same_as_source"), "root"));
    let configured = output_dir(root(false), None, "other");
    assert!(matches!(configured, OutputDir::Configured(name) if name == "other"));
}

#[test]
fn encoders_are_resolved_in_order() {
    let mut c = config();
    c.advanced.aac_encoder = "LibFDK_AAC".to_string();
    assert_eq!(configured_encoder(&c), "libfdk_aac");
    assert!(matches!(resolve_encoder(&c, Some(1), Some(2)), EncoderChoice::Named(1)));
    assert!(matches!(resolve_encoder(&c, None, Some(2)), EncoderChoice::Named(2)));
    assert!(matches!(resolve_encoder::<u8>(&c, None, None), EncoderChoice::Detect));
    c.advanced.use_apple_silicon_encoder = Some(true);
    assert!(matches!(resolve_encoder(&c, Some(1), Some(2)), EncoderChoice::Named(1)));
    assert!(matches!(resolve_encoder(&c, None, Some(2)), EncoderChoice::AppleSilicon));
    c.advanced.use_apple_silicon_encoder = Some(false);
    assert!(matches!(resolve_encoder(&c, None, Some(2)), EncoderChoice::Native));
    c.advanced.use_apple_silicon_encoder = None;
    c.advanced.aac_encoder = "AUTO".to_string();
    assert!(matches!(resolve_encoder(&c, None, Some(2)), EncoderChoice::Detect));
}

#[test]
fn concurrency_is_read_and_held_in_bounds() {
    let a = args();
    let mut c = config();
    let both = |c: &Config, cpus: usize| {
        let s = batch_settings_for(&a, c, cpus);
        (s.max_concurrent, s.max_concurrent_files)
    };
    assert_eq!(both(&c, 64), (64, 64));
    for (setting, encodes, files) in [
        ("0", 1, 1),
        ("4", 4, 4),
        ("+4", 4, 4),
        ("17", 16, 17),
        ("99", 16, 32),
        ("many", 6, 8),
        ("-1", 6, 8),
        ("Auto", 6, 8),
        ("18446744073709551616", 6, 8),
        ("", 6, 8),
    ] {
        c.performance.max_concurrent_encodes = setting.to_string();
        c.performance.max_concurrent_files_per_book = setting.to_string();
        assert_eq!(both(&c, 6), (encodes, files), "{setting}");
    }
    c.performance.max_concurrent_encodes = "many".to_string();
    assert_eq!(both(&c, 64).0, 16);
}

#[test]
fn automatic_concurrency_is_that_of_the_machine() {
    let a = args();
    let c = config();
    let s = batch_settings(&a, &c);
    assert_eq!(s.max_concurrent, num_cpus::get());
    assert_eq!(s.max_concurrent_files, num_cpus::get());
}

#[test]
fn workers_and_temporary_files() {
    let mut a = args();
    let mut c = config();
    assert_eq!(worker_count(&a, &c), 2);
    assert!(!batch_settings_for(&a, &c, 1).keep_temp);
    a.parallel = Some(8);
    a.keep_temp = true;
    assert_eq!(worker_count(&a, &c), 8);
    assert_eq!(batch_settings_for(&a, &c, 1).workers, 8);
    assert!(batch_settings_for(&a, &c, 1).keep_temp);
    a.keep_temp = false;
    c.processing.keep_temp_files = true;
    assert!(batch_settings_for(&a, &c, 1).keep_temp);
}

#[test]
fn audible_is_asked_where_it_is_wanted() {
    let mut a = args();
    let mut c = config();
    assert!(!wants_audible(&a, &c));
    a.fetch_audible = true;
    assert!(wants_audible(&a, &c));
    a.fetch_audible = false;
    c.metadata.audible.enabled = true;
    assert!(wants_audible(&a, &c));
    assert_eq!(region_name(&a, &c), "us");
    a.audible_region = Some("uk".to_string());
    assert_eq!(region_name(&a, &c), "uk");
    assert_eq!(region_or(Some("uk"), "us"), "uk");
    assert_eq!(region_or(None, "us"), "us");
    assert!(!lookup_options(&a, &c).auto_match);
    a.audible_auto_match = true;
    c.metadata.audible.fetch_chapters = true;
    let o = lookup_options(&a, &c);
    assert!(o.auto_match && o.fetch_chapters);
}

/// Runs a lookup and tells what was asked for.
fn look_up(
    options: LookupOptions,
    asin: Option<&str>,
    search: Option<&[&str]>,
    cached: bool,
    fetched: bool,
) -> (Vec<String>, LookupOutcome) {
    let mut asked = Vec::new();
    let mut event = LookupEvent::Detected(asin.map(|a| a.to_string()));
    let mut state = LookupState::Detecting;
    loop {
        let (next, action) = lookup_step(&options, state, event);
        if let LookupState::Finished(outcome) = next {
            return (asked, outcome);
        }
        state = next;
        event = match action {
            LookupAction::Search => {
                asked.push("search".to_string());
                match search {
                    Some(found) => {
                        LookupEvent::Found(found.iter().map(|a| a.to_string()).collect())
                    }
                    None => LookupEvent::SearchFailed,
                }
            }
            LookupAction::ReadCache { asin } => {
                asked.push(format!("cache {asin}"));
                if cached {
                    LookupEvent::CacheHit
                } else {
                    LookupEvent::CacheMiss
                }
            }
            LookupAction::Fetch { asin } => {
                asked.push(format!("fetch {asin}"));
                if fetched {
                    LookupEvent::Fetched
                } else {
                    LookupEvent::FetchFailed
                }
            }
            LookupAction::Store { asin } => {
                asked.push(format!("store {asin}"));
                LookupEvent::Stored
            }
            LookupAction::FetchChapters { asin } => {
                asked.push(format!("chapters {asin}"));
                LookupEvent::ChaptersFetched
            }
            LookupAction::Finish => unreachable!(),
        };
    }
}

#[test]
fn the_cache_goes_before_a_fetch() {
    let o = LookupOptions { auto_match: true, fetch_chapters: true };
    let (asked, outcome) = look_up(o, Some("B1"), None, true, true);
    assert_eq!(asked, vec!["cache B1"]);
    assert!(matches!(outcome, LookupOutcome::Cached { ref asin, matched: false } if asin == "B1"));
    assert_eq!(outcome.found_asin(), Some("B1".to_string()));
}

#[test]
fn what_is_fetched_is_stored_and_then_chapters_are_asked_for() {
    let mut o = LookupOptions { auto_match: false, fetch_chapters: true };
    let (asked, outcome) = look_up(o, Some("B1"), None, false, true);
    assert_eq!(asked, vec!["cache B1", "fetch B1", "store B1", "chapters B1"]);
    assert!(matches!(outcome, LookupOutcome::Fetched { ref asin, matched: false } if asin == "B1"));
    o.fetch_chapters = false;
    assert_eq!(look_up(o, Some("B1"), None, false, true).0.len(), 3);
}

#[test]
fn a_search_gives_its_first_result() {
    let o = LookupOptions { auto_match: true, fetch_chapters: false };
    let (asked, outcome) = look_up(o, None, Some(&["B2", "B3"]), false, false);
    assert_eq!(asked, vec!["search", "cache B2", "fetch B2"]);
    assert!(
        matches!(outcome, LookupOutcome::FetchFailed { ref asin, matched: true } if asin == "B2")
    );
    assert_eq!(outcome.found_asin(), Some("B2".to_string()));
}

#[test]
fn lookups_can_find_nothing() {
    let o = LookupOptions { auto_match: true, fetch_chapters: false };
    assert!(matches!(look_up(o, None, Some(&[]), true, true).1, LookupOutcome::NoMatch));
    assert!(matches!(look_up(o, None, None, true, true).1, LookupOutcome::SearchFailed));
    let off = LookupOptions { auto_match: false, fetch_chapters: false };
    let (asked, outcome) = look_up(off, None, Some(&["B2"]), true, true);
    assert!(asked.is_empty());
    assert!(matches!(outcome, LookupOutcome::NotAttempted));
    assert_eq!(outcome.found_asin(), None);
}

#[test]
fn a_known_asin_starts_at_the_cache() {
    let (state, action) = begin_lookup("B9".to_string(), false);
    assert!(matches!(action, LookupAction::ReadCache { asin } if asin == "B9"));
    assert!(matches!(state, LookupState::ReadingCache { matched: false, .. }));
}

#[test]
fn books_with_metadata_are_counted() {
    let asin = || "B1".to_string();
    let outcomes = vec![
        LookupOutcome::Cached { asin: asin(), matched: false },
        LookupOutcome::NoMatch,
        LookupOutcome::Fetched { asin: asin(), matched: true },
        LookupOutcome::FetchFailed { asin: asin(), matched: true },
        LookupOutcome::SearchFailed,
        LookupOutcome::NotAttempted,
    ];
    assert_eq!(fetched_count(&outcomes), 2);
    assert_eq!(fetched_count(&[]), 0);
}

#[test]
fn a_batch_is_summed_up() {
    let summary = summarize_batch(&[true, false, true]);
    assert_eq!((summary.successful, summary.failed), (2, 1));
    assert_eq!(failure_text(&None), "Unknown error");
    assert_eq!(failure_text(&Some("disk full".to_string())), "disk full");
    assert_eq!(mode_text(true), "copy mode");
    assert_eq!(mode_text(false), "transcode");
}

#[test]
fn organized_books_are_summed_up() {
    let outcome = |success: bool, has_destination: bool| OrganizeOutcome { success, has_destination };
    let outcomes =
        [outcome(true, true), outcome(true, false), outcome(false, true), outcome(false, false)];
    let summary = summarize_organize(&outcomes);
    assert_eq!((summary.moved, summary.skipped, summary.failed), (1, 2, 2));
    let lines: Vec<OrganizeLine> = outcomes.iter().map(|o| organize_line(*o)).collect();
    assert_eq!(
        lines,
        vec![
            OrganizeLine::Moved,
            OrganizeLine::Stayed,
            OrganizeLine::Failed,
            OrganizeLine::Failed
        ]
    );
}

#[test]
fn a_configuration_is_overwritten_only_by_force() {
    assert_eq!(init_action(true, false), InitAction::Refuse);
    assert_eq!(init_action(true, true), InitAction::Create);
    assert_eq!(init_action(false, false), InitAction::Create);
    let given = PathBuf::from("given.yaml");
    assert!(matches!(config_file(Some(given.clone())), ConfigFile::Given(path) if path == given));
    assert!(matches!(config_file(None), ConfigFile::Usual));
}

#[test]
fn dependencies_are_reported() {
    let report = check_report(true, false, true);
    assert!(!report.all_found);
    let lines: Vec<(String, bool, bool)> =
        report.lines.iter().map(|l| (l.tool.name(), l.found, l.lists_encoders)).collect();
    assert_eq!(
        lines,
        vec![
            ("FFmpeg".to_string(), true, true),
            ("AtomicParsley".to_string(), false, false),
            ("MP4Box".to_string(), true, false),
        ]
    );
    assert!(check_report(true, true, true).all_found);
    assert!(!check_report(false, true, true).lines[0].lists_encoders);
    assert_eq!(Tool::Mp4Box.name(), "MP4Box");
    let available = vec!["aac_at".to_string(), "aac".to_string()];
    assert_eq!(selected_encoders(&available, "aac"), vec![false, true]);
}
