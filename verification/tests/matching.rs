use audiobook_forge::chapter::{ChapterMergeStrategy, ChapterSource};
use audiobook_forge::commands::MatchArgs;
use audiobook_forge::matching::{
    begin_match, match_options, match_step, no_results_action, no_results_options, summarize,
    FileOutcome, MatchAction, MatchError, MatchEvent, MatchOptions, MatchState, NoResultsAction,
    ProcessResult, SearchTerms, UserChoice,
};
use audiobook_forge::metadata::{
    chapters_file_name, cover_file_name, cover_to_download, detected_asin, display_lines,
    fetch_query, first_result, parse_merge_strategy, plan_enrich, BookDetails, ChapterFile,
    Credits, EnrichRequest, EnrichRest, FetchQuery, MetadataError, SeriesEntry, SHOWN_RESULTS,
};
use std::path::PathBuf;

fn options(title: Option<&str>, auto: bool, dry_run: bool) -> MatchOptions {
    MatchOptions { title: title.map(|t| t.to_string()), author: None, auto, dry_run }
}

/// Feeds events to the matching of a file and tells what was asked for and where it stands.
fn run(options: &MatchOptions, events: Vec<MatchEvent>) -> (Vec<String>, MatchState) {
    let (mut state, action) = begin_match(options);
    let mut asked = vec![describe(&action)];
    for event in events {
        let (next, action) = match_step(options, state, event);
        asked.push(describe(&action));
        state = next;
    }
    (asked, state)
}

fn terms(t: &SearchTerms) -> String {
    format!(
        "{}/{}/{}",
        t.title.as_deref().unwrap_or("-"),
        t.author.as_deref().unwrap_or("-"),
        t.manual
    )
}

fn describe(action: &MatchAction) -> String {
    match action {
        MatchAction::Extract => "extract".to_string(),
        MatchAction::Search(t) => format!("search {}", terms(t)),
        MatchAction::AskWithoutMatch => "ask without match".to_string(),
        MatchAction::AskSelection => "ask selection".to_string(),
        MatchAction::AskMetadata => "ask metadata".to_string(),
        MatchAction::AskTerms => "ask terms".to_string(),
        MatchAction::UseCandidate { index, apply } => format!("use {index} {apply}"),
        MatchAction::UseEntered { apply } => format!("use entered {apply}"),
        MatchAction::Finish => "finish".to_string(),
    }
}

fn ended(state: &MatchState, result: ProcessResult) -> bool {
    matches!(state, MatchState::Finished(Ok(r)) if *r == result)
}

fn extracted(title: Option<&str>) -> MatchEvent {
    MatchEvent::Extracted { title: title.map(|t| t.to_string()), author: None }
}

fn entered(title: Option<&str>, author: Option<&str>) -> MatchEvent {
    MatchEvent::TermsEntered {
        title: title.map(|t| t.to_string()),
        author: author.map(|a| a.to_string()),
    }
}

#[test]
fn the_best_match_is_taken_in_automatic_mode() {
    let o = options(None, true, false);
    let (asked, state) =
        run(&o, vec![extracted(Some("T")), MatchEvent::Results(3), MatchEvent::Applied]);
    assert_eq!(asked, vec!["extract", "search T/-/false", "use 0 true", "finish"]);
    assert!(ended(&state, ProcessResult::Applied));
}

#[test]
fn automatic_mode_skips_what_it_does_not_find() {
    let o = options(Some("T"), true, false);
    let (asked, state) = run(&o, vec![MatchEvent::Results(0)]);
    assert_eq!(asked, vec!["search T/-/true", "finish"]);
    assert!(ended(&state, ProcessResult::Skipped));
}

#[test]
fn a_selected_match_is_applied() {
    let o = options(Some("T"), false, false);
    let (asked, state) = run(
        &o,
        vec![
            MatchEvent::Results(3),
            MatchEvent::Selected(UserChoice::SelectMatch(2)),
            MatchEvent::Applied,
        ],
    );
    assert_eq!(asked, vec!["search T/-/true", "ask selection", "use 2 true", "finish"]);
    assert!(ended(&state, ProcessResult::Applied));
}

#[test]
fn a_file_can_be_skipped() {
    let o = options(Some("T"), false, false);
    let (_, state) =
        run(&o, vec![MatchEvent::Results(1), MatchEvent::Selected(UserChoice::Skip)]);
    assert!(ended(&state, ProcessResult::Skipped));
    let (_, state) =
        run(&o, vec![MatchEvent::Results(0), MatchEvent::WithoutMatch(NoResultsAction::Skip)]);
    assert!(ended(&state, ProcessResult::Skipped));
}

#[test]
fn a_dry_run_applies_nothing() {
    let by_hand = options(Some("T"), false, true);
    let (asked, state) = run(
        &by_hand,
        vec![
            MatchEvent::Results(0),
            MatchEvent::WithoutMatch(NoResultsAction::ManualEntry),
            MatchEvent::MetadataEntered,
            MatchEvent::Applied,
        ],
    );
    assert_eq!(asked[3], "use entered false");
    assert!(ended(&state, ProcessResult::Applied));
    let (asked, _) = run(
        &by_hand,
        vec![
            MatchEvent::Results(2),
            MatchEvent::Selected(UserChoice::ManualEntry),
            MatchEvent::MetadataEntered,
        ],
    );
    assert_eq!(asked[3], "use entered false");
    let (asked, _) = run(
        &by_hand,
        vec![MatchEvent::Results(2), MatchEvent::Selected(UserChoice::SelectMatch(1))],
    );
    assert_eq!(asked[2], "use 1 false");
    let (asked, _) = run(&options(Some("T"), true, true), vec![MatchEvent::Results(2)]);
    assert_eq!(asked[1], "use 0 false");
}

#[test]
fn other_terms_are_searched_for() {
    let o = options(None, false, false);
    let (asked, state) = run(
        &o,
        vec![
            extracted(Some("T")),
            MatchEvent::Results(0),
            MatchEvent::WithoutMatch(NoResultsAction::CustomSearch),
            entered(None, Some("A")),
            MatchEvent::Results(2),
            MatchEvent::Selected(UserChoice::CustomSearch),
            entered(Some("U"), None),
        ],
    );
    assert_eq!(
        asked,
        vec![
            "extract",
            "search T/-/false",
            "ask without match",
            "ask terms",
            "search -/A/true",
            "ask selection",
            "ask terms",
            "search U/-/true"
        ]
    );
    assert!(matches!(state, MatchState::Searching));
}

#[test]
fn a_search_needs_terms() {
    let o = options(None, false, false);
    let (asked, state) = run(&o, vec![extracted(None)]);
    assert_eq!(asked, vec!["extract", "finish"]);
    assert!(matches!(state, MatchState::Finished(Err(MatchError::NoSearchTerms))));
    assert_eq!(
        MatchError::NoSearchTerms.to_string(),
        "Need at least title or author to search"
    );
}

#[test]
fn options_come_from_the_arguments() {
    let args = MatchArgs {
        file: None,
        dir: None,
        title: None,
        author: Some("A".to_string()),
        auto: true,
        region: "us".to_string(),
        keep_cover: false,
        dry_run: true,
    };
    let o = match_options(&args);
    assert_eq!((o.title, o.author), (None, Some("A".to_string())));
    assert!(o.auto && o.dry_run);
}

#[test]
fn options_stand_for_actions() {
    let shown = no_results_options();
    assert_eq!(
        shown,
        vec![
            "[S]kip this file",
            "Search with [D]ifferent terms",
            "Enter metadata [M]anually"
        ]
    );
    assert_eq!(no_results_action(&shown[0]), NoResultsAction::Skip);
    assert_eq!(no_results_action(&shown[1]), NoResultsAction::CustomSearch);
    assert_eq!(no_results_action(&shown[2]), NoResultsAction::ManualEntry);
    assert_eq!(no_results_action("anything"), NoResultsAction::Skip);
}

#[test]
fn files_are_summed_up() {
    let s = summarize(&[
        FileOutcome::Applied,
        FileOutcome::Failed,
        FileOutcome::Skipped,
        FileOutcome::Applied,
    ]);
    assert_eq!((s.processed, s.skipped, s.failed), (2, 1, 1));
}

#[test]
fn an_asin_goes_before_a_search() {
    let text = |s: &str| Some(s.to_string());
    let by_asin = fetch_query(text("B1"), text("T"), None).unwrap();
    assert!(matches!(by_asin, FetchQuery::Asin(a) if a == "B1"));
    let search = fetch_query(None, None, text("A")).unwrap();
    assert!(
        matches!(search, FetchQuery::Search { title: None, author: Some(a) } if a == "A")
    );
    let nothing = fetch_query(None, None, None);
    assert!(matches!(nothing, Err(MetadataError::NoQuery)));
    assert_eq!(
        first_result(&["B1".to_string(), "B2".to_string()]).unwrap(),
        "B1"
    );
    assert!(matches!(first_result(&[]), Err(MetadataError::NoResults)));
    assert_eq!(SHOWN_RESULTS, 5);
}

fn details() -> BookDetails {
    BookDetails {
        title: "T".to_string(),
        subtitle: None,
        authors: Credits { count: 0, names: String::new() },
        narrators: Credits { count: 0, names: String::new() },
        publisher: None,
        published_year: None,
        runtime_minutes: None,
        language: None,
        genres: Vec::new(),
        series: Vec::new(),
        asin: "B1".to_string(),
    }
}

fn shown(d: &BookDetails) -> Vec<String> {
    display_lines(d).iter().map(|l| format!("{}: {}", l.label, l.text)).collect()
}

#[test]
fn what_is_not_known_is_not_shown() {
    assert_eq!(shown(&details()), vec!["Title: T", "ASIN: B1"]);
}

#[test]
fn a_book_is_shown_line_by_line() {
    let text = |s: &str| Some(s.to_string());
    let d = BookDetails {
        subtitle: text("S"),
        authors: Credits { count: 2, names: "A, B".to_string() },
        narrators: Credits { count: 1, names: "N".to_string() },
        publisher: text("P"),
        published_year: Some(2008),
        runtime_minutes: Some(605),
        language: text("english"),
        genres: vec!["Fantasy".to_string(), "Epic".to_string(), "Long".to_string()],
        series: vec![
            SeriesEntry { name: "One".to_string(), sequence: text("1.5") },
            SeriesEntry { name: "Two".to_string(), sequence: None },
        ],
        ..details()
    };
    assert_eq!(
        shown(&d),
        vec![
            "Title: T",
            "Subtitle: S",
            "Author(s): A, B",
            "Narrator(s): N",
            "Publisher: P",
            "Published: 2008",
            "Duration: 10h 5m",
            "Language: english",
            "Genres: Fantasy, Epic, Long",
            "Series: One (Book 1.5)",
            "Series: Two",
            "ASIN: B1",
        ]
    );
}

fn request() -> EnrichRequest {
    EnrichRequest {
        file_exists: true,
        asin: None,
        auto_detect: false,
        chapters: None,
        chapters_asin: None,
        update_chapters_only: false,
        merge_strategy: "interactive".to_string(),
    }
}

fn chapter_file(name: &str) -> Option<ChapterFile> {
    Some(ChapterFile { path: PathBuf::from(name), name: name.as_bytes().to_vec() })
}

#[test]
fn strategies_have_names() {
    assert_eq!(
        parse_merge_strategy("keep-timestamps"),
        Some(ChapterMergeStrategy::KeepTimestamps)
    );
    assert_eq!(parse_merge_strategy("replace-all"), Some(ChapterMergeStrategy::ReplaceAll));
    assert_eq!(
        parse_merge_strategy("skip-on-mismatch"),
        Some(ChapterMergeStrategy::SkipOnMismatch)
    );
    assert_eq!(parse_merge_strategy("interactive"), Some(ChapterMergeStrategy::Interactive));
    assert_eq!(parse_merge_strategy("Interactive"), None);
}

#[test]
fn an_enrichment_needs_a_file_and_a_known_strategy() {
    let missing = plan_enrich(EnrichRequest { file_exists: false, ..request() });
    assert!(matches!(missing, Err(MetadataError::FileMissing)));
    let odd = plan_enrich(EnrichRequest { merge_strategy: "best".to_string(), ..request() });
    match odd {
        Err(e) => assert_eq!(
            e.to_string(),
            "Invalid merge strategy: best. Valid options: keep-timestamps, replace-all, skip-on-mismatch, interactive"
        ),
        Ok(_) => panic!("accepted"),
    }
}

#[test]
fn chapters_come_from_a_file_or_an_asin() {
    let source = |r: EnrichRequest| match plan_enrich(r) {
        Ok(plan) => plan.source,
        Err(_) => panic!("refused"),
    };
    let epub = source(EnrichRequest { chapters: chapter_file("b.epub"), ..request() });
    assert!(matches!(epub, Some(ChapterSource::Epub { path }) if path == PathBuf::from("b.epub")));
    let text = source(EnrichRequest { chapters: chapter_file("b.EPUB"), ..request() });
    assert!(matches!(text, Some(ChapterSource::TextFile { .. })));
    let both = source(EnrichRequest {
        chapters: chapter_file("c.txt"),
        chapters_asin: Some("B1".to_string()),
        ..request()
    });
    assert!(matches!(both, Some(ChapterSource::TextFile { .. })));
    let asin =
        source(EnrichRequest { chapters_asin: Some("B1".to_string()), ..request() });
    assert!(matches!(asin, Some(ChapterSource::Audnex { asin }) if asin == "B1"));
    assert!(source(request()).is_none());
}

#[test]
fn an_enrichment_goes_on_as_it_is_told() {
    let rest = |r: EnrichRequest| match plan_enrich(r) {
        Ok(plan) => plan.rest,
        Err(_) => panic!("refused"),
    };
    let given = rest(EnrichRequest { asin: Some("B1".to_string()), auto_detect: true, ..request() });
    assert!(matches!(given, EnrichRest::UseAsin(a) if a == "B1"));
    assert!(matches!(
        rest(EnrichRequest { auto_detect: true, ..request() }),
        EnrichRest::DetectAsin
    ));
    assert!(matches!(rest(request()), EnrichRest::Fail(MetadataError::NoAsin)));
    assert!(matches!(
        rest(EnrichRequest { chapters: chapter_file("c.txt"), ..request() }),
        EnrichRest::ChaptersOnly
    ));
    assert!(matches!(
        rest(EnrichRequest {
            chapters: chapter_file("c.txt"),
            asin: Some("B1".to_string()),
            update_chapters_only: true,
            ..request()
        }),
        EnrichRest::ChaptersOnly
    ));
    assert!(matches!(
        rest(EnrichRequest { asin: Some("B1".to_string()), update_chapters_only: true, ..request() }),
        EnrichRest::Fail(MetadataError::NoChapterSource)
    ));
}

#[test]
fn metadata_errors_have_their_messages() {
    assert_eq!(MetadataError::FileMissing.to_string(), "File does not exist");
    assert_eq!(
        MetadataError::NoChapterSource.to_string(),
        "--update-chapters-only specified but no chapter source provided (use --chapters or --chapters-asin)"
    );
    assert_eq!(
        MetadataError::NoAsin.to_string(),
        "Must provide --asin or use --auto-detect"
    );
    assert_eq!(
        MetadataError::AsinNotDetected.to_string(),
        "Could not detect ASIN from filename"
    );
    assert_eq!(
        MetadataError::NoQuery.to_string(),
        "Must provide --asin or --title/--author"
    );
    assert_eq!(
        MetadataError::NoResults.to_string(),
        "No results found for search query"
    );
    assert!(matches!(detected_asin(None), Err(MetadataError::AsinNotDetected)));
    assert_eq!(detected_asin(Some("B1".to_string())).unwrap(), "B1");
}

#[test]
fn covers_are_downloaded_where_wanted() {
    let url = Some("http://cover".to_string());
    assert_eq!(cover_to_download(true, false, &url), url);
    assert_eq!(cover_to_download(false, false, &url), None);
    assert_eq!(cover_to_download(true, true, &url), None);
    assert_eq!(cover_to_download(true, false, &None), None);
    assert_eq!(chapters_file_name("Book"), "chapters_Book.txt");
    assert_eq!(cover_file_name("B1"), "B1.jpg");
}
