use audiobook_forge::config::{
    AdvancedConfig, AudibleConfig, Config, DirectoryConfig, MetadataConfig, PerformanceConfig,
    ProcessingConfig, QualityConfig,
};
use audiobook_forge::files::{
    extension_of, is_audiobook_folder, is_m4b_file, try_detect_current_as_audiobook, FileEntry,
};
use audiobook_forge::scanner::{
    file_kind, with_extracted_cover, with_sorted_files, BookCase, BookFolder, CoverExtraction, FileKind, FolderFiles,
    PathKind, ScanError, Scanner, Visit, MAX_DEPTH, MIN_DEPTH,
};
use audiobook_forge::selection::{
    get_files_to_process, match_target, MatchInput, MatchTarget, SelectionError,
};
use audiobook_forge::text::split_at_commas;
use std::path::PathBuf;

fn entry(folder: &str, name: &str) -> FileEntry {
    FileEntry {
        path: PathBuf::from(format!("{folder}/{name}")),
        name: name.as_bytes().to_vec(),
        is_file: true,
    }
}

fn directory(folder: &str, name: &str) -> FileEntry {
    FileEntry {
        path: PathBuf::from(format!("{folder}/{name}")),
        name: name.as_bytes().to_vec(),
        is_file: false,
    }
}

fn config(covers: Vec<String>, extract: bool) -> Config {
    Config {
        directories: DirectoryConfig { source: None, output: "same_as_source".to_string() },
        processing: ProcessingConfig {
            parallel_workers: 2,
            skip_existing: true,
            keep_temp_files: false,
        },
        performance: PerformanceConfig {
            max_concurrent_encodes: "auto".to_string(),
            max_concurrent_files_per_book: "auto".to_string(),
        },
        quality: QualityConfig { chapter_source: "auto".to_string() },
        metadata: MetadataConfig {
            cover_filenames: covers,
            auto_extract_cover: extract,
            audible: AudibleConfig {
                enabled: false,
                region: "us".to_string(),
                auto_match: false,
                download_covers: true,
                fetch_chapters: false,
            },
        },
        advanced: AdvancedConfig {
            aac_encoder: "auto".to_string(),
            use_apple_silicon_encoder: None,
        },
    }
}

fn paths(list: &[PathBuf]) -> Vec<String> {
    list.iter().map(|p| p.display().to_string()).collect()
}

fn book(name: &str, case: BookCase, mp3: &[&str], m4b: &[&str]) -> BookFolder {
    BookFolder {
        path: PathBuf::from(name),
        name: name.to_string(),
        case,
        mp3_files: mp3.iter().map(PathBuf::from).collect(),
        m4b_files: m4b.iter().map(PathBuf::from).collect(),
        cue_file: None,
        cover_file: None,
    }
}

#[test]
fn test_scanner_creation() {
    let scanner = Scanner::new();
    assert_eq!(scanner.cover_filenames.len(), 4);
}

#[test]
fn test_scanner_with_custom_covers() {
    let scanner = Scanner::with_cover_filenames(vec!["custom.jpg".to_string()]);
    assert_eq!(scanner.cover_filenames.len(), 1);
    assert_eq!(scanner.cover_filenames[0], "custom.jpg");
}

#[test]
fn test_scan_empty_directory() {
    let scanner = Scanner::new();
    let books = scanner.scan_directory(PathKind::Directory, Vec::new()).unwrap();
    assert_eq!(books.len(), 0);
}

#[test]
fn test_scan_directory_with_audiobook() {
    let entries = vec![
        entry("Test Book", "01.mp3"),
        entry("Test Book", "02.mp3"),
        entry("Test Book", "cover.jpg"),
    ];
    let scanner = Scanner::new();
    let files = scanner.find_files(&entries);
    let found = scanner.scan_folder(
        PathBuf::from("Test Book"),
        "Test Book".to_string(),
        files,
        BookCase::A,
    );
    let visits = vec![Visit::Folder { name: b"Test Book".to_vec(), book: found }];
    let books = scanner.scan_directory(PathKind::Directory, visits).unwrap();

    assert_eq!(books.len(), 1);
    assert_eq!(books[0].name, "Test Book");
    assert_eq!(books[0].case, BookCase::A); // Multiple MP3s
    assert_eq!(books[0].mp3_files.len(), 2);
    assert!(books[0].cover_file.is_some());
}

#[test]
fn test_hidden_directory_skipped() {
    let scanner = Scanner::new();
    let files = scanner.find_files(&[entry(".hidden", "01.mp3")]);
    let found =
        scanner.scan_folder(PathBuf::from(".hidden"), ".hidden".to_string(), files, BookCase::B);
    assert!(found.is_some());
    let visits = vec![Visit::Folder { name: b".hidden".to_vec(), book: found }];
    let books = scanner.scan_directory(PathKind::Directory, visits).unwrap();

    // Hidden directory should be skipped
    assert_eq!(books.len(), 0);
}

#[test]
fn the_default_scanner_is_the_new_one() {
    let scanner = Scanner::default();
    assert_eq!(
        scanner.cover_filenames,
        vec!["cover.jpg", "folder.jpg", "cover.png", "folder.png"]
    );
    assert!(scanner.auto_extract_cover);
    assert_eq!((MIN_DEPTH, MAX_DEPTH), (1, 2));
}

#[test]
fn a_scanner_takes_its_settings_from_the_config() {
    let settings = config(vec!["art.png".to_string()], true);
    let scanner = Scanner::from_config(&settings);
    assert_eq!(scanner.cover_filenames, vec!["art.png"]);
    assert!(scanner.auto_extract_cover);
    assert!(!Scanner::from_config(&config(Vec::new(), false)).auto_extract_cover);
}

#[test]
fn a_dry_run_extracts_no_cover() {
    let settings = config(vec!["art.png".to_string()], true);
    let dry = Scanner::for_run(&settings, &None, true);
    let wet = Scanner::for_run(&settings, &None, false);
    let found = book("b", BookCase::B, &["b/1.mp3"], &[]);
    assert_eq!(dry.cover_filenames, vec!["art.png"]);
    assert_eq!(dry.cover_source(&found), None);
    assert_eq!(wet.cover_source(&found), Some(PathBuf::from("b/1.mp3")));
}

#[test]
fn cover_names_on_the_command_line_go_first() {
    let settings = config(vec!["art.png".to_string()], true);
    let scanner = Scanner::for_run(&settings, &Some("a.jpg,b.png".to_string()), false);
    assert_eq!(scanner.cover_filenames, vec!["a.jpg", "b.png"]);
    assert_eq!(split_at_commas(""), vec![""]);
    assert_eq!(split_at_commas(",x,"), vec!["", "x", ""]);
}

#[test]
fn extensions_are_what_follows_the_last_full_stop() {
    assert_eq!(extension_of(b"a.b.mp3"), Some("mp3".to_string()));
    assert_eq!(extension_of(b"a."), Some("".to_string()));
    assert_eq!(extension_of(b".mp3"), None);
    assert_eq!(extension_of(b"mp3"), None);
    assert_eq!(extension_of(b".."), None);
    assert_eq!(extension_of(b"..mp3"), Some("mp3".to_string()));
    assert_eq!(extension_of(b""), None);
    assert_eq!(extension_of(b"a.\xff"), None);
    assert_eq!(extension_of(b"\xff.m4b"), Some("m4b".to_string()));
    assert_eq!(extension_of("a.\u{e9}".as_bytes()), Some("\u{e9}".to_string()));
}

#[test]
fn extensions_agree_with_paths() {
    for name in ["a.b.mp3", "a.", ".mp3", "mp3", "..mp3", ".a.m4b", "...", "a..", "x.M4B"] {
        let path = PathBuf::from(name);
        let expected = path.extension().and_then(|e| e.to_str()).map(|e| e.to_string());
        assert_eq!(extension_of(name.as_bytes()), expected, "{name}");
    }
}

#[test]
fn file_kinds_do_not_mind_capitals() {
    assert_eq!(file_kind(b"1.MP3"), FileKind::Source);
    assert_eq!(file_kind(b"1.m4A"), FileKind::Source);
    assert_eq!(file_kind(b"1.M4b"), FileKind::M4b);
    assert_eq!(file_kind(b"1.Cue"), FileKind::Cue);
    assert_eq!(file_kind(b"1.JPEG"), FileKind::Image);
    assert_eq!(file_kind(b"1.jpg"), FileKind::Image);
    assert_eq!(file_kind(b"1.png"), FileKind::Image);
    assert_eq!(file_kind(b"1.txt"), FileKind::Other);
    assert_eq!(file_kind(b"mp3"), FileKind::Other);
    assert_eq!(file_kind(b"1.\xff"), FileKind::Other);
    assert!(is_m4b_file(b"Book.M4B"));
    assert!(!is_m4b_file(b"Book.m4a"));
    assert!(!is_m4b_file(b".m4b"));
}

#[test]
fn a_source_file_makes_the_current_directory_an_audiobook() {
    let mp3 = [entry("d", "x.txt"), entry("d", "1.Mp3")];
    let m4b = [entry("d", "1.m4b")];
    assert!(try_detect_current_as_audiobook(true, &mp3));
    assert!(!try_detect_current_as_audiobook(false, &mp3));
    assert!(!try_detect_current_as_audiobook(true, &m4b));
    assert!(try_detect_current_as_audiobook(true, &[entry("d", "1.m4a")]));
    assert!(try_detect_current_as_audiobook(true, &[directory("d", "odd.mp3")]));
    assert!(is_audiobook_folder(true, &m4b));
    assert!(!is_audiobook_folder(false, &m4b));
    assert!(!is_audiobook_folder(true, &[entry("d", "x.txt")]));
    assert!(!is_audiobook_folder(true, &[]));
}

#[test]
fn the_files_of_a_folder_are_found() {
    let entries = vec![
        entry("d", "b.m4a"),
        entry("d", "COVER.PNG"),
        entry("d", "one.cue"),
        entry("d", "picture.jpg"),
        entry("d", "a.mp3"),
        directory("d", "sub.mp3"),
        entry("d", "folder.jpg"),
        entry("d", "two.cue"),
        entry("d", "x.m4b"),
    ];
    let files = Scanner::new().find_files(&entries);
    assert_eq!(paths(&files.mp3_files), vec!["d/b.m4a", "d/a.mp3"]);
    assert_eq!(paths(&files.m4b_files), vec!["d/x.m4b"]);
    assert_eq!(files.cue_file, Some(PathBuf::from("d/two.cue")));
    assert_eq!(files.cover_file, Some(PathBuf::from("d/COVER.PNG")));
}

#[test]
fn cover_names_do_not_mind_capitals_of_any_alphabet() {
    let scanner = Scanner::with_cover_filenames(vec!["\u{c9}TUI.jpg".to_string()]);
    assert!(scanner.is_cover_art("\u{e9}tui.JPG".as_bytes()));
    assert!(!scanner.is_cover_art(b"etui.jpg"));
    assert!(!scanner.is_cover_art(b"\xff.jpg"));
}

#[test]
fn hidden_names_start_with_a_full_stop() {
    let scanner = Scanner::new();
    assert!(scanner.is_hidden(b".git"));
    assert!(!scanner.is_hidden(b"a.b"));
    assert!(!scanner.is_hidden(b""));
    assert!(!scanner.is_hidden(b".\xff"));
}

#[test]
fn a_folder_of_no_case_is_no_audiobook() {
    let scanner = Scanner::new();
    for (case, wanted) in [
        (BookCase::A, true),
        (BookCase::B, true),
        (BookCase::C, true),
        (BookCase::D, false),
        (BookCase::E, true),
    ] {
        let files = FolderFiles {
            mp3_files: vec![PathBuf::from("1")],
            m4b_files: vec![PathBuf::from("2")],
            cue_file: Some(PathBuf::from("3")),
            cover_file: Some(PathBuf::from("4")),
        };
        let found = scanner.scan_folder(PathBuf::from("p"), "n".to_string(), files, case);
        assert_eq!(found.is_some(), wanted);
        if let Some(b) = found {
            assert_eq!(b.case, case);
            assert_eq!(b.is_mergeable(), case == BookCase::E);
            assert_eq!(b.path, PathBuf::from("p"));
            assert_eq!(b.name, "n");
            assert_eq!(paths(&b.mp3_files), vec!["1"]);
            assert_eq!(paths(&b.m4b_files), vec!["2"]);
            assert_eq!(b.cue_file, Some(PathBuf::from("3")));
            assert_eq!(b.cover_file, Some(PathBuf::from("4")));
        }
    }
}

#[test]
fn a_cover_comes_from_the_first_audio_file() {
    let scanner = Scanner::new();
    let both = book("b", BookCase::A, &["1.mp3", "2.mp3"], &["x.m4b"]);
    let m4b = book("b", BookCase::C, &[], &["x.m4b", "y.m4b"]);
    let none = book("b", BookCase::D, &[], &[]);
    let mut covered = book("b", BookCase::B, &["1.mp3"], &[]);
    covered.cover_file = Some(PathBuf::from("cover.jpg"));
    assert_eq!(scanner.cover_source(&both), Some(PathBuf::from("1.mp3")));
    assert_eq!(scanner.cover_source(&m4b), Some(PathBuf::from("x.m4b")));
    assert_eq!(scanner.cover_source(&none), None);
    assert_eq!(scanner.cover_source(&covered), None);
}

#[test]
fn m4b_files_are_sorted_by_part_only_where_they_are_parts() {
    let list = |names: &[&str]| -> Vec<PathBuf> { names.iter().map(PathBuf::from).collect() };
    for (case, expected) in [
        (BookCase::A, vec!["p2", "p1"]),
        (BookCase::B, vec!["p2", "p1"]),
        (BookCase::C, vec!["p2", "p1"]),
        (BookCase::E, vec!["p1", "p2"]),
    ] {
        let found = book("b", case, &["10", "9"], &["p2", "p1"]);
        let sorted = with_sorted_files(found, list(&["9", "10"]), list(&["p1", "p2"]));
        assert_eq!(paths(&sorted.mp3_files), vec!["9", "10"]);
        assert_eq!(paths(&sorted.m4b_files), expected);
        assert_eq!(sorted.case, case);
        assert_eq!(sorted.name, "b");
    }
}

#[test]
fn only_an_extracted_cover_is_kept() {
    for (extraction, expected) in [
        (CoverExtraction::Extracted, Some(PathBuf::from("c.jpg"))),
        (CoverExtraction::NotFound, None),
        (CoverExtraction::Failed, None),
    ] {
        let found = book("b", BookCase::B, &["1.mp3"], &[]);
        let after = with_extracted_cover(found, PathBuf::from("c.jpg"), extraction);
        assert_eq!(after.cover_file, expected);
        assert_eq!(after.name, "b");
    }
}

#[test]
fn a_scan_fails_where_there_is_no_directory() {
    let scanner = Scanner::new();
    let missing = scanner.scan_directory(PathKind::Missing, Vec::new());
    assert!(matches!(missing, Err(ScanError::Missing)));
    let file = scanner.scan_directory(PathKind::NotADirectory, Vec::new());
    assert!(matches!(file, Err(ScanError::NotADirectory)));
    assert_eq!(ScanError::Missing.to_string(), "Directory does not exist");
    assert_eq!(ScanError::NotADirectory.to_string(), "Path is not a directory");
    assert_eq!(ScanError::Unreadable.to_string(), "Failed to read directory");
    assert_eq!(ScanError::EntryUnreadable.to_string(), "Failed to read directory entry");
}

#[test]
fn the_first_failure_ends_a_walk() {
    let scanner = Scanner::new();
    let visits = vec![
        Visit::Folder {
            name: b"a".to_vec(),
            book: Some(book("a", BookCase::B, &["1.mp3"], &[])),
        },
        Visit::Failed(ScanError::EntryUnreadable),
        Visit::Failed(ScanError::Unreadable),
    ];
    let result = scanner.scan_directory(PathKind::Directory, visits);
    assert!(matches!(result, Err(ScanError::EntryUnreadable)));
}

#[test]
fn books_are_found_in_order() {
    let scanner = Scanner::new();
    let visits = vec![
        Visit::Folder { name: b"z".to_vec(), book: Some(book("z", BookCase::B, &["1"], &[])) },
        Visit::Folder { name: b"none".to_vec(), book: None },
        Visit::Folder { name: b".h".to_vec(), book: Some(book("h", BookCase::B, &["1"], &[])) },
        Visit::Folder { name: b"a".to_vec(), book: Some(book("a", BookCase::A, &["1"], &[])) },
    ];
    let books = scanner.scan_directory(PathKind::Directory, visits).unwrap();
    let names: Vec<&str> = books.iter().map(|b| b.name.as_str()).collect();
    assert_eq!(names, vec!["z", "a"]);
}

#[test]
fn a_single_directory_must_be_an_audiobook() {
    let scanner = Scanner::new();
    let none = scanner.scan_single_directory(PathKind::Directory, Ok(None));
    assert!(matches!(none, Err(ScanError::NotAnAudiobook)));
    assert_eq!(
        ScanError::NotAnAudiobook.to_string(),
        "Current directory does not contain valid audiobook files"
    );
    let missing = scanner.scan_single_directory(PathKind::Missing, Ok(None));
    assert!(matches!(missing, Err(ScanError::Missing)));
    let file = scanner.scan_single_directory(PathKind::NotADirectory, Ok(None));
    assert!(matches!(file, Err(ScanError::NotADirectory)));
    let unreadable =
        scanner.scan_single_directory(PathKind::Directory, Err(ScanError::Unreadable));
    assert!(matches!(unreadable, Err(ScanError::Unreadable)));
    let found = book("b", BookCase::B, &["1.mp3"], &[]);
    let single = scanner.scan_single_directory(PathKind::Directory, Ok(Some(found)));
    assert!(matches!(single, Ok(b) if b.name == "b"));
}

#[test]
fn m4b_files_are_selected_in_the_order_of_their_names() {
    let input = MatchInput::Directory {
        is_dir: true,
        entries: vec![
            entry("d", "b.m4b"),
            entry("d", "a.m4b.m4b"),
            entry("d", "x.mp3"),
            directory("d", "0.m4b"),
            entry("d", "a.M4B"),
            entry("d", "\u{e9}.m4b"),
            entry("d", "B.m4b"),
        ],
    };
    assert_eq!(
        paths(&get_files_to_process(&input).unwrap()),
        vec!["d/B.m4b", "d/a.M4B", "d/a.m4b.m4b", "d/b.m4b", "d/\u{e9}.m4b"]
    );
}

#[test]
fn the_order_of_names_is_that_of_paths() {
    let names = ["10.m4b", "9.m4b", "a b.m4b", "a-b.m4b", "a.m4b", "aa.m4b", "A.m4b"];
    let input = MatchInput::Directory {
        is_dir: true,
        entries: names.iter().map(|n| entry("d", n)).collect(),
    };
    let mut expected: Vec<PathBuf> = names.iter().map(|n| PathBuf::from("d").join(n)).collect();
    expected.sort();
    assert_eq!(get_files_to_process(&input).unwrap(), expected);
}

#[test]
fn a_single_file_must_be_an_m4b_that_exists() {
    let file = |name: &str, exists: bool| MatchInput::File {
        path: PathBuf::from(name),
        name: name.as_bytes().to_vec(),
        exists,
    };
    assert_eq!(
        get_files_to_process(&file("a.m4b", true)).unwrap(),
        vec![PathBuf::from("a.m4b")]
    );
    assert_eq!(
        get_files_to_process(&file("a.m4b", false)).unwrap_err(),
        SelectionError::FileNotFound
    );
    assert_eq!(
        get_files_to_process(&file("a.mp3", true)).unwrap_err(),
        SelectionError::NotAnM4b
    );
    let no_dir = MatchInput::Directory { is_dir: false, entries: Vec::new() };
    assert_eq!(get_files_to_process(&no_dir).unwrap_err(), SelectionError::NotADirectory);
    assert_eq!(
        get_files_to_process(&MatchInput::Nothing).unwrap_err(),
        SelectionError::NothingGiven
    );
    assert_eq!(SelectionError::FileNotFound.to_string(), "File not found");
    assert_eq!(SelectionError::NotAnM4b.to_string(), "File is not an M4B");
    assert_eq!(SelectionError::NotADirectory.to_string(), "Not a directory");
    assert_eq!(SelectionError::NothingGiven.to_string(), "Must specify --file or --dir");
}

#[test]
fn a_file_goes_before_a_directory() {
    let f = Some(PathBuf::from("f"));
    let d = Some(PathBuf::from("d"));
    assert!(matches!(match_target(f, d.clone()), MatchTarget::File(p) if p == PathBuf::from("f")));
    assert!(matches!(match_target(None, d), MatchTarget::Directory(p) if p == PathBuf::from("d")));
    assert!(matches!(match_target(None, None), MatchTarget::Nothing));
}
