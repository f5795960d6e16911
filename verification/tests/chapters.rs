use audiobook_forge::chapter::{
    Chapter, ChapterComparison, ChapterError, ChapterMergeStrategy, TextFormat,
};
use audiobook_forge::chapter_import::{
    detect_text_format, number_at, parse_epub_chapters, parse_mp4box_format, parse_simple_format,
    parse_text_chapters, parse_timestamped_format, read_m4b_chapters, ProbedChapter,
};
use audiobook_forge::chapter_merge::{merge_chapter_lists, merge_chapters, merge_keep_timestamps};
use audiobook_forge::text::trim;

fn chapter(number: u32, title: &str, start: u64, end: u64) -> Chapter {
    Chapter::new(number, title.to_string(), start, end)
}

fn fields(chapters: &[Chapter]) -> Vec<(u32, &str, u64, u64)> {
    chapters
        .iter()
        .map(|c| (c.number, c.title.as_str(), c.start_time_ms, c.end_time_ms))
        .collect()
}

#[test]
fn test_chapter_comparison() {
    let existing = vec![
        Chapter::new(1, "Ch1".to_string(), 0, 1000),
        Chapter::new(2, "Ch2".to_string(), 1000, 2000),
    ];

    let new_matching = vec![
        Chapter::new(1, "Chapter One".to_string(), 0, 1000),
        Chapter::new(2, "Chapter Two".to_string(), 1000, 2000),
    ];

    let new_different = vec![Chapter::new(1, "Chapter One".to_string(), 0, 1000)];

    let comp1 = ChapterComparison::new(&existing, &new_matching);
    assert!(comp1.matches);
    assert_eq!(comp1.existing_count, 2);

    let comp2 = ChapterComparison::new(&existing, &new_different);
    assert!(!comp2.matches);
}

#[test]
fn test_merge_strategy_display() {
    assert_eq!(
        ChapterMergeStrategy::KeepTimestamps.to_string(),
        "Keep existing timestamps, update names only"
    );
}

#[test]
fn every_strategy_is_described() {
    assert_eq!(
        ChapterMergeStrategy::ReplaceAll.to_string(),
        "Replace all chapters (timestamps + names)"
    );
    assert_eq!(
        ChapterMergeStrategy::SkipOnMismatch.to_string(),
        "Skip if chapter counts don't match"
    );
    assert_eq!(ChapterMergeStrategy::Interactive.to_string(), "Ask for each file");
}

#[test]
fn test_detect_simple_format() {
    let content = "Prologue\nChapter 1\nChapter 2";
    assert!(matches!(detect_text_format(content), TextFormat::Simple));
}

#[test]
fn test_detect_timestamped_format() {
    let content = "00:00:00 Prologue\n00:05:30 Chapter 1";
    assert!(matches!(detect_text_format(content), TextFormat::Timestamped));
}

#[test]
fn test_detect_mp4box_format() {
    let content = "CHAPTER1=00:00:00.000\nCHAPTER1NAME=Prologue";
    assert!(matches!(detect_text_format(content), TextFormat::Mp4Box));
}

#[test]
fn only_the_first_line_tells_a_timestamped_list() {
    assert!(matches!(detect_text_format("Prologue\n00:05:30 One"), TextFormat::Simple));
    assert!(matches!(detect_text_format("  1:02:03 One"), TextFormat::Timestamped));
    assert!(matches!(detect_text_format("1:2:03 One"), TextFormat::Simple));
    assert!(matches!(detect_text_format(""), TextFormat::Simple));
    assert!(matches!(detect_text_format("123:00:00 One"), TextFormat::Simple));
}

#[test]
fn a_chapter_time_anywhere_tells_an_mp4box_list() {
    assert!(matches!(detect_text_format("00:00:00 A\nxCHAPTER12=01:02:03"), TextFormat::Mp4Box));
    assert!(matches!(detect_text_format("CHAPTER=01:02:03"), TextFormat::Simple));
    assert!(matches!(detect_text_format("chapter1=01:02:03"), TextFormat::Simple));
}

#[test]
fn test_parse_simple_format() {
    let content = "Prologue\nChapter 1: The Beginning\nChapter 2: The Journey";
    let chapters = parse_simple_format(content).unwrap();

    assert_eq!(chapters.len(), 3);
    assert_eq!(chapters[0].title, "Prologue");
    assert_eq!(chapters[1].title, "Chapter 1: The Beginning");
    assert_eq!(chapters[2].title, "Chapter 2: The Journey");
}

#[test]
fn blank_lines_are_no_titles() {
    let chapters = parse_simple_format("\r\n  One \r\n\t\n\u{a0}Two\n\n").unwrap();
    assert_eq!(fields(&chapters), vec![(1, "One", 0, 0), (2, "Two", 0, 0)]);
    assert_eq!(parse_simple_format(" \n\n").unwrap_err(), ChapterError::NoChapters);
    assert_eq!(parse_simple_format("").unwrap_err(), ChapterError::NoChapters);
}

#[test]
fn test_parse_timestamped_format() {
    let content = "0:00:00 Prologue\n0:05:30 Chapter 1\n0:15:45 Chapter 2";
    let chapters = parse_timestamped_format(content).unwrap();

    assert_eq!(chapters.len(), 3);
    assert_eq!(chapters[0].start_time_ms, 0);
    assert_eq!(chapters[1].start_time_ms, 330_000); // 5:30
    assert_eq!(chapters[2].start_time_ms, 945_000); // 15:45
}

#[test]
fn timed_chapters_end_where_the_next_begins() {
    let content = "00:00:00 - Prologue\nnot a chapter\n\n10:59:59:Last\r\n";
    let chapters = parse_timestamped_format(content).unwrap();
    assert_eq!(
        fields(&chapters),
        vec![(1, "Prologue", 0, 39_599_000), (4, "Last", 39_599_000, 0)]
    );
}

#[test]
fn clock_fields_are_not_bounded() {
    let chapters = parse_timestamped_format("99:99:99 Late").unwrap();
    assert_eq!(chapters[0].start_time_ms, 362_439_000);
}

#[test]
fn a_title_is_what_follows_the_separator() {
    assert_eq!(parse_timestamped_format("00:00:00-- x").unwrap()[0].title, "- x");
    assert_eq!(parse_timestamped_format("00:00:00 -").unwrap()[0].title, "-");
    assert_eq!(parse_timestamped_format("00:00:00Intro").unwrap()[0].title, "Intro");
    assert_eq!(
        parse_timestamped_format("00:00:00").unwrap_err(),
        ChapterError::NoTimestampedChapters
    );
}

#[test]
fn digits_of_other_scripts_are_matched_and_not_read() {
    let zero = "\u{660}\u{660}";
    let hour = format!("{zero}:00:00 A");
    let minute = format!("00:{zero}:00 A");
    let second = format!("00:00:{zero} A");
    assert_eq!(parse_timestamped_format(&hour).unwrap_err(), ChapterError::InvalidHour);
    assert_eq!(parse_timestamped_format(&minute).unwrap_err(), ChapterError::InvalidMinute);
    assert_eq!(parse_timestamped_format(&second).unwrap_err(), ChapterError::InvalidSecond);
}

#[test]
fn test_parse_mp4box_format() {
    let content = "CHAPTER1=00:00:00.000\nCHAPTER1NAME=Prologue\nCHAPTER2=00:05:30.500\nCHAPTER2NAME=Chapter 1";
    let chapters = parse_mp4box_format(content).unwrap();

    assert_eq!(chapters.len(), 2);
    assert_eq!(chapters[0].title, "Prologue");
    assert_eq!(chapters[0].start_time_ms, 0);
    assert_eq!(chapters[1].title, "Chapter 1");
    assert_eq!(chapters[1].start_time_ms, 330_500);
}

#[test]
fn mp4box_chapters_are_ordered_by_number() {
    let content = "CHAPTER10=00:00:10.000\nCHAPTER2=00:00:02.000\nCHAPTER2NAME= Two \nCHAPTER7NAME=None";
    let chapters = parse_mp4box_format(content).unwrap();
    assert_eq!(
        fields(&chapters),
        vec![(2, "Two", 2_000, 10_000), (10, "Chapter 10", 10_000, 0)]
    );
}

#[test]
fn a_later_mp4box_line_goes_before_an_earlier_one() {
    let content = "CHAPTER1=00:00:01.000\nCHAPTER1=00:00:02.000\nCHAPTER1NAME=A\nCHAPTER1NAME=B";
    assert_eq!(fields(&parse_mp4box_format(content).unwrap()), vec![(1, "B", 2_000, 0)]);
}

#[test]
fn mp4box_times_in_whole_seconds_are_read() {
    let content = "CHAPTER1=00:00:00\nCHAPTER1NAME=Title\nCHAPTER2=01:00:01\r\nCHAPTER2NAME=End";
    let chapters = parse_text_chapters(content).unwrap();
    assert_eq!(
        fields(&chapters),
        vec![(1, "Title", 0, 3_601_000), (2, "End", 3_601_000, 0)]
    );
}

#[test]
fn a_name_that_looks_like_a_time_is_a_name() {
    let content = "CHAPTER1=00:00:00.000\nCHAPTER1NAME=CHAPTER2=00:00:01";
    assert_eq!(
        fields(&parse_mp4box_format(content).unwrap()),
        vec![(1, "CHAPTER2=00:00:01", 0, 0)]
    );
    let content = "CHAPTER1=00:00:00\nCHAPTER1NAME=CHAPTER99999999999=00:00:01";
    assert_eq!(
        fields(&parse_mp4box_format(content).unwrap()),
        vec![(1, "CHAPTER99999999999=00:00:01", 0, 0)]
    );
}

#[test]
fn whole_seconds_are_read_only_where_they_are_the_line() {
    let content = "see CHAPTER3=00:00:03\n \tCHAPTER2=00:00:02 \nCHAPTER4=00:00:04 end";
    assert_eq!(
        fields(&parse_mp4box_format(content).unwrap()),
        vec![(2, "Chapter 2", 2_000, 0)]
    );
    assert_eq!(
        parse_mp4box_format("x CHAPTER1=00:00:01").unwrap_err(),
        ChapterError::NoMp4BoxChapters
    );
    assert_eq!(
        fields(&parse_mp4box_format("x CHAPTER1=00:00:01.500 y").unwrap()),
        vec![(1, "Chapter 1", 1_500, 0)]
    );
}

#[test]
fn mp4box_errors() {
    assert_eq!(
        parse_mp4box_format("CHAPTER1NAME=A").unwrap_err(),
        ChapterError::NoMp4BoxChapters
    );
    assert_eq!(
        parse_mp4box_format("CHAPTER4294967296=00:00:00.000").unwrap_err(),
        ChapterError::InvalidNumber
    );
    assert_eq!(
        parse_mp4box_format("CHAPTER4294967296NAME=A").unwrap_err(),
        ChapterError::InvalidNumber
    );
    assert_eq!(
        parse_mp4box_format("CHAPTER1=00:00:00.\u{660}\u{660}\u{660}").unwrap_err(),
        ChapterError::InvalidMillisecond
    );
    assert_eq!(
        fields(&parse_mp4box_format("CHAPTER4294967295=00:00:00.001").unwrap()),
        vec![(4294967295, "Chapter 4294967295", 1, 0)]
    );
}

#[test]
fn text_chapters_are_read_in_the_format_they_have() {
    assert_eq!(fields(&parse_text_chapters("A\nB").unwrap()), vec![(1, "A", 0, 0), (2, "B", 0, 0)]);
    assert_eq!(fields(&parse_text_chapters("0:00:01 A").unwrap()), vec![(1, "A", 1_000, 0)]);
    assert_eq!(
        fields(&parse_text_chapters("CHAPTER1=00:00:01.500").unwrap()),
        vec![(1, "Chapter 1", 1_500, 0)]
    );
}

#[test]
fn test_parse_epub_chapters() {
    let content = b"Mock EPUB content\n".to_vec();
    let result = epub::doc::EpubDoc::from_reader(std::io::Cursor::new(content))
        .map_err(|e| e.to_string())
        .and_then(|doc| {
            let labels: Vec<String> = doc.toc.iter().map(|point| point.label.clone()).collect();
            parse_epub_chapters(&labels).map_err(|e| e.to_string())
        });
    assert!(result.is_err() || result.unwrap().is_empty());
}

#[test]
fn epub_labels_are_titles_as_they_stand() {
    let labels = vec![" One ".to_string(), "".to_string()];
    assert_eq!(
        fields(&parse_epub_chapters(&labels).unwrap()),
        vec![(1, " One ", 0, 0), (2, "", 0, 0)]
    );
    assert_eq!(parse_epub_chapters(&[]).unwrap_err(), ChapterError::NoTocChapters);
}

#[test]
fn probed_chapters_get_a_name_and_zero_where_nothing_is_known() {
    let probed = vec![
        ProbedChapter { title: Some("A".to_string()), start_ms: Some(0), end_ms: Some(5_500) },
        ProbedChapter { title: None, start_ms: None, end_ms: None },
    ];
    assert_eq!(
        fields(&read_m4b_chapters(&probed)),
        vec![(1, "A", 0, 5_500), (2, "Chapter 2", 0, 0)]
    );
    assert!(read_m4b_chapters(&[]).is_empty());
    assert_eq!(number_at(0), 1);
    assert_eq!(number_at(4294967295), 0);
}

#[test]
fn test_merge_keep_timestamps() {
    let existing = vec![
        Chapter::new(1, "Chapter 1".to_string(), 0, 1000),
        Chapter::new(2, "Chapter 2".to_string(), 1000, 2000),
        Chapter::new(3, "Chapter 3".to_string(), 2000, 3000),
    ];

    let new = vec![
        Chapter::new(1, "Prologue".to_string(), 0, 0),
        Chapter::new(2, "The Beginning".to_string(), 0, 0),
        Chapter::new(3, "The Journey".to_string(), 0, 0),
    ];

    let merged = merge_chapters(&existing, &new, ChapterMergeStrategy::KeepTimestamps).unwrap();

    assert_eq!(merged.len(), 3);
    assert_eq!(merged[0].title, "Prologue");
    assert_eq!(merged[0].start_time_ms, 0);
    assert_eq!(merged[0].end_time_ms, 1000);
    assert_eq!(merged[1].title, "The Beginning");
    assert_eq!(merged[1].start_time_ms, 1000);
    assert_eq!(merged[2].title, "The Journey");
    assert_eq!(merged[2].start_time_ms, 2000);
}

#[test]
fn test_merge_replace_all() {
    let existing = vec![
        Chapter::new(1, "Chapter 1".to_string(), 0, 1000),
        Chapter::new(2, "Chapter 2".to_string(), 1000, 2000),
    ];

    let new = vec![
        Chapter::new(1, "Prologue".to_string(), 0, 500),
        Chapter::new(2, "The Beginning".to_string(), 500, 1500),
        Chapter::new(3, "The Journey".to_string(), 1500, 2500),
    ];

    let merged = merge_chapters(&existing, &new, ChapterMergeStrategy::ReplaceAll).unwrap();

    assert_eq!(merged.len(), 3);
    assert_eq!(merged[0].title, "Prologue");
    assert_eq!(merged[0].start_time_ms, 0);
    assert_eq!(merged[0].end_time_ms, 500);
    assert_eq!(merged[2].title, "The Journey");
}

#[test]
fn test_merge_skip_on_mismatch() {
    let existing = vec![
        Chapter::new(1, "Chapter 1".to_string(), 0, 1000),
        Chapter::new(2, "Chapter 2".to_string(), 1000, 2000),
    ];

    let new = vec![Chapter::new(1, "Prologue".to_string(), 0, 0)];

    let result = merge_chapters(&existing, &new, ChapterMergeStrategy::SkipOnMismatch);

    assert!(result.is_err());
    let err = result.unwrap_err();
    assert!(err.to_string().contains("Chapter count mismatch"));
}

#[test]
fn a_mismatch_names_both_counts() {
    let existing = vec![chapter(1, "A", 0, 1), chapter(2, "B", 1, 2)];
    let err = merge_chapters(&existing, &[], ChapterMergeStrategy::SkipOnMismatch).unwrap_err();
    assert_eq!(
        err.to_string(),
        "Chapter count mismatch: existing has 2, new has 0. Skipping update."
    );
}

#[test]
fn errors_have_their_messages() {
    assert_eq!(ChapterError::NoChapters.to_string(), "No chapters found in file");
    assert_eq!(
        ChapterError::NoTimestampedChapters.to_string(),
        "No valid timestamped chapters found"
    );
    assert_eq!(
        ChapterError::NoMp4BoxChapters.to_string(),
        "No chapters found in MP4Box format"
    );
    assert_eq!(
        ChapterError::NoTocChapters.to_string(),
        "No chapters found in EPUB table of contents"
    );
    assert_eq!(ChapterError::InvalidNumber.to_string(), "Invalid chapter number");
    assert_eq!(ChapterError::InvalidHour.to_string(), "Invalid hour");
    assert_eq!(ChapterError::InvalidMinute.to_string(), "Invalid minute");
    assert_eq!(ChapterError::InvalidSecond.to_string(), "Invalid second");
    assert_eq!(ChapterError::InvalidMillisecond.to_string(), "Invalid millisecond");
}

#[test]
fn test_merge_keep_timestamps_with_extra_existing() {
    let existing = vec![
        Chapter::new(1, "Chapter 1".to_string(), 0, 1000),
        Chapter::new(2, "Chapter 2".to_string(), 1000, 2000),
        Chapter::new(3, "Chapter 3".to_string(), 2000, 3000),
    ];

    let new = vec![Chapter::new(1, "Prologue".to_string(), 0, 0)];

    let merged = merge_chapters(&existing, &new, ChapterMergeStrategy::KeepTimestamps).unwrap();

    // Should merge first chapter and keep the remaining existing ones
    assert_eq!(merged.len(), 3);
    assert_eq!(merged[0].title, "Prologue");
    assert_eq!(merged[1].title, "Chapter 2");
    assert_eq!(merged[2].title, "Chapter 3");
}

#[test]
fn extra_new_titles_are_dropped() {
    let existing = vec![chapter(7, "A", 10, 20)];
    let new = vec![chapter(1, "X", 0, 0), chapter(2, "Y", 0, 0)];
    assert_eq!(fields(&merge_keep_timestamps(&existing, &new)), vec![(7, "X", 10, 20)]);
    let asked = merge_chapters(&existing, &new, ChapterMergeStrategy::Interactive).unwrap();
    assert_eq!(fields(&asked), vec![(7, "X", 10, 20)]);
}

#[test]
fn merging_twice_changes_nothing_more() {
    let existing = vec![chapter(1, "A", 0, 10), chapter(2, "B", 10, 20)];
    let new = vec![chapter(1, "X", 5, 6)];
    for strategy in [
        ChapterMergeStrategy::KeepTimestamps,
        ChapterMergeStrategy::ReplaceAll,
        ChapterMergeStrategy::Interactive,
    ] {
        let once = merge_chapters(&existing, &new, strategy).unwrap();
        let twice = merge_chapters(&once, &new, strategy).unwrap();
        assert_eq!(fields(&once), fields(&twice));
        let same = merge_chapters(&existing, &existing, strategy).unwrap();
        assert_eq!(fields(&same), fields(&existing));
    }
}

#[test]
fn test_merge_chapter_lists_with_offset() {
    let chapters1 = vec![
        Chapter::new(1, "Part1 Ch1".to_string(), 0, 60_000),
        Chapter::new(2, "Part1 Ch2".to_string(), 60_000, 120_000),
    ];
    let chapters2 = vec![
        Chapter::new(1, "Part2 Ch1".to_string(), 0, 45_000),
        Chapter::new(2, "Part2 Ch2".to_string(), 45_000, 90_000),
    ];

    let merged = merge_chapter_lists(&[chapters1, chapters2]);

    assert_eq!(merged.len(), 4);
    // First file's chapters unchanged
    assert_eq!(merged[0].title, "Part1 Ch1");
    assert_eq!(merged[0].start_time_ms, 0);
    assert_eq!(merged[0].end_time_ms, 60_000);
    assert_eq!(merged[1].title, "Part1 Ch2");
    assert_eq!(merged[1].start_time_ms, 60_000);
    assert_eq!(merged[1].end_time_ms, 120_000);
    // Second file's chapters offset by part 1 duration (120_000)
    assert_eq!(merged[2].title, "Part2 Ch1");
    assert_eq!(merged[2].start_time_ms, 120_000);
    assert_eq!(merged[2].end_time_ms, 165_000); // 120_000 + 45_000
    assert_eq!(merged[3].title, "Part2 Ch2");
    assert_eq!(merged[3].start_time_ms, 165_000);
    assert_eq!(merged[3].end_time_ms, 210_000); // 120_000 + 90_000
    // Renumbered sequentially
    assert_eq!(merged[0].number, 1);
    assert_eq!(merged[1].number, 2);
    assert_eq!(merged[2].number, 3);
    assert_eq!(merged[3].number, 4);
}

#[test]
fn test_merge_chapter_lists_empty() {
    let result = merge_chapter_lists(&[]);
    assert!(result.is_empty());
}

#[test]
fn test_merge_chapter_lists_single() {
    let chapters = vec![
        Chapter::new(1, "Ch1".to_string(), 0, 1000),
        Chapter::new(2, "Ch2".to_string(), 1000, 2000),
    ];
    let result = merge_chapter_lists(&[chapters.clone()]);
    assert_eq!(result.len(), 2);
    assert_eq!(result[0].title, "Ch1");
    assert_eq!(result[1].title, "Ch2");
}

#[test]
fn one_list_keeps_its_numbers_and_more_are_numbered_through() {
    let list = vec![chapter(5, "A", 0, 10)];
    assert_eq!(fields(&merge_chapter_lists(&[list.clone()])), vec![(5, "A", 0, 10)]);
    assert_eq!(
        fields(&merge_chapter_lists(&[Vec::new(), list.clone(), Vec::new(), list])),
        vec![(1, "A", 0, 10), (2, "A", 10, 20)]
    );
}

#[test]
fn ordered_files_merge_in_order() {
    let first = vec![chapter(1, "A", 5, 10), chapter(2, "B", 12, 20)];
    let second = vec![chapter(1, "C", 0, 3), chapter(2, "D", 7, 9)];
    let merged = merge_chapter_lists(&[first, second]);
    assert_eq!(
        fields(&merged),
        vec![(1, "A", 5, 10), (2, "B", 12, 20), (3, "C", 20, 23), (4, "D", 27, 29)]
    );
    assert!(merged.windows(2).all(|w| w[0].end_time_ms <= w[1].start_time_ms));
}

#[test]
fn white_space_is_trimmed_at_both_ends() {
    assert_eq!(trim(" \t a b\u{3000}\r\n"), "a b");
    assert_eq!(trim(" \u{85} "), "");
    assert_eq!(trim(""), "");
    for c in (0u32..0x3100).filter_map(char::from_u32) {
        let text = format!("{c}{c}x{c}y{c}");
        assert_eq!(trim(&text), text.trim());
    }
}
