//! Chapters and the vocabulary of chapter updates.
use crate::text::{decimal_text, to_decimal};
use std::path::PathBuf;
use vstd::prelude::*;

verus! {

/// One chapter of an audiobook.
#[derive(Debug)]
pub struct Chapter {
    /// Chapter number
    pub number: u32,
    /// Chapter title
    pub title: String,
    /// Start, in milliseconds from the beginning
    pub start_time_ms: u64,
    /// End, in milliseconds from the beginning; zero while it is not known
    pub end_time_ms: u64,
}

/// A chapter as a mathematical value.
#[verifier::ext_equal]
pub struct ChapterModel {
    pub number: nat,
    pub title: Seq<char>,
    pub start_time_ms: nat,
    pub end_time_ms: nat,
}

impl View for Chapter {
    type V = ChapterModel;

    open spec fn view(&self) -> ChapterModel {
        ChapterModel {
            number: self.number as nat,
            title: self.title@,
            start_time_ms: self.start_time_ms as nat,
            end_time_ms: self.end_time_ms as nat,
        }
    }
}

/// The chapters of a list as mathematical values.
pub open spec fn models(chapters: Seq<Chapter>) -> Seq<ChapterModel> {
    chapters.map_values(|c: Chapter| c@)
}

impl Clone for Chapter {
    fn clone(&self) -> (r: Self)
        ensures
            r == *self,
    {
        Chapter {
            number: self.number,
            title: self.title.clone(),
            start_time_ms: self.start_time_ms,
            end_time_ms: self.end_time_ms,
        }
    }
}

impl Chapter {
    /// A chapter with the given number, title and times.
    pub fn new(number: u32, title: String, start_time_ms: u64, end_time_ms: u64) -> (r: Self)
        ensures
            r.number == number,
            r.title == title,
            r.start_time_ms == start_time_ms,
            r.end_time_ms == end_time_ms,
    {
        Chapter { number, title, start_time_ms, end_time_ms }
    }
}

/// Copies a list of chapters.
pub fn copy_chapters(chapters: &[Chapter]) -> (r: Vec<Chapter>)
    ensures
        r@ == chapters@,
{
    let mut r: Vec<Chapter> = Vec::new();
    let mut i: usize = 0;
    while i < chapters.len()
        invariant
            i <= chapters.len(),
            r@ == chapters@.take(i as int),
        decreases chapters.len() - i,
    {
        r.push(chapters[i].clone());
        proof {
            assert(chapters@.take(i + 1) =~= chapters@.take(i as int).push(chapters@[i as int]));
        }
        i = i + 1;
    }
    assert(chapters@.take(chapters@.len() as int) =~= chapters@);
    r
}

/// Source of chapter data
#[derive(Debug, Clone)]
pub enum ChapterSource {
    /// Fetch from Audnex API by ASIN
    Audnex { asin: String },
    /// Parse from text file
    TextFile { path: PathBuf },
    /// Extract from EPUB file
    Epub { path: PathBuf },
    /// Use existing chapters from M4B
    Existing,
}

/// Strategy for merging new chapters with existing ones
#[derive(Debug, Clone, Copy, PartialEq, Eq, Structural)]
pub enum ChapterMergeStrategy {
    /// Keep existing timestamps, only update names
    KeepTimestamps,
    /// Replace both timestamps and names entirely
    ReplaceAll,
    /// Skip update if counts don't match
    SkipOnMismatch,
    /// Interactively ask user for each file
    Interactive,
}

impl ChapterMergeStrategy {
    /// What the strategy does, in words.
    pub open spec fn description(self) -> Seq<char> {
        match self {
            Self::KeepTimestamps => "Keep existing timestamps, update names only"@,
            Self::ReplaceAll => "Replace all chapters (timestamps + names)"@,
            Self::SkipOnMismatch => "Skip if chapter counts don't match"@,
            Self::Interactive => "Ask for each file"@,
        }
    }

    /// What the strategy does, in words.
    pub fn to_string(&self) -> (r: String)
        ensures
            r@ == self.description(),
    {
        let text: &'static str = match self {
            Self::KeepTimestamps => "Keep existing timestamps, update names only",
            Self::ReplaceAll => "Replace all chapters (timestamps + names)",
            Self::SkipOnMismatch => "Skip if chapter counts don't match",
            Self::Interactive => "Ask for each file",
        };
        text.to_owned()
    }
}

/// Result of comparing existing vs new chapters
#[derive(Debug)]
pub struct ChapterComparison {
    pub existing_count: usize,
    pub new_count: usize,
    pub matches: bool,
}

impl ChapterComparison {
    /// Compares two chapter lists by their lengths.
    pub fn new(existing: &[Chapter], new: &[Chapter]) -> (r: Self)
        ensures
            r.existing_count == existing@.len(),
            r.new_count == new@.len(),
            r.matches == (existing@.len() == new@.len()),
    {
        ChapterComparison {
            existing_count: existing.len(),
            new_count: new.len(),
            matches: existing.len() == new.len(),
        }
    }
}

/// Supported text file formats for chapter import
#[derive(Debug, Clone, Copy, PartialEq, Eq, Structural)]
pub enum TextFormat {
    /// One title per line
    Simple,
    /// Timestamps + titles (e.g., "00:00:00 Prologue")
    Timestamped,
    /// MP4Box format (CHAPTER1=00:00:00\nCHAPTER1NAME=Title)
    Mp4Box,
}

/// Why chapters could not be read or merged.
#[derive(Debug, Clone, Copy, PartialEq, Eq, Structural)]
pub enum ChapterError {
    /// A list of titles without a title
    NoChapters,
    /// A timestamped list without a single valid line
    NoTimestampedChapters,
    /// An MP4Box list without a single chapter time
    NoMp4BoxChapters,
    /// An EPUB table of contents without an entry
    NoTocChapters,
    /// A chapter number that is not a 32-bit number in ASCII digits
    InvalidNumber,
    /// An hour that is not in ASCII digits
    InvalidHour,
    /// A minute that is not in ASCII digits
    InvalidMinute,
    /// A second that is not in ASCII digits
    InvalidSecond,
    /// A millisecond that is not in ASCII digits
    InvalidMillisecond,
    /// An update that is skipped because the chapter counts differ
    CountMismatch { existing: usize, new: usize },
}

impl ChapterError {
    /// The error in words.
    pub open spec fn text(self) -> Seq<char> {
        match self {
            Self::NoChapters => "No chapters found in file"@,
            Self::NoTimestampedChapters => "No valid timestamped chapters found"@,
            Self::NoMp4BoxChapters => "No chapters found in MP4Box format"@,
            Self::NoTocChapters => "No chapters found in EPUB table of contents"@,
            Self::InvalidNumber => "Invalid chapter number"@,
            Self::InvalidHour => "Invalid hour"@,
            Self::InvalidMinute => "Invalid minute"@,
            Self::InvalidSecond => "Invalid second"@,
            Self::InvalidMillisecond => "Invalid millisecond"@,
            Self::CountMismatch { existing, new } => "Chapter count mismatch: existing has "@
                + decimal_text(existing as nat) + ", new has "@ + decimal_text(new as nat)
                + ". Skipping update."@,
        }
    }

    /// The error in words.
    pub fn to_string(&self) -> (r: String)
        ensures
            r@ == self.text(),
    {
        let text: &'static str = match self {
            Self::NoChapters => "No chapters found in file",
            Self::NoTimestampedChapters => "No valid timestamped chapters found",
            Self::NoMp4BoxChapters => "No chapters found in MP4Box format",
            Self::NoTocChapters => "No chapters found in EPUB table of contents",
            Self::InvalidNumber => "Invalid chapter number",
            Self::InvalidHour => "Invalid hour",
            Self::InvalidMinute => "Invalid minute",
            Self::InvalidSecond => "Invalid second",
            Self::InvalidMillisecond => "Invalid millisecond",
            Self::CountMismatch { existing, new } => {
                let mut r: String = "Chapter count mismatch: existing has ".to_owned();
                r.append(to_decimal(*existing as u64).as_str());
                r.append(", new has ");
                r.append(to_decimal(*new as u64).as_str());
                r.append(". Skipping update.");
                return r;
            },
        };
        text.to_owned()
    }
}

} // verus!
