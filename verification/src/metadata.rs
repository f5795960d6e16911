//! The decisions of the metadata command.
use crate::chapter::{ChapterMergeStrategy, ChapterSource};
use crate::files::{extension_of, extension_text};
use crate::text::{decimal_text, same_text, texts, to_decimal};
use std::path::PathBuf;
use vstd::prelude::*;

verus! {

// ---------------------------------------------------------------------------
// Errors
// ---------------------------------------------------------------------------

/// Why a metadata command cannot go on
#[derive(Debug)]
pub enum MetadataError {
    /// The file to enrich does not exist
    FileMissing,
    /// No merge strategy has the name
    InvalidStrategy(String),
    /// Only chapters are to be updated, and none are given
    NoChapterSource,
    /// No ASIN is given, nor is one to be detected
    NoAsin,
    /// The name of the file holds no ASIN
    AsinNotDetected,
    /// Nothing to search for is given
    NoQuery,
    /// A search found nothing
    NoResults,
}

impl MetadataError {
    /// The message of the error.
    pub open spec fn text(self) -> Seq<char> {
        match self {
            Self::FileMissing => "File does not exist"@,
            Self::InvalidStrategy(name) => "Invalid merge strategy: "@ + name@
                + ". Valid options: keep-timestamps, replace-all, skip-on-mismatch, interactive"@,
            Self::NoChapterSource =>
                "--update-chapters-only specified but no chapter source provided (use --chapters or --chapters-asin)"@,
            Self::NoAsin => "Must provide --asin or use --auto-detect"@,
            Self::AsinNotDetected => "Could not detect ASIN from filename"@,
            Self::NoQuery => "Must provide --asin or --title/--author"@,
            Self::NoResults => "No results found for search query"@,
        }
    }

    /// The message of the error.
    pub fn to_string(&self) -> (r: String)
        ensures
            r@ == self.text(),
    {
        let text: &'static str = match self {
            Self::FileMissing => "File does not exist",
            Self::InvalidStrategy(name) => {
                let mut r: String = "Invalid merge strategy: ".to_owned();
                r.append(name.as_str());
                r.append(
                    ". Valid options: keep-timestamps, replace-all, skip-on-mismatch, interactive",
                );
                return r;
            },
            Self::NoChapterSource =>
                "--update-chapters-only specified but no chapter source provided (use --chapters or --chapters-asin)",
            Self::NoAsin => "Must provide --asin or use --auto-detect",
            Self::AsinNotDetected => "Could not detect ASIN from filename",
            Self::NoQuery => "Must provide --asin or --title/--author",
            Self::NoResults => "No results found for search query",
        };
        text.to_owned()
    }
}

// ---------------------------------------------------------------------------
// Fetch
// ---------------------------------------------------------------------------

/// What to fetch
pub enum FetchQuery {
    /// The book with an ASIN
    Asin(String),
    /// The first book that a search finds
    Search { title: Option<String>, author: Option<String> },
}

/// What the arguments of a fetch ask for.
pub open spec fn query_of(
    asin: Option<String>,
    title: Option<String>,
    author: Option<String>,
) -> Result<FetchQuery, MetadataError> {
    if asin is Some {
        Ok(FetchQuery::Asin(asin->0))
    } else if title is None && author is None {
        Err(MetadataError::NoQuery)
    } else {
        Ok(FetchQuery::Search { title, author })
    }
}

/// What the arguments of a fetch ask for: an ASIN goes before a search
pub fn fetch_query(asin: Option<String>, title: Option<String>, author: Option<String>) -> (r:
    Result<FetchQuery, MetadataError>)
    ensures
        match asin {
            Some(a) => r == Ok::<FetchQuery, MetadataError>(FetchQuery::Asin(a)),
            None => if title is Some || author is Some {
                r == Ok::<FetchQuery, MetadataError>(FetchQuery::Search { title, author })
            } else {
                r == Err::<FetchQuery, MetadataError>(MetadataError::NoQuery)
            },
        },
        r == query_of(asin, title, author),
{
    match asin {
        Some(a) => Ok(FetchQuery::Asin(a)),
        None => if title.is_some() || author.is_some() {
            Ok(FetchQuery::Search { title, author })
        } else {
            Err(MetadataError::NoQuery)
        },
    }
}

/// How many results of a search are shown.
pub const SHOWN_RESULTS: usize = 5;

/// The book to fetch of those that a search found: the first
pub fn first_result(asins: &[String]) -> (r: Result<String, MetadataError>)
    ensures
        match r {
            Ok(asin) => asins@.len() > 0 && asin == asins@[0],
            Err(e) => asins@.len() == 0 && e == MetadataError::NoResults,
        },
{
    if asins.len() == 0 {
        Err(MetadataError::NoResults)
    } else {
        Ok(asins[0].clone())
    }
}

// ---------------------------------------------------------------------------
// Display
// ---------------------------------------------------------------------------

/// People credited with a book
pub struct Credits {
    /// How many they are
    pub count: usize,
    /// Their names in one text
    pub names: String,
}

/// A series that a book belongs to
pub struct SeriesEntry {
    pub name: String,
    /// The place of the book in it
    pub sequence: Option<String>,
}

/// The metadata of a book as it is shown
pub struct BookDetails {
    pub title: String,
    pub subtitle: Option<String>,
    pub authors: Credits,
    pub narrators: Credits,
    pub publisher: Option<String>,
    pub published_year: Option<u32>,
    pub runtime_minutes: Option<u64>,
    pub language: Option<String>,
    pub genres: Vec<String>,
    pub series: Vec<SeriesEntry>,
    pub asin: String,
}

/// A line of the display
pub struct DetailLine {
    pub label: String,
    pub text: String,
}

/// The lines of a display as mathematical values.
pub open spec fn line_models(lines: Seq<DetailLine>) -> Seq<(Seq<char>, Seq<char>)> {
    lines.map_values(|l: DetailLine| (l.label@, l.text@))
}

/// Lines, with one more if there is a text for it.
pub open spec fn with_optional(
    lines: Seq<(Seq<char>, Seq<char>)>,
    label: Seq<char>,
    text: Option<String>,
) -> Seq<(Seq<char>, Seq<char>)> {
    match text {
        Some(t) => lines.push((label, t@)),
        None => lines,
    }
}

/// Lines, with one more if anybody is credited.
pub open spec fn with_credits(
    lines: Seq<(Seq<char>, Seq<char>)>,
    label: Seq<char>,
    credits: Credits,
) -> Seq<(Seq<char>, Seq<char>)> {
    if credits.count > 0 {
        lines.push((label, credits.names@))
    } else {
        lines
    }
}

/// A duration in hours and minutes.
pub open spec fn duration_text(minutes: nat) -> Seq<char> {
    decimal_text(minutes / 60) + "h "@ + decimal_text(minutes % 60) + "m"@
}

/// Texts with a comma between them.
pub open spec fn comma_separated(items: Seq<Seq<char>>) -> Seq<char>
    decreases items.len(),
{
    if items.len() == 0 {
        Seq::empty()
    } else if items.len() == 1 {
        items[0]
    } else {
        comma_separated(items.drop_last()) + ", "@ + items.last()
    }
}

/// A series, with the place of the book in it where that is known.
pub open spec fn series_text(entry: SeriesEntry) -> Seq<char> {
    match entry.sequence {
        Some(s) => entry.name@ + " (Book "@ + s@ + ")"@,
        None => entry.name@,
    }
}

/// Lines, with one more for every series.
pub open spec fn with_series(
    lines: Seq<(Seq<char>, Seq<char>)>,
    series: Seq<SeriesEntry>,
) -> Seq<(Seq<char>, Seq<char>)> {
    lines + series.map_values(|s: SeriesEntry| ("Series"@, series_text(s)))
}

/// The lines that show a book: what is not known has no line.
pub open spec fn detail_lines(d: BookDetails) -> Seq<(Seq<char>, Seq<char>)> {
    let lines = seq![("Title"@, d.title@)];
    let lines = with_optional(lines, "Subtitle"@, d.subtitle);
    let lines = with_credits(lines, "Author(s)"@, d.authors);
    let lines = with_credits(lines, "Narrator(s)"@, d.narrators);
    let lines = with_optional(lines, "Publisher"@, d.publisher);
    let lines = match d.published_year {
        Some(year) => lines.push(("Published"@, decimal_text(year as nat))),
        None => lines,
    };
    let lines = match d.runtime_minutes {
        Some(minutes) => lines.push(("Duration"@, duration_text(minutes as nat))),
        None => lines,
    };
    let lines = with_optional(lines, "Language"@, d.language);
    let lines = if d.genres@.len() > 0 {
        lines.push(("Genres"@, comma_separated(texts(d.genres@))))
    } else {
        lines
    };
    with_series(lines, d.series@).push(("ASIN"@, d.asin@))
}

fn push_line(lines: &mut Vec<DetailLine>, label: &str, text: &str)
    ensures
        line_models(final(lines)@) == line_models(old(lines)@).push((label@, text@)),
{
    let ghost before = lines@;
    lines.push(DetailLine { label: label.to_owned(), text: text.to_owned() });
    proof {
        assert(line_models(lines@) =~= line_models(before).push((label@, text@)));
    }
}

fn push_optional(lines: &mut Vec<DetailLine>, label: &str, text: &Option<String>)
    ensures
        line_models(final(lines)@) == with_optional(line_models(old(lines)@), label@, *text),
{
    match text {
        Some(t) => push_line(lines, label, t.as_str()),
        None => {},
    }
}

fn push_credits(lines: &mut Vec<DetailLine>, label: &str, credits: &Credits)
    ensures
        line_models(final(lines)@) == with_credits(line_models(old(lines)@), label@, *credits),
{
    if credits.count > 0 {
        push_line(lines, label, credits.names.as_str());
    }
}

fn write_duration(minutes: u64) -> (r: String)
    ensures
        r@ == duration_text(minutes as nat),
{
    let mut r: String = to_decimal(minutes / 60);
    r.append("h ");
    r.append(to_decimal(minutes % 60).as_str());
    r.append("m");
    r
}

fn separate_by_commas(items: &Vec<String>) -> (r: String)
    ensures
        r@ == comma_separated(texts(items@)),
{
    let mut r: String = "".to_owned();
    let mut i: usize = 0;
    proof {
        reveal_strlit("");
        assert(r@ =~= Seq::<char>::empty());
    }
    while i < items.len()
        invariant
            i <= items.len(),
            r@ == comma_separated(texts(items@).take(i as int)),
        decreases items.len() - i,
    {
        let ghost before = r@;
        proof {
            let next = texts(items@).take(i + 1);
            assert(next.drop_last() =~= texts(items@).take(i as int));
            assert(next.last() == items@[i as int]@);
        }
        if i > 0 {
            r.append(", ");
        }
        r.append(items[i].as_str());
        proof {
            if i == 0 {
                assert(r@ =~= items@[0]@);
            }
        }
        i = i + 1;
    }
    assert(texts(items@).take(items@.len() as int) =~= texts(items@));
    r
}

fn write_series(entry: &SeriesEntry) -> (r: String)
    ensures
        r@ == series_text(*entry),
{
    let mut r: String = entry.name.clone();
    match &entry.sequence {
        Some(s) => {
            r.append(" (Book ");
            r.append(s.as_str());
            r.append(")");
        },
        None => {},
    }
    r
}

/// The lines that show a book
pub fn display_lines(details: &BookDetails) -> (r: Vec<DetailLine>)
    ensures
        line_models(r@) == detail_lines(*details),
{
    let mut lines: Vec<DetailLine> = Vec::new();
    push_line(&mut lines, "Title", details.title.as_str());
    proof {
        assert(line_models(lines@) =~= seq![("Title"@, details.title@)]);
    }
    push_optional(&mut lines, "Subtitle", &details.subtitle);
    push_credits(&mut lines, "Author(s)", &details.authors);
    push_credits(&mut lines, "Narrator(s)", &details.narrators);
    push_optional(&mut lines, "Publisher", &details.publisher);
    match details.published_year {
        Some(year) => push_line(&mut lines, "Published", to_decimal(year as u64).as_str()),
        None => {},
    }
    match details.runtime_minutes {
        Some(minutes) => push_line(&mut lines, "Duration", write_duration(minutes).as_str()),
        None => {},
    }
    push_optional(&mut lines, "Language", &details.language);
    if details.genres.len() > 0 {
        push_line(&mut lines, "Genres", separate_by_commas(&details.genres).as_str());
    }
    let ghost head = line_models(lines@);
    let mut i: usize = 0;
    proof {
        assert(with_series(head, details.series@.take(0)) =~= head);
    }
    while i < details.series.len()
        invariant
            i <= details.series.len(),
            line_models(lines@) == with_series(head, details.series@.take(i as int)),
        decreases details.series.len() - i,
    {
        let ghost before = line_models(lines@);
        push_line(&mut lines, "Series", write_series(&details.series[i]).as_str());
        proof {
            assert(line_models(lines@) =~= with_series(head, details.series@.take(i + 1)));
        }
        i = i + 1;
    }
    assert(details.series@.take(details.series@.len() as int) =~= details.series@);
    push_line(&mut lines, "ASIN", details.asin.as_str());
    lines
}

// ---------------------------------------------------------------------------
// Enrich
// ---------------------------------------------------------------------------

/// The name of a merge strategy on the command line.
pub open spec fn strategy_name(strategy: ChapterMergeStrategy) -> Seq<char> {
    match strategy {
        ChapterMergeStrategy::KeepTimestamps => "keep-timestamps"@,
        ChapterMergeStrategy::ReplaceAll => "replace-all"@,
        ChapterMergeStrategy::SkipOnMismatch => "skip-on-mismatch"@,
        ChapterMergeStrategy::Interactive => "interactive"@,
    }
}

/// The merge strategy with a name.
pub open spec fn strategy_named(name: Seq<char>) -> Option<ChapterMergeStrategy> {
    if name == "keep-timestamps"@ {
        Some(ChapterMergeStrategy::KeepTimestamps)
    } else if name == "replace-all"@ {
        Some(ChapterMergeStrategy::ReplaceAll)
    } else if name == "skip-on-mismatch"@ {
        Some(ChapterMergeStrategy::SkipOnMismatch)
    } else if name == "interactive"@ {
        Some(ChapterMergeStrategy::Interactive)
    } else {
        None
    }
}

/// The merge strategy with a name
pub fn parse_merge_strategy(name: &str) -> (r: Option<ChapterMergeStrategy>)
    ensures
        r == strategy_named(name@),
{
    if same_text(name, "keep-timestamps") {
        Some(ChapterMergeStrategy::KeepTimestamps)
    } else if same_text(name, "replace-all") {
        Some(ChapterMergeStrategy::ReplaceAll)
    } else if same_text(name, "skip-on-mismatch") {
        Some(ChapterMergeStrategy::SkipOnMismatch)
    } else if same_text(name, "interactive") {
        Some(ChapterMergeStrategy::Interactive)
    } else {
        None
    }
}

/// A file to read chapters from
pub struct ChapterFile {
    pub path: PathBuf,
    /// The bytes of its name
    pub name: Vec<u8>,
}

/// What the arguments of an enrichment ask for
pub struct EnrichRequest {
    /// Whether the file to enrich exists
    pub file_exists: bool,
    pub asin: Option<String>,
    /// Detect the ASIN from the name of the file
    pub auto_detect: bool,
    /// Read chapters from a file
    pub chapters: Option<ChapterFile>,
    /// Fetch chapters by ASIN
    pub chapters_asin: Option<String>,
    /// Leave the metadata alone
    pub update_chapters_only: bool,
    /// The name of the merge strategy
    pub merge_strategy: String,
}

/// What an enrichment does after the chapters
pub enum EnrichRest {
    /// Nothing: only chapters are updated
    ChaptersOnly,
    /// Enrich with the metadata of a given ASIN
    UseAsin(String),
    /// Enrich with the metadata of the ASIN in the name of the file
    DetectAsin,
    /// Report an error
    Fail(MetadataError),
}

/// What an enrichment does
pub struct EnrichPlan {
    pub strategy: ChapterMergeStrategy,
    /// Where new chapters come from, if chapters are updated
    pub source: Option<ChapterSource>,
    pub rest: EnrichRest,
}

/// The source of the chapters in a file: an EPUB book if its extension is `epub`, written so, and
/// a text otherwise.
pub open spec fn file_source(file: ChapterFile) -> ChapterSource {
    if extension_text(file.name@) == Some("epub"@) {
        ChapterSource::Epub { path: file.path }
    } else {
        ChapterSource::TextFile { path: file.path }
    }
}

/// Where the new chapters of an enrichment come from: a file goes before an ASIN.
pub open spec fn chapter_source_of(request: EnrichRequest) -> Option<ChapterSource> {
    match (request.chapters, request.chapters_asin) {
        (Some(file), _) => Some(file_source(file)),
        (None, Some(asin)) => Some(ChapterSource::Audnex { asin }),
        (None, None) => None,
    }
}

/// What an enrichment does after the chapters. Where chapters are given and no ASIN is, chapters
/// are all that is updated.
pub open spec fn rest_of(request: EnrichRequest) -> EnrichRest {
    if request.update_chapters_only {
        if chapter_source_of(request) is Some {
            EnrichRest::ChaptersOnly
        } else {
            EnrichRest::Fail(MetadataError::NoChapterSource)
        }
    } else {
        match request.asin {
            Some(asin) => EnrichRest::UseAsin(asin),
            None => if request.auto_detect {
                EnrichRest::DetectAsin
            } else if chapter_source_of(request) is Some {
                EnrichRest::ChaptersOnly
            } else {
                EnrichRest::Fail(MetadataError::NoAsin)
            },
        }
    }
}

/// What an enrichment does, or why it does nothing at all.
pub open spec fn enrich_plan(request: EnrichRequest) -> Result<EnrichPlan, MetadataError> {
    if !request.file_exists {
        Err(MetadataError::FileMissing)
    } else {
        match strategy_named(request.merge_strategy@) {
            Some(strategy) => Ok(
                EnrichPlan {
                    strategy,
                    source: chapter_source_of(request),
                    rest: rest_of(request),
                },
            ),
            None => Err(MetadataError::InvalidStrategy(request.merge_strategy)),
        }
    }
}

fn chapter_source(chapters: Option<ChapterFile>, chapters_asin: Option<String>) -> (r: Option<
    ChapterSource,
>)
    ensures
        r == match (chapters, chapters_asin) {
            (Some(file), _) => Some(file_source(file)),
            (None, Some(asin)) => Some(ChapterSource::Audnex { asin }),
            (None, None) => None,
        },
{
    match (chapters, chapters_asin) {
        (Some(file), _) => {
            let is_epub: bool = match extension_of(file.name.as_slice()) {
                Some(e) => same_text(e.as_str(), "epub"),
                None => false,
            };
            if is_epub {
                Some(ChapterSource::Epub { path: file.path })
            } else {
                Some(ChapterSource::TextFile { path: file.path })
            }
        },
        (None, Some(asin)) => Some(ChapterSource::Audnex { asin }),
        (None, None) => None,
    }
}

/// Decide what an enrichment does
pub fn plan_enrich(request: EnrichRequest) -> (r: Result<EnrichPlan, MetadataError>)
    ensures
        r == enrich_plan(request),
{
    if !request.file_exists {
        return Err(MetadataError::FileMissing);
    }
    let strategy: ChapterMergeStrategy = match parse_merge_strategy(
        request.merge_strategy.as_str(),
    ) {
        Some(s) => s,
        None => {
            return Err(MetadataError::InvalidStrategy(request.merge_strategy));
        },
    };
    let source: Option<ChapterSource> = chapter_source(request.chapters, request.chapters_asin);
    let rest: EnrichRest = if request.update_chapters_only {
        if source.is_some() {
            EnrichRest::ChaptersOnly
        } else {
            EnrichRest::Fail(MetadataError::NoChapterSource)
        }
    } else {
        match request.asin {
            Some(asin) => EnrichRest::UseAsin(asin),
            None => if request.auto_detect {
                EnrichRest::DetectAsin
            } else if source.is_some() {
                EnrichRest::ChaptersOnly
            } else {
                EnrichRest::Fail(MetadataError::NoAsin)
            },
        }
    };
    Ok(EnrichPlan { strategy, source, rest })
}

/// The ASIN that was detected in the name of a file
pub fn detected_asin(detected: Option<String>) -> (r: Result<String, MetadataError>)
    ensures
        r == match detected {
            Some(asin) => Ok::<String, MetadataError>(asin),
            None => Err::<String, MetadataError>(MetadataError::AsinNotDetected),
        },
{
    match detected {
        Some(asin) => Ok(asin),
        None => Err(MetadataError::AsinNotDetected),
    }
}

/// The address of the cover that is wanted.
pub open spec fn wanted_cover(
    download_covers: bool,
    keep_cover: bool,
    url: Option<String>,
) -> Option<String> {
    if keep_cover || !download_covers {
        None
    } else {
        url
    }
}

/// The address of the cover to download, if one is wanted: covers are to be downloaded, the
/// present one is not to be kept, and there is one
pub fn cover_to_download(download_covers: bool, keep_cover: bool, url: &Option<String>) -> (r:
    Option<String>)
    ensures
        r == if download_covers && !keep_cover {
            *url
        } else {
            None
        },
        r == wanted_cover(download_covers, keep_cover, *url),
{
    if !download_covers || keep_cover {
        return None;
    }
    match url {
        Some(u) => Some(u.clone()),
        None => None,
    }
}

/// The name of the temporary file for the chapters of a file with the given stem
pub fn chapters_file_name(stem: &str) -> (r: String)
    ensures
        r@ == "chapters_"@ + stem@ + ".txt"@,
{
    let mut r: String = "chapters_".to_owned();
    r.append(stem);
    r.append(".txt");
    r
}

/// The name of the temporary file for a cover
pub fn cover_file_name(asin: &str) -> (r: String)
    ensures
        r@ == asin@ + ".jpg"@,
{
    let mut r: String = asin.to_owned();
    r.append(".jpg");
    r
}

// ---------------------------------------------------------------------------
// Laws
// ---------------------------------------------------------------------------

/// Every merge strategy is found by its name, and no other name finds it.
pub proof fn strategies_are_found_by_name(name: Seq<char>, strategy: ChapterMergeStrategy)
    ensures
        strategy_named(name) == Some(strategy) <==> name == strategy_name(strategy),
{
    reveal_strlit("keep-timestamps");
    reveal_strlit("replace-all");
    reveal_strlit("skip-on-mismatch");
    reveal_strlit("interactive");
    assert("keep-timestamps"@.len() == 15);
    assert("replace-all"@.len() == 11 && "replace-all"@[0] == 'r');
    assert("skip-on-mismatch"@.len() == 16);
    assert("interactive"@.len() == 11 && "interactive"@[0] == 'i');
}

/// Where only chapters are to be updated, no metadata is looked up.
pub proof fn updating_chapters_only_leaves_metadata_alone(request: EnrichRequest)
    requires
        request.update_chapters_only,
        enrich_plan(request) is Ok,
    ensures
        !(enrich_plan(request)->Ok_0.rest is UseAsin),
        !(enrich_plan(request)->Ok_0.rest is DetectAsin),
{
}

/// An enrichment that can start fails later only where it was given nothing to do: neither
/// chapters nor, unless only chapters are to be updated, an ASIN.
pub proof fn an_enrichment_with_a_task_is_carried_out(request: EnrichRequest)
    requires
        enrich_plan(request) is Ok,
    ensures
        enrich_plan(request)->Ok_0.rest is Fail <==> chapter_source_of(request) is None && (
        request.update_chapters_only || request.asin is None && !request.auto_detect),
{
}

/// Nothing is done to the chapters of a file unless a source of chapters is given.
pub proof fn chapters_are_updated_only_from_a_source(request: EnrichRequest)
    requires
        enrich_plan(request) is Ok,
    ensures
        enrich_plan(request)->Ok_0.source is Some <==> request.chapters is Some
            || request.chapters_asin is Some,
{
}

/// The display of a book starts with its title and ends with its ASIN.
pub proof fn a_display_starts_with_the_title_and_ends_with_the_asin(d: BookDetails)
    ensures
        detail_lines(d).len() >= 2,
        detail_lines(d)[0] == ("Title"@, d.title@),
        detail_lines(d).last() == ("ASIN"@, d.asin@),
{
}

/// Unless only chapters are to be updated, an enrichment goes on with the metadata of exactly the
/// ASIN that is given, or, without one, with detection where that is asked for, whether chapters
/// are given too or not.
pub proof fn a_given_asin_is_used(request: EnrichRequest)
    requires
        enrich_plan(request) is Ok,
        !request.update_chapters_only,
    ensures
        request.asin is Some ==> enrich_plan(request)->Ok_0.rest is UseAsin && enrich_plan(
            request,
        )->Ok_0.rest->UseAsin_0 == request.asin->0,
        request.asin is None && request.auto_detect ==> enrich_plan(request)->Ok_0.rest
            is DetectAsin,
        request.asin is None && !request.auto_detect && (request.chapters is Some
            || request.chapters_asin is Some) ==> enrich_plan(request)->Ok_0.rest is ChaptersOnly,
        request.asin is None && !request.auto_detect && request.chapters is None
            && request.chapters_asin is None ==> enrich_plan(request)->Ok_0.rest
            == EnrichRest::Fail(MetadataError::NoAsin),
{
}

/// Where only chapters are to be updated they are, if there are any; otherwise that is an error.
pub proof fn only_chapters_are_updated_where_that_is_asked(request: EnrichRequest)
    requires
        enrich_plan(request) is Ok,
        request.update_chapters_only,
    ensures
        request.chapters is Some || request.chapters_asin is Some ==> enrich_plan(
            request,
        )->Ok_0.rest is ChaptersOnly,
        request.chapters is None && request.chapters_asin is None ==> enrich_plan(
            request,
        )->Ok_0.rest == EnrichRest::Fail(MetadataError::NoChapterSource),
{
}

/// Chapters come from the file that is given, an EPUB book or a text by its extension, or else
/// from the ASIN that is given for them.
pub proof fn chapters_come_from_where_they_are_given(request: EnrichRequest)
    requires
        enrich_plan(request) is Ok,
    ensures
        request.chapters is Some && extension_text(request.chapters->0.name@) == Some("epub"@)
            ==> enrich_plan(request)->Ok_0.source == Some(
            ChapterSource::Epub { path: request.chapters->0.path },
        ),
        request.chapters is Some && extension_text(request.chapters->0.name@) != Some("epub"@)
            ==> enrich_plan(request)->Ok_0.source == Some(
            ChapterSource::TextFile { path: request.chapters->0.path },
        ),
        request.chapters is None && request.chapters_asin is Some ==> enrich_plan(
            request,
        )->Ok_0.source == Some(ChapterSource::Audnex { asin: request.chapters_asin->0 }),
        request.chapters is None && request.chapters_asin is None ==> enrich_plan(
            request,
        )->Ok_0.source is None,
{
}

/// An enrichment starts if and only if the file exists and the strategy is one of the four; it
/// then merges by the strategy of that name.
pub proof fn an_enrichment_starts_with_a_file_and_a_strategy(request: EnrichRequest)
    ensures
        ({
            let name = request.merge_strategy@;
            let known = name == "keep-timestamps"@ || name == "replace-all"@ || name
                == "skip-on-mismatch"@ || name == "interactive"@;
            let plan = enrich_plan(request);
            &&& plan is Ok <==> request.file_exists && known
            &&& !request.file_exists ==> plan == Err::<EnrichPlan, MetadataError>(
                MetadataError::FileMissing,
            )
            &&& request.file_exists && !known ==> plan == Err::<EnrichPlan, MetadataError>(
                MetadataError::InvalidStrategy(request.merge_strategy),
            )
            &&& plan is Ok && name == "keep-timestamps"@ ==> plan->Ok_0.strategy
                == ChapterMergeStrategy::KeepTimestamps
            &&& plan is Ok && name == "replace-all"@ ==> plan->Ok_0.strategy
                == ChapterMergeStrategy::ReplaceAll
            &&& plan is Ok && name == "skip-on-mismatch"@ ==> plan->Ok_0.strategy
                == ChapterMergeStrategy::SkipOnMismatch
            &&& plan is Ok && name == "interactive"@ ==> plan->Ok_0.strategy
                == ChapterMergeStrategy::Interactive
        }),
{
    strategies_are_found_by_name(
        request.merge_strategy@,
        ChapterMergeStrategy::KeepTimestamps,
    );
    strategies_are_found_by_name(request.merge_strategy@, ChapterMergeStrategy::ReplaceAll);
    strategies_are_found_by_name(request.merge_strategy@, ChapterMergeStrategy::SkipOnMismatch);
    strategies_are_found_by_name(request.merge_strategy@, ChapterMergeStrategy::Interactive);
}

/// One line, or none.
pub open spec fn line_if(there: bool, label: Seq<char>, text: Seq<char>) -> Seq<
    (Seq<char>, Seq<char>),
> {
    if there {
        seq![(label, text)]
    } else {
        Seq::empty()
    }
}

/// A book is shown by its title, then by whatever else is known of it, in a fixed order, each
/// under its label; every series has a line of its own, and the ASIN comes last.
pub proof fn a_book_is_shown_by_what_is_known(d: BookDetails)
    ensures
        detail_lines(d) == seq![("Title"@, d.title@)] + line_if(
            d.subtitle is Some,
            "Subtitle"@,
            d.subtitle->0@,
        ) + line_if(d.authors.count > 0, "Author(s)"@, d.authors.names@) + line_if(
            d.narrators.count > 0,
            "Narrator(s)"@,
            d.narrators.names@,
        ) + line_if(d.publisher is Some, "Publisher"@, d.publisher->0@) + line_if(
            d.published_year is Some,
            "Published"@,
            decimal_text(d.published_year->0 as nat),
        ) + line_if(
            d.runtime_minutes is Some,
            "Duration"@,
            decimal_text(d.runtime_minutes->0 as nat / 60) + "h "@ + decimal_text(
                d.runtime_minutes->0 as nat % 60,
            ) + "m"@,
        ) + line_if(d.language is Some, "Language"@, d.language->0@) + line_if(
            d.genres@.len() > 0,
            "Genres"@,
            comma_separated(texts(d.genres@)),
        ) + Seq::new(
            d.series@.len(),
            |i: int|
                (
                    "Series"@,
                    if d.series@[i].sequence is Some {
                        d.series@[i].name@ + " (Book "@ + d.series@[i].sequence->0@ + ")"@
                    } else {
                        d.series@[i].name@
                    },
                ),
        ) + seq![("ASIN"@, d.asin@)],
{
    let l1 = seq![("Title"@, d.title@)];
    let l2 = with_optional(l1, "Subtitle"@, d.subtitle);
    lemma_line_if(l1, d.subtitle is Some, "Subtitle"@, d.subtitle->0@);
    let l3 = with_credits(l2, "Author(s)"@, d.authors);
    lemma_line_if(l2, d.authors.count > 0, "Author(s)"@, d.authors.names@);
    let l4 = with_credits(l3, "Narrator(s)"@, d.narrators);
    lemma_line_if(l3, d.narrators.count > 0, "Narrator(s)"@, d.narrators.names@);
    let l5 = with_optional(l4, "Publisher"@, d.publisher);
    lemma_line_if(l4, d.publisher is Some, "Publisher"@, d.publisher->0@);
    let year = decimal_text(d.published_year->0 as nat);
    let l6 = l5 + line_if(d.published_year is Some, "Published"@, year);
    lemma_line_if(l5, d.published_year is Some, "Published"@, year);
    let duration = decimal_text(d.runtime_minutes->0 as nat / 60) + "h "@ + decimal_text(
        d.runtime_minutes->0 as nat % 60,
    ) + "m"@;
    let l7 = l6 + line_if(d.runtime_minutes is Some, "Duration"@, duration);
    lemma_line_if(l6, d.runtime_minutes is Some, "Duration"@, duration);
    let l8 = with_optional(l7, "Language"@, d.language);
    lemma_line_if(l7, d.language is Some, "Language"@, d.language->0@);
    let genres = comma_separated(texts(d.genres@));
    let l9 = l8 + line_if(d.genres@.len() > 0, "Genres"@, genres);
    lemma_line_if(l8, d.genres@.len() > 0, "Genres"@, genres);
    let series = Seq::new(
        d.series@.len(),
        |i: int|
            (
                "Series"@,
                if d.series@[i].sequence is Some {
                    d.series@[i].name@ + " (Book "@ + d.series@[i].sequence->0@ + ")"@
                } else {
                    d.series@[i].name@
                },
            ),
    );
    assert(d.series@.map_values(|s: SeriesEntry| ("Series"@, series_text(s))) =~= series);
    let l10 = l9 + series;
    assert(with_series(l9, d.series@) == l10);
    lemma_line_if(l10, true, "ASIN"@, d.asin@);
}

proof fn lemma_line_if(
    lines: Seq<(Seq<char>, Seq<char>)>,
    there: bool,
    label: Seq<char>,
    text: Seq<char>,
)
    ensures
        there ==> lines.push((label, text)) == lines + line_if(there, label, text),
        !there ==> lines == lines + line_if(there, label, text),
{
    if there {
        assert(lines.push((label, text)) =~= lines + line_if(there, label, text));
    } else {
        assert(lines =~= lines + line_if(there, label, text));
    }
}

/// One more item is put behind the others with a comma and a space between them.
pub proof fn items_are_separated_by_commas(items: Seq<Seq<char>>, item: Seq<char>)
    ensures
        comma_separated(Seq::<Seq<char>>::empty()).len() == 0,
        items.len() == 0 ==> comma_separated(items.push(item)) == item,
        items.len() > 0 ==> comma_separated(items.push(item)) == comma_separated(items) + seq![
            ',',
            ' ',
        ] + item,
{
    reveal_strlit(", ");
    assert(", "@ =~= seq![',', ' ']);
    assert(items.push(item).drop_last() =~= items);
    assert(items.push(item).last() == item);
}

/// A fetch by ASIN asks for exactly that book, whatever else is given; without an ASIN the search is
/// for what is given of title and author, and with none of the three nothing can be fetched.
pub proof fn a_fetch_asks_for_what_is_given(
    asin: String,
    text: String,
    title: Option<String>,
    author: Option<String>,
)
    ensures
        query_of(Some(asin), title, author) == Ok::<FetchQuery, MetadataError>(
            FetchQuery::Asin(asin),
        ),
        query_of(None, Some(text), author) == Ok::<FetchQuery, MetadataError>(
            FetchQuery::Search { title: Some(text), author },
        ),
        query_of(None, title, Some(text)) == Ok::<FetchQuery, MetadataError>(
            FetchQuery::Search { title, author: Some(text) },
        ),
        query_of(None, None, None) == Err::<FetchQuery, MetadataError>(MetadataError::NoQuery),
{
}

/// A cover is downloaded from its address if covers are to be downloaded, and never where the present
/// one is to be kept.
pub proof fn a_kept_cover_is_not_replaced(download_covers: bool, url: Option<String>)
    ensures
        wanted_cover(true, false, url) == url,
        wanted_cover(false, false, url) is None,
        wanted_cover(download_covers, true, url) is None,
{
}

/// Of the results of a search the first five are shown.
pub proof fn five_results_are_shown(position: usize)
    ensures
        position < SHOWN_RESULTS <==> position <= 4,
{
}

} // verus!
