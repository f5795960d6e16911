//! Directory scanner for discovering audiobook folders.
use crate::config::Config;
use crate::files::{extension_of, extension_text, name_text, utf8_text, FileEntry};
use crate::text::{comma_items, lowercase, same_text, split_at_commas, texts, to_lowercase};
use std::path::PathBuf;
use vstd::prelude::*;

verus! {

// ---------------------------------------------------------------------------
// Book folders
// ---------------------------------------------------------------------------

/// What kind of audiobook a folder holds
#[derive(Debug, Clone, Copy, PartialEq, Eq, Structural)]
pub enum BookCase {
    /// Several source files
    A,
    /// One source file
    B,
    /// Finished M4B files
    C,
    /// No audiobook
    D,
    /// M4B files that are parts of one book
    E,
}

/// An audiobook folder
pub struct BookFolder {
    /// The folder
    pub path: PathBuf,
    /// Its name
    pub name: String,
    pub case: BookCase,
    /// Source files: MP3 and M4A
    pub mp3_files: Vec<PathBuf>,
    pub m4b_files: Vec<PathBuf>,
    pub cue_file: Option<PathBuf>,
    pub cover_file: Option<PathBuf>,
}

impl BookFolder {
    /// Whether the M4B files of the book are to be merged into one.
    pub fn is_mergeable(&self) -> (r: bool)
        ensures
            r == (self.case == BookCase::E),
    {
        self.case == BookCase::E
    }
}

// ---------------------------------------------------------------------------
// Files of a folder
// ---------------------------------------------------------------------------

/// What a file is to an audiobook
#[derive(Debug, Clone, Copy, PartialEq, Eq, Structural)]
pub enum FileKind {
    /// MP3 or M4A: both can be converted
    Source,
    M4b,
    Cue,
    Image,
    Other,
}

/// The kind of the files with an extension, which is in small letters.
pub open spec fn kind_of_extension(extension: Seq<char>) -> FileKind {
    if extension == "mp3"@ || extension == "m4a"@ {
        FileKind::Source
    } else if extension == "m4b"@ {
        FileKind::M4b
    } else if extension == "cue"@ {
        FileKind::Cue
    } else if extension == "jpg"@ || extension == "png"@ || extension == "jpeg"@ {
        FileKind::Image
    } else {
        FileKind::Other
    }
}

/// The kind of the file with the given name.
pub open spec fn kind_of_name(name: Seq<u8>) -> FileKind {
    match extension_text(name) {
        Some(e) => kind_of_extension(lowercase(e)),
        None => FileKind::Other,
    }
}

/// The kind of the file with the given name.
pub fn file_kind(name: &[u8]) -> (r: FileKind)
    ensures
        r == kind_of_name(name@),
{
    let ext: String = match extension_of(name) {
        Some(e) => to_lowercase(e.as_str()),
        None => {
            return FileKind::Other;
        },
    };
    let ext: &str = ext.as_str();
    if same_text(ext, "mp3") || same_text(ext, "m4a") {
        FileKind::Source
    } else if same_text(ext, "m4b") {
        FileKind::M4b
    } else if same_text(ext, "cue") {
        FileKind::Cue
    } else if same_text(ext, "jpg") || same_text(ext, "png") || same_text(ext, "jpeg") {
        FileKind::Image
    } else {
        FileKind::Other
    }
}

/// Whether an entry is a file of the given kind.
pub open spec fn file_of_kind(entry: FileEntry, kind: FileKind) -> bool {
    entry.is_file && kind_of_name(entry.name@) == kind
}

/// The paths of the files of a kind, in the order of the entries.
pub open spec fn paths_of_kind(entries: Seq<FileEntry>, kind: FileKind) -> Seq<PathBuf>
    decreases entries.len(),
{
    if entries.len() == 0 {
        Seq::empty()
    } else {
        let before = paths_of_kind(entries.drop_last(), kind);
        if file_of_kind(entries.last(), kind) {
            before.push(entries.last().path)
        } else {
            before
        }
    }
}

/// The last cue sheet among the entries.
pub open spec fn last_cue(entries: Seq<FileEntry>) -> Option<PathBuf> {
    let cues = paths_of_kind(entries, FileKind::Cue);
    if cues.len() == 0 {
        None
    } else {
        Some(cues.last())
    }
}

/// Whether a name is one of the cover art names, capital and small letters taken alike.
pub open spec fn cover_name(name: Seq<u8>, covers: Seq<Seq<char>>) -> bool {
    name_text(name) matches Some(t) && exists|i: int|
        0 <= i < covers.len() && lowercase(#[trigger] covers[i]) == lowercase(t)
}

/// Whether an entry is a cover picture.
pub open spec fn cover_file(entry: FileEntry, covers: Seq<Seq<char>>) -> bool {
    file_of_kind(entry, FileKind::Image) && cover_name(entry.name@, covers)
}

/// The first cover picture among the entries.
pub open spec fn first_cover(entries: Seq<FileEntry>, covers: Seq<Seq<char>>) -> Option<PathBuf>
    decreases entries.len(),
{
    if entries.len() == 0 {
        None
    } else if first_cover(entries.drop_last(), covers) is Some {
        first_cover(entries.drop_last(), covers)
    } else if cover_file(entries.last(), covers) {
        Some(entries.last().path)
    } else {
        None
    }
}

/// The files of a folder that matter to an audiobook
pub struct FolderFiles {
    pub mp3_files: Vec<PathBuf>,
    pub m4b_files: Vec<PathBuf>,
    pub cue_file: Option<PathBuf>,
    pub cover_file: Option<PathBuf>,
}

// ---------------------------------------------------------------------------
// Errors and outcomes
// ---------------------------------------------------------------------------

/// Why a scan failed
#[derive(Debug, Clone, Copy, PartialEq, Eq, Structural)]
pub enum ScanError {
    /// The directory does not exist
    Missing,
    /// The path is not a directory
    NotADirectory,
    /// The directory cannot be read
    Unreadable,
    /// An entry of the directory cannot be read
    EntryUnreadable,
    /// The directory holds no audiobook
    NotAnAudiobook,
}

impl ScanError {
    /// The message of the error.
    pub open spec fn text(self) -> Seq<char> {
        match self {
            Self::Missing => "Directory does not exist"@,
            Self::NotADirectory => "Path is not a directory"@,
            Self::Unreadable => "Failed to read directory"@,
            Self::EntryUnreadable => "Failed to read directory entry"@,
            Self::NotAnAudiobook => "Current directory does not contain valid audiobook files"@,
        }
    }

    /// The message of the error.
    pub fn to_string(&self) -> (r: String)
        ensures
            r@ == self.text(),
    {
        let text: &'static str = match self {
            Self::Missing => "Directory does not exist",
            Self::NotADirectory => "Path is not a directory",
            Self::Unreadable => "Failed to read directory",
            Self::EntryUnreadable => "Failed to read directory entry",
            Self::NotAnAudiobook => "Current directory does not contain valid audiobook files",
        };
        text.to_owned()
    }
}

/// What stands at a path
#[derive(Debug, Clone, Copy, PartialEq, Eq, Structural)]
pub enum PathKind {
    Missing,
    NotADirectory,
    Directory,
}

/// How the extraction of embedded cover art ended
#[derive(Debug, Clone, Copy, PartialEq, Eq, Structural)]
pub enum CoverExtraction {
    /// A cover was written
    Extracted,
    /// The file holds no cover
    NotFound,
    Failed,
}

/// A step of the walk through a library
pub enum Visit {
    /// The walk, or the scan of a folder, failed
    Failed(ScanError),
    /// A folder was reached
    Folder {
        /// The bytes of its name
        name: Vec<u8>,
        /// The audiobook in it
        book: Option<BookFolder>,
    },
}

/// Whether a name is that of a hidden directory: it starts with a full stop.
pub open spec fn hidden_name(name: Seq<u8>) -> bool {
    name_text(name) matches Some(t) && t.len() > 0 && t[0] == '.'
}

/// What a walk has found: the books of the folders that are not hidden, in order, unless a step
/// failed.
pub open spec fn walked(visits: Seq<Visit>) -> Result<Seq<BookFolder>, ScanError>
    decreases visits.len(),
{
    if visits.len() == 0 {
        Ok(Seq::empty())
    } else {
        match walked(visits.drop_last()) {
            Err(e) => Err(e),
            Ok(books) => match visits.last() {
                Visit::Failed(e) => Err(e),
                Visit::Folder { name, book } => match book {
                    Some(b) => if hidden_name(name@) {
                        Ok(books)
                    } else {
                        Ok(books.push(b))
                    },
                    None => Ok(books),
                },
            },
        }
    }
}

/// The error of a scan whose root is not a directory.
pub open spec fn root_error(kind: PathKind) -> Option<ScanError> {
    match kind {
        PathKind::Missing => Some(ScanError::Missing),
        PathKind::NotADirectory => Some(ScanError::NotADirectory),
        PathKind::Directory => None,
    }
}

fn check_root(kind: PathKind) -> (r: Result<(), ScanError>)
    ensures
        match r {
            Ok(_) => root_error(kind) is None,
            Err(e) => root_error(kind) == Some(e),
        },
{
    match kind {
        PathKind::Missing => Err(ScanError::Missing),
        PathKind::NotADirectory => Err(ScanError::NotADirectory),
        PathKind::Directory => Ok(()),
    }
}

/// What a book folder is once it has been found: the files in their places.
pub open spec fn assembled(
    path: PathBuf,
    name: String,
    files: FolderFiles,
    case: BookCase,
) -> BookFolder {
    BookFolder {
        path,
        name,
        case,
        mp3_files: files.mp3_files,
        m4b_files: files.m4b_files,
        cue_file: files.cue_file,
        cover_file: files.cover_file,
    }
}

/// The audiobook in a folder, if its case is that of one.
pub open spec fn book_of(
    path: PathBuf,
    name: String,
    files: FolderFiles,
    case: BookCase,
) -> Option<BookFolder> {
    if case == BookCase::D {
        None
    } else {
        Some(assembled(path, name, files, case))
    }
}

/// The audio file from which to extract a cover: the first source file, or else the first M4B
/// file, of a book without cover art.
pub open spec fn extraction_source(extract: bool, book: BookFolder) -> Option<PathBuf> {
    if !extract || book.cover_file is Some {
        None
    } else if book.mp3_files@.len() > 0 {
        Some(book.mp3_files@[0])
    } else if book.m4b_files@.len() > 0 {
        Some(book.m4b_files@[0])
    } else {
        None
    }
}

// ---------------------------------------------------------------------------
// Scanner
// ---------------------------------------------------------------------------

/// The least depth below the root at which a folder is looked at.
pub const MIN_DEPTH: usize = 1;

/// The greatest depth below the root at which a folder is looked at.
pub const MAX_DEPTH: usize = 2;

/// Scanner for discovering audiobook folders in a directory tree
pub struct Scanner {
    /// Cover art filenames to search for
    pub cover_filenames: Vec<String>,
    /// Auto-extract embedded cover art
    pub auto_extract_cover: bool,
}

fn copy_texts(v: &Vec<String>) -> (r: Vec<String>)
    ensures
        texts(r@) == texts(v@),
{
    let mut r: Vec<String> = Vec::new();
    let mut i: usize = 0;
    while i < v.len()
        invariant
            i <= v.len(),
            texts(r@) == texts(v@).take(i as int),
        decreases v.len() - i,
    {
        let ghost before = r@;
        r.push(v[i].clone());
        proof {
            assert(texts(r@) =~= texts(before).push(v@[i as int]@));
            assert(texts(v@).take(i + 1) =~= texts(v@).take(i as int).push(v@[i as int]@));
        }
        i = i + 1;
    }
    assert(texts(v@).take(v@.len() as int) =~= texts(v@));
    r
}

impl Scanner {
    /// The cover art filenames.
    pub open spec fn covers(self) -> Seq<Seq<char>> {
        texts(self.cover_filenames@)
    }

    /// Create a new scanner with default cover filenames
    pub fn new() -> (r: Self)
        ensures
            r.covers() == seq!["cover.jpg"@, "folder.jpg"@, "cover.png"@, "folder.png"@],
            r.auto_extract_cover,
    {
        let mut cover_filenames: Vec<String> = Vec::new();
        cover_filenames.push("cover.jpg".to_owned());
        cover_filenames.push("folder.jpg".to_owned());
        cover_filenames.push("cover.png".to_owned());
        cover_filenames.push("folder.png".to_owned());
        proof {
            assert(texts(cover_filenames@) =~= seq![
                "cover.jpg"@,
                "folder.jpg"@,
                "cover.png"@,
                "folder.png"@,
            ]);
        }
        Scanner { cover_filenames, auto_extract_cover: true }
    }

    /// Create scanner with custom cover filenames
    pub fn with_cover_filenames(cover_filenames: Vec<String>) -> (r: Self)
        ensures
            r.cover_filenames == cover_filenames,
            r.auto_extract_cover,
    {
        Scanner { cover_filenames, auto_extract_cover: true }
    }

    /// Create scanner from config
    pub fn from_config(config: &Config) -> (r: Self)
        ensures
            r.covers() == texts(config.metadata.cover_filenames@),
            r.auto_extract_cover == config.metadata.auto_extract_cover,
    {
        Scanner {
            cover_filenames: copy_texts(&config.metadata.cover_filenames),
            auto_extract_cover: config.metadata.auto_extract_cover,
        }
    }

    /// Create the scanner for a run: as the config says, but that cover art filenames on the
    /// command line go before those of the config, and that a dry run writes no cover art
    pub fn for_run(config: &Config, cover_names: &Option<String>, dry_run: bool) -> (r: Self)
        ensures
            r.covers() == match cover_names {
                Some(list) => comma_items(list@),
                None => texts(config.metadata.cover_filenames@),
            },
            r.auto_extract_cover == (config.metadata.auto_extract_cover && !dry_run),
            dry_run ==> forall|book: BookFolder|
                #[trigger] extraction_source(r.auto_extract_cover, book) is None,
    {
        let scanner: Scanner = Scanner::from_config(config);
        Scanner {
            auto_extract_cover: scanner.auto_extract_cover && !dry_run,
            cover_filenames: match cover_names {
                Some(list) => split_at_commas(list.as_str()),
                None => scanner.cover_filenames,
            },
        }
    }

    /// Check if a name is hidden (starts with .)
    pub fn is_hidden(&self, name: &[u8]) -> (r: bool)
        ensures
            r == hidden_name(name@),
    {
        match utf8_text(name) {
            Some(text) => {
                let text: &str = text.as_str();
                text.unicode_len() > 0 && text.get_char(0) == '.'
            },
            None => false,
        }
    }

    /// Check if a file is cover art based on filename
    pub fn is_cover_art(&self, name: &[u8]) -> (r: bool)
        ensures
            r == cover_name(name@, self.covers()),
    {
        let lower: String = match utf8_text(name) {
            Some(text) => to_lowercase(text.as_str()),
            None => {
                return false;
            },
        };
        let mut i: usize = 0;
        while i < self.cover_filenames.len()
            invariant
                i <= self.cover_filenames.len(),
                name_text(name@) matches Some(t) && lower@ == lowercase(t),
                forall|k: int| 0 <= k < i ==> lowercase(#[trigger] self.covers()[k]) != lower@,
            decreases self.cover_filenames.len() - i,
        {
            let cover: String = to_lowercase(self.cover_filenames[i].as_str());
            assert(self.covers()[i as int] == self.cover_filenames@[i as int]@);
            if same_text(cover.as_str(), lower.as_str()) {
                return true;
            }
            i = i + 1;
        }
        false
    }

    /// Find the files of a folder that matter to an audiobook
    pub fn find_files(&self, entries: &[FileEntry]) -> (r: FolderFiles)
        ensures
            r.mp3_files@ == paths_of_kind(entries@, FileKind::Source),
            r.m4b_files@ == paths_of_kind(entries@, FileKind::M4b),
            r.cue_file == last_cue(entries@),
            r.cover_file == first_cover(entries@, self.covers()),
    {
        let mut mp3_files: Vec<PathBuf> = Vec::new();
        let mut m4b_files: Vec<PathBuf> = Vec::new();
        let mut cue_file: Option<PathBuf> = None;
        let mut cover_file: Option<PathBuf> = None;
        let mut i: usize = 0;
        while i < entries.len()
            invariant
                i <= entries.len(),
                mp3_files@ == paths_of_kind(entries@.take(i as int), FileKind::Source),
                m4b_files@ == paths_of_kind(entries@.take(i as int), FileKind::M4b),
                cue_file == last_cue(entries@.take(i as int)),
                cover_file == first_cover(entries@.take(i as int), self.covers()),
            decreases entries.len() - i,
        {
            let entry: &FileEntry = &entries[i];
            proof {
                assert(entries@.take(i + 1).drop_last() =~= entries@.take(i as int));
                assert(entries@.take(i + 1).last() == entry);
            }
            i = i + 1;
            if !entry.is_file {
                continue;
            }
            match file_kind(entry.name.as_slice()) {
                FileKind::Source => {
                    mp3_files.push(entry.path.clone());
                },
                FileKind::M4b => {
                    m4b_files.push(entry.path.clone());
                },
                FileKind::Cue => {
                    cue_file = Some(entry.path.clone());
                },
                FileKind::Image => {
                    if cover_file.is_none() && self.is_cover_art(entry.name.as_slice()) {
                        cover_file = Some(entry.path.clone());
                    }
                },
                FileKind::Other => {},
            }
        }
        assert(entries@.take(entries@.len() as int) =~= entries@);
        FolderFiles { mp3_files, m4b_files, cue_file, cover_file }
    }

    /// Scan a single folder and determine if it's an audiobook: any case but D is one
    pub fn scan_folder(
        &self,
        path: PathBuf,
        name: String,
        files: FolderFiles,
        case: BookCase,
    ) -> (r: Option<BookFolder>)
        ensures
            match r {
                Some(b) => case != BookCase::D && b == assembled(path, name, files, case),
                None => case == BookCase::D,
            },
            r == book_of(path, name, files, case),
    {
        match case {
            BookCase::A | BookCase::B | BookCase::C | BookCase::E => Some(
                BookFolder {
                    path,
                    name,
                    case,
                    mp3_files: files.mp3_files,
                    m4b_files: files.m4b_files,
                    cue_file: files.cue_file,
                    cover_file: files.cover_file,
                },
            ),
            BookCase::D => None,
        }
    }

    /// The audio file from which to extract embedded cover art, if there is need for it
    pub fn cover_source(&self, book: &BookFolder) -> (r: Option<PathBuf>)
        ensures
            r == extraction_source(self.auto_extract_cover, *book),
    {
        if !self.auto_extract_cover || book.cover_file.is_some() {
            None
        } else if book.mp3_files.len() > 0 {
            Some(book.mp3_files[0].clone())
        } else if book.m4b_files.len() > 0 {
            Some(book.m4b_files[0].clone())
        } else {
            None
        }
    }

    /// Scan a directory for audiobook folders
    pub fn scan_directory(&self, root: PathKind, visits: Vec<Visit>) -> (r: Result<
        Vec<BookFolder>,
        ScanError,
    >)
        ensures
            match r {
                Ok(books) => root_error(root) is None && walked(visits@) == Ok::<
                    Seq<BookFolder>,
                    ScanError,
                >(books@),
                Err(e) => root_error(root) == Some(e) || root_error(root) is None && walked(
                    visits@,
                ) == Err::<Seq<BookFolder>, ScanError>(e),
            },
    {
        match check_root(root) {
            Ok(_) => {},
            Err(e) => {
                return Err(e);
            },
        }
        let ghost all = visits@;
        let mut books: Vec<BookFolder> = Vec::new();
        for visit in it: visits
            invariant
                it.seq() == all,
                root_error(root) is None,
                walked(all.take(it.index() as int)) == Ok::<Seq<BookFolder>, ScanError>(books@),
        {
            proof {
                let i = it.index() as int;
                assert(all.take(i + 1).drop_last() =~= all.take(i));
                assert(all.take(i + 1).last() == visit);
            }
            match visit {
                Visit::Failed(e) => {
                    proof {
                        lemma_first_failure(all, it.index() as int + 1, e);
                    }
                    return Err(e);
                },
                Visit::Folder { name, book } => {
                    if !self.is_hidden(name.as_slice()) {
                        match book {
                            Some(b) => {
                                books.push(b);
                            },
                            None => {},
                        }
                    }
                },
            }
        }
        assert(all.take(all.len() as int) =~= all);
        Ok(books)
    }

    /// Scan a single directory as an audiobook folder (for auto-detect mode)
    pub fn scan_single_directory(
        &self,
        kind: PathKind,
        scan: Result<Option<BookFolder>, ScanError>,
    ) -> (r: Result<BookFolder, ScanError>)
        ensures
            match root_error(kind) {
                Some(e) => r == Err::<BookFolder, ScanError>(e),
                None => match scan {
                    Err(e) => r == Err::<BookFolder, ScanError>(e),
                    Ok(None) => r == Err::<BookFolder, ScanError>(ScanError::NotAnAudiobook),
                    Ok(Some(b)) => r == Ok::<BookFolder, ScanError>(b),
                },
            },
            r == single_scan(kind, scan),
    {
        match check_root(kind) {
            Ok(_) => {},
            Err(e) => {
                return Err(e);
            },
        }
        match scan {
            Err(e) => Err(e),
            Ok(None) => Err(ScanError::NotAnAudiobook),
            Ok(Some(b)) => Ok(b),
        }
    }
}

/// The result of a scan of one directory: that of the directory itself goes first.
pub open spec fn single_scan(
    kind: PathKind,
    scan: Result<Option<BookFolder>, ScanError>,
) -> Result<BookFolder, ScanError> {
    if root_error(kind) is Some {
        Err(root_error(kind)->0)
    } else if scan is Err {
        Err(scan->Err_0)
    } else if scan->Ok_0 is Some {
        Ok(scan->Ok_0->0)
    } else {
        Err(ScanError::NotAnAudiobook)
    }
}

/// A book with its files in order.
pub open spec fn sorted_book(
    book: BookFolder,
    naturally_sorted: Vec<PathBuf>,
    sorted_by_part: Vec<PathBuf>,
) -> BookFolder {
    if book.case == BookCase::E {
        BookFolder { mp3_files: naturally_sorted, m4b_files: sorted_by_part, ..book }
    } else {
        BookFolder { mp3_files: naturally_sorted, ..book }
    }
}

/// A book after an attempt to extract its cover.
pub open spec fn covered_book(
    book: BookFolder,
    cover: PathBuf,
    extraction: CoverExtraction,
) -> BookFolder {
    if extraction == CoverExtraction::Extracted {
        BookFolder { cover_file: Some(cover), ..book }
    } else {
        book
    }
}

/// The book with its files in order: the source files sorted naturally, and the M4B files sorted by
/// part number where they are parts of one book, else as they were found
pub fn with_sorted_files(
    book: BookFolder,
    naturally_sorted: Vec<PathBuf>,
    sorted_by_part: Vec<PathBuf>,
) -> (r: BookFolder)
    ensures
        r == (BookFolder {
            mp3_files: naturally_sorted,
            m4b_files: if book.case == BookCase::E {
                sorted_by_part
            } else {
                book.m4b_files
            },
            ..book
        }),
        r == sorted_book(book, naturally_sorted, sorted_by_part),
{
    if book.is_mergeable() {
        BookFolder { mp3_files: naturally_sorted, m4b_files: sorted_by_part, ..book }
    } else {
        BookFolder { mp3_files: naturally_sorted, ..book }
    }
}

/// The book after an attempt to extract its cover to the given path
pub fn with_extracted_cover(book: BookFolder, cover: PathBuf, extraction: CoverExtraction) -> (r:
    BookFolder)
    ensures
        r == (BookFolder {
            cover_file: if extraction == CoverExtraction::Extracted {
                Some(cover)
            } else {
                book.cover_file
            },
            ..book
        }),
        r == covered_book(book, cover, extraction),
{
    match extraction {
        CoverExtraction::Extracted => BookFolder { cover_file: Some(cover), ..book },
        CoverExtraction::NotFound | CoverExtraction::Failed => book,
    }
}

impl Default for Scanner {
    fn default() -> (r: Self)
        ensures
            r.covers() == seq!["cover.jpg"@, "folder.jpg"@, "cover.png"@, "folder.png"@],
            r.auto_extract_cover,
    {
        Scanner::new()
    }
}

/// A walk that failed at some step failed as a whole.
proof fn lemma_first_failure(visits: Seq<Visit>, n: int, e: ScanError)
    requires
        0 <= n <= visits.len(),
        walked(visits.take(n)) == Err::<Seq<BookFolder>, ScanError>(e),
    ensures
        walked(visits) == Err::<Seq<BookFolder>, ScanError>(e),
    decreases visits.len() - n,
{
    if n == visits.len() {
        assert(visits.take(n) =~= visits);
    } else {
        assert(visits.take(n + 1).drop_last() =~= visits.take(n));
        lemma_first_failure(visits, n + 1, e);
    }
}

// ---------------------------------------------------------------------------
// Laws
// ---------------------------------------------------------------------------

/// Whether a step reached a folder that is not hidden and holds the book.
pub open spec fn visit_finds(visit: Visit, book: BookFolder) -> bool {
    visit matches Visit::Folder { name, book: found } && !hidden_name(name@) && found == Some(book)
}

/// Every book of a walk comes from a folder that is not hidden, and every such folder's book is
/// found: hidden directories are skipped and nothing else is.
pub proof fn books_come_from_visible_folders(visits: Seq<Visit>, book: BookFolder)
    requires
        walked(visits) is Ok,
    ensures
        walked(visits)->Ok_0.contains(book) <==> exists|i: int|
            0 <= i < visits.len() && visit_finds(#[trigger] visits[i], book),
    decreases visits.len(),
{
    if visits.len() > 0 {
        let before = visits.drop_last();
        let found = walked(before)->Ok_0;
        let all = walked(visits)->Ok_0;
        books_come_from_visible_folders(before, book);
        let n = visits.len() - 1;
        if all.contains(book) {
            let k = choose|k: int| 0 <= k < all.len() && all[k] == book;
            if k < found.len() {
                assert(found[k] == book);
                assert(found.contains(book));
                let i = choose|i: int|
                    0 <= i < before.len() && visit_finds(#[trigger] before[i], book);
                assert(visits[i] == before[i]);
            } else {
                assert(visit_finds(visits[n], book));
            }
        }
        if exists|i: int| 0 <= i < visits.len() && visit_finds(#[trigger] visits[i], book) {
            let i = choose|i: int|
                0 <= i < visits.len() && visit_finds(#[trigger] visits[i], book);
            if i < n {
                assert(before[i] == visits[i]);
                assert(found.contains(book));
                let k = choose|k: int| 0 <= k < found.len() && found[k] == book;
                assert(all[k] == book);
            } else {
                assert(all[all.len() - 1] == book);
            }
        }
    }
}

/// A walk finds at most one book per step.
pub proof fn a_walk_finds_no_more_books_than_steps(visits: Seq<Visit>)
    requires
        walked(visits) is Ok,
    ensures
        walked(visits)->Ok_0.len() <= visits.len(),
    decreases visits.len(),
{
    if visits.len() > 0 {
        a_walk_finds_no_more_books_than_steps(visits.drop_last());
    }
}

/// A walk succeeds if and only if none of its steps failed.
pub proof fn a_walk_fails_only_at_a_failed_step(visits: Seq<Visit>)
    ensures
        walked(visits) is Ok <==> forall|i: int|
            0 <= i < visits.len() ==> !(#[trigger] visits[i] is Failed),
    decreases visits.len(),
{
    if visits.len() > 0 {
        let before = visits.drop_last();
        a_walk_fails_only_at_a_failed_step(before);
        let n = visits.len() - 1;
        if walked(visits) is Ok {
            assert forall|i: int| 0 <= i < visits.len() implies !(#[trigger] visits[i] is Failed) by {
                if i < n {
                    assert(before[i] == visits[i]);
                }
            }
        } else if forall|i: int| 0 <= i < visits.len() ==> !(#[trigger] visits[i] is Failed) {
            assert forall|i: int| 0 <= i < before.len() implies !(#[trigger] before[i] is Failed) by {
                assert(before[i] == visits[i]);
            }
            assert(!(visits[n] is Failed));
        }
    }
}

} // verus!
