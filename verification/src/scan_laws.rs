//! What a scan finds and what is selected, told of every result that an operation can have.
use crate::chapter_file_laws::increasing;
use crate::config::Config;
use crate::files::{
    audio_name, has_extension, is_audiobook_folder, is_m4b_file, some_audio, some_source,
    source_name, try_detect_current_as_audiobook, FileEntry,
};
use crate::folder_laws::{
    cover_picture, cue_sheet, files_of_a_kind_are_all_found, the_first_cover_counts,
    the_last_cue_sheet_counts,
};
use crate::scanner::{
    hidden_name, kind_of_name, with_extracted_cover, with_sorted_files, BookCase, BookFolder,
    CoverExtraction, FileKind, FolderFiles, PathKind, ScanError, Scanner, Visit,
};
use crate::selection::{
    get_files_to_process, m4b_order, match_target, paths_at, MatchInput, MatchTarget,
    SelectionError,
};
use crate::text::{comma_items, texts};
use std::path::PathBuf;
use vstd::prelude::*;

verus! {

// ---------------------------------------------------------------------------
// Scanners
// ---------------------------------------------------------------------------

/// A scanner looks for the usual cover names unless it is given others, and extracts covers.
pub proof fn a_scanner_looks_for_its_covers(names: Vec<String>, usual: Scanner, given: Scanner)
    requires
        call_ensures(Scanner::new, (), usual),
        call_ensures(Scanner::with_cover_filenames, (names,), given),
    ensures
        usual.covers() == seq!["cover.jpg"@, "folder.jpg"@, "cover.png"@, "folder.png"@],
        usual.auto_extract_cover,
        given.covers() == texts(names@),
        given.auto_extract_cover,
{
}

/// The scanner of a run looks for the cover names on the command line, or else for those of the
/// configuration; it extracts covers as the configuration says, and never in a dry run.
pub proof fn a_run_scans_as_it_is_told(
    config: &Config,
    names: &Option<String>,
    dry_run: bool,
    configured: Scanner,
    r: Scanner,
)
    requires
        call_ensures(Scanner::from_config, (config,), configured),
        call_ensures(Scanner::for_run, (config, names, dry_run), r),
    ensures
        configured.covers() == texts(config.metadata.cover_filenames@),
        configured.auto_extract_cover == config.metadata.auto_extract_cover,
        names is Some ==> r.covers() == comma_items(names->0@),
        names is None ==> r.covers() == configured.covers(),
        dry_run ==> !r.auto_extract_cover,
        !dry_run ==> r.auto_extract_cover == configured.auto_extract_cover,
{
}

// ---------------------------------------------------------------------------
// Folders
// ---------------------------------------------------------------------------

/// Of a folder all source files and all M4B files are found, in their order, and no others; of its
/// cue sheets the last, and of its cover pictures the first.
pub proof fn a_folder_is_searched_for_its_files(
    scanner: &Scanner,
    entries: &[FileEntry],
    r: FolderFiles,
    i: int,
) -> (at: (Seq<int>, Seq<int>))
    requires
        call_ensures(Scanner::find_files, (scanner, entries), r),
    ensures
        increasing(at.0),
        increasing(at.1),
        r.mp3_files@.len() == at.0.len(),
        r.m4b_files@.len() == at.1.len(),
        forall|k: int|
            0 <= k < at.0.len() ==> 0 <= #[trigger] at.0[k] < entries@.len() && r.mp3_files@[k]
                == entries@[at.0[k]].path,
        forall|k: int|
            0 <= k < at.1.len() ==> 0 <= #[trigger] at.1[k] < entries@.len() && r.m4b_files@[k]
                == entries@[at.1[k]].path,
        forall|k: int|
            0 <= k < entries@.len() ==> (#[trigger] at.0.contains(k) <==> entries@[k].is_file
                && kind_of_name(entries@[k].name@) == FileKind::Source),
        forall|k: int|
            0 <= k < entries@.len() ==> (#[trigger] at.1.contains(k) <==> entries@[k].is_file
                && kind_of_name(entries@[k].name@) == FileKind::M4b),
        0 <= i < entries@.len() && cue_sheet(entries@[i]) && (forall|j: int|
            i < j < entries@.len() ==> !cue_sheet(#[trigger] entries@[j])) ==> r.cue_file == Some(
            entries@[i].path,
        ),
        (forall|j: int| 0 <= j < entries@.len() ==> !cue_sheet(#[trigger] entries@[j]))
            ==> r.cue_file is None,
        0 <= i < entries@.len() && cover_picture(entries@[i], scanner.covers()) && (forall|j: int|
            0 <= j < i ==> !cover_picture(#[trigger] entries@[j], scanner.covers()))
            ==> r.cover_file == Some(entries@[i].path),
        (forall|j: int|
            0 <= j < entries@.len() ==> !cover_picture(#[trigger] entries@[j], scanner.covers()))
            ==> r.cover_file is None,
{
    the_last_cue_sheet_counts(entries@, i);
    the_first_cover_counts(entries@, scanner.covers(), i);
    (
        files_of_a_kind_are_all_found(entries@, FileKind::Source),
        files_of_a_kind_are_all_found(entries@, FileKind::M4b),
    )
}

/// Every folder but one of case D is a book with the files that were found in it.
pub proof fn a_folder_is_a_book_by_its_case(
    scanner: &Scanner,
    path: PathBuf,
    name: String,
    files: FolderFiles,
    case: BookCase,
    r: Option<BookFolder>,
)
    requires
        call_ensures(Scanner::scan_folder, (scanner, path, name, files, case), r),
    ensures
        r is None <==> case == BookCase::D,
        r is Some ==> r->0.path == path && r->0.name == name && r->0.case == case,
        r is Some ==> r->0.mp3_files == files.mp3_files && r->0.m4b_files == files.m4b_files,
        r is Some ==> r->0.cue_file == files.cue_file && r->0.cover_file == files.cover_file,
{
}

/// Sorting and the extraction of a cover change the files that they are for and nothing else.
pub proof fn a_book_is_completed(
    book: BookFolder,
    naturally_sorted: Vec<PathBuf>,
    sorted_by_part: Vec<PathBuf>,
    cover: PathBuf,
    extraction: CoverExtraction,
    sorted: BookFolder,
    covered: BookFolder,
)
    requires
        call_ensures(with_sorted_files, (book, naturally_sorted, sorted_by_part), sorted),
        call_ensures(with_extracted_cover, (book, cover, extraction), covered),
    ensures
        sorted.mp3_files == naturally_sorted,
        book.case == BookCase::E ==> sorted.m4b_files == sorted_by_part,
        book.case != BookCase::E ==> sorted.m4b_files == book.m4b_files,
        sorted.path == book.path && sorted.name == book.name && sorted.case == book.case,
        sorted.cue_file == book.cue_file && sorted.cover_file == book.cover_file,
        extraction == CoverExtraction::Extracted ==> covered.cover_file == Some(cover),
        extraction != CoverExtraction::Extracted ==> covered.cover_file == book.cover_file,
        covered.path == book.path && covered.name == book.name && covered.case == book.case,
        covered.mp3_files == book.mp3_files && covered.m4b_files == book.m4b_files,
        covered.cue_file == book.cue_file,
{
}

/// A cover is extracted only for a book without one, where that is asked for: from its first source
/// file, or else from its first M4B file.
pub proof fn a_missing_cover_is_extracted(scanner: &Scanner, book: &BookFolder, r: Option<PathBuf>)
    requires
        call_ensures(Scanner::cover_source, (scanner, book), r),
    ensures
        !scanner.auto_extract_cover || book.cover_file is Some ==> r is None,
        scanner.auto_extract_cover && book.cover_file is None ==> {
            &&& book.mp3_files@.len() > 0 ==> r == Some(book.mp3_files@[0])
            &&& book.mp3_files@.len() == 0 && book.m4b_files@.len() > 0 ==> r == Some(
                book.m4b_files@[0],
            )
            &&& book.mp3_files@.len() == 0 && book.m4b_files@.len() == 0 ==> r is None
        },
{
}

/// One more step of a walk that does not fail adds the book of its folder behind those before it,
/// unless the folder is hidden or holds none.
pub proof fn a_walk_adds_one_book_after_another(
    scanner: &Scanner,
    visits: Vec<Visit>,
    more: Vec<Visit>,
    name: Vec<u8>,
    book: Option<BookFolder>,
    r: Result<Vec<BookFolder>, ScanError>,
    s: Result<Vec<BookFolder>, ScanError>,
)
    requires
        call_ensures(Scanner::scan_directory, (scanner, PathKind::Directory, visits), r),
        call_ensures(Scanner::scan_directory, (scanner, PathKind::Directory, more), s),
        more@ == visits@.push(Visit::Folder { name, book }),
        r is Ok,
    ensures
        s is Ok,
        book is Some && !hidden_name(name@) ==> s->Ok_0@ == r->Ok_0@.push(book->0),
        book is None || hidden_name(name@) ==> s->Ok_0@ == r->Ok_0@,
{
    assert(more@.drop_last() =~= visits@);
}

/// What does not exist or is no directory is not scanned, and a directory without an audiobook is
/// told so.
pub proof fn only_directories_with_books_are_scanned(
    scanner: &Scanner,
    visits: Vec<Visit>,
    scan: Result<Option<BookFolder>, ScanError>,
    missing: Result<Vec<BookFolder>, ScanError>,
    file: Result<Vec<BookFolder>, ScanError>,
    single: Result<BookFolder, ScanError>,
)
    requires
        call_ensures(Scanner::scan_directory, (scanner, PathKind::Missing, visits), missing),
        call_ensures(Scanner::scan_directory, (scanner, PathKind::NotADirectory, visits), file),
        call_ensures(Scanner::scan_single_directory, (scanner, PathKind::Directory, scan), single),
    ensures
        missing == Err::<Vec<BookFolder>, ScanError>(ScanError::Missing),
        file == Err::<Vec<BookFolder>, ScanError>(ScanError::NotADirectory),
        scan is Err ==> single == Err::<BookFolder, ScanError>(scan->Err_0),
        scan is Ok && scan->Ok_0 is None ==> single == Err::<BookFolder, ScanError>(
            ScanError::NotAnAudiobook,
        ),
        scan is Ok && scan->Ok_0 is Some ==> single == Ok::<BookFolder, ScanError>(scan->Ok_0->0),
{
}

/// A directory that holds a source file is an audiobook, and so is, once it is named, one that holds
/// an M4B file alone; the current directory is never one at the root of the file system.
pub proof fn one_audio_file_makes_an_audiobook(
    entries: &[FileEntry],
    i: int,
    current: bool,
    at_root: bool,
    named: bool,
    no_directory: bool,
)
    requires
        0 <= i < entries@.len(),
        call_ensures(try_detect_current_as_audiobook, (true, entries), current),
        call_ensures(try_detect_current_as_audiobook, (false, entries), at_root),
        call_ensures(is_audiobook_folder, (true, entries), named),
        call_ensures(is_audiobook_folder, (false, entries), no_directory),
    ensures
        !at_root && !no_directory,
        current ==> named,
        source_name(entries@[i].name@) ==> current && named,
        has_extension(entries@[i].name@, "m4b"@) ==> named,
{
    let all = entries@;
    if some_source(all) {
        let k = choose|k: int| 0 <= k < all.len() && source_name((#[trigger] all[k]).name@);
        assert(audio_name(all[k].name@));
    }
    if audio_name(all[i].name@) {
        assert(some_audio(all));
    }
}

// ---------------------------------------------------------------------------
// Selection
// ---------------------------------------------------------------------------

/// A file goes before a directory.
pub proof fn what_is_matched_is_what_is_pointed_at(
    file: Option<PathBuf>,
    dir: Option<PathBuf>,
    r: MatchTarget,
)
    requires
        call_ensures(match_target, (file, dir), r),
    ensures
        file is Some ==> r == MatchTarget::File(file->0),
        file is None && dir is Some ==> r == MatchTarget::Directory(dir->0),
        file is None && dir is None ==> r is Nothing,
{
}

/// A file is matched alone, if it exists and is an M4B file; of a directory its M4B files are
/// matched, in the order of their names; and nothing else can be matched.
pub proof fn files_to_match_are_m4b_files(
    input: &MatchInput,
    name: &[u8],
    is_m4b: bool,
    r: Result<Vec<PathBuf>, SelectionError>,
)
    requires
        call_ensures(is_m4b_file, (name,), is_m4b),
        call_ensures(get_files_to_process, (input,), r),
    ensures
        input is Nothing ==> r == Err::<Vec<PathBuf>, SelectionError>(SelectionError::NothingGiven),
        input is File && !input->exists ==> r == Err::<Vec<PathBuf>, SelectionError>(
            SelectionError::FileNotFound,
        ),
        input is File && input->exists && input->name@ == name@ ==> {
            &&& is_m4b ==> r is Ok && r->Ok_0@ == seq![input->path]
            &&& !is_m4b ==> r == Err::<Vec<PathBuf>, SelectionError>(SelectionError::NotAnM4b)
        },
        input is Directory && !input->is_dir ==> r == Err::<Vec<PathBuf>, SelectionError>(
            SelectionError::NotADirectory,
        ),
        input is Directory && input->is_dir ==> r is Ok && exists|order: Seq<usize>| #[trigger]
            m4b_order(input->entries@, order) && r->Ok_0@ == paths_at(input->entries@, order),
{
}

} // verus!
