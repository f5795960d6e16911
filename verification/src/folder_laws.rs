//! What directories hold, told by the names of their entries.
use crate::chapter_file_laws::{increasing, lemma_last_position};
use crate::files::{
    audio_name, extension, extension_text, has_extension, last_dot, source_name, FileEntry, DOT,
};
use crate::scanner::{
    book_of, cover_name, covered_book, extraction_source, file_of_kind, first_cover, hidden_name,
    kind_of_name, last_cue, paths_of_kind, root_error, single_scan, sorted_book, walked, BookCase,
    BookFolder, CoverExtraction, FileKind, FolderFiles, PathKind, ScanError, Visit,
    MAX_DEPTH, MIN_DEPTH,
};
use crate::selection::{
    m4b_at, m4b_order, name_le, paths_at, selection_error, selects, target_of, MatchInput,
    MatchTarget, SelectionError,
};
use crate::text::lowercase;
use crate::text_laws::{
    alike, alike_texts, ignoring_case_means_alike, lowercase_makes_capitals_small,
};
use std::path::PathBuf;
use vstd::prelude::*;
use vstd::utf8::{decode_utf8, encode_utf8, valid_utf8};

verus! {

// ---------------------------------------------------------------------------
// Extensions
// ---------------------------------------------------------------------------

proof fn lemma_last_dot(name: Seq<u8>, n: int, k: int)
    requires
        -1 <= k < n <= name.len() || n == 0 && k == -1,
        k >= 0 ==> name[k] == DOT,
        forall|i: int| k < i < n ==> #[trigger] name[i] != DOT,
    ensures
        last_dot(name, n) == k,
    decreases n,
{
    if n > 0 && k < n - 1 {
        assert(name[n - 1] != DOT);
        lemma_last_dot(name, n - 1, k);
    }
}

/// The extension of a name is what follows its last full stop, where something stands before that
/// full stop.
pub proof fn an_extension_follows_the_last_full_stop(stem: Seq<u8>, ext: Seq<u8>)
    requires
        forall|i: int| 0 <= i < ext.len() ==> #[trigger] ext[i] != 0x2e,
        stem.len() > 0,
        stem != seq![0x2eu8] || ext.len() > 0,
    ensures
        extension(stem + seq![0x2eu8] + ext) == Some(ext),
{
    let name = stem + seq![0x2eu8] + ext;
    let k = stem.len() as int;
    assert(name[k] == DOT);
    assert forall|i: int| k < i < name.len() implies #[trigger] name[i] != DOT by {
        assert(name[i] == ext[i - k - 1]);
    }
    lemma_last_dot(name, name.len() as int, k);
    assert(name.skip(k + 1) =~= ext);
    if name == seq![DOT, DOT] {
        assert(name.len() == 2);
        assert(stem =~= seq![0x2eu8]);
    }
}

/// A name without a full stop has no extension, nor has one whose only full stop comes first, nor
/// the name of the parent directory.
pub proof fn some_names_have_no_extension(rest: Seq<u8>)
    requires
        forall|i: int| 0 <= i < rest.len() ==> #[trigger] rest[i] != 0x2e,
    ensures
        extension(rest) is None,
        extension(seq![0x2eu8] + rest) is None,
        extension(seq![0x2eu8, 0x2eu8]) is None,
{
    lemma_last_dot(rest, rest.len() as int, -1);
    let name = seq![0x2eu8] + rest;
    assert forall|i: int| 0 < i < name.len() implies #[trigger] name[i] != DOT by {
        assert(name[i] == rest[i - 1]);
    }
    lemma_last_dot(name, name.len() as int, 0);
    assert(seq![0x2eu8, 0x2eu8] =~= seq![DOT, DOT]);
}

/// The extension of a name can be read if and only if it is text, and is read as it is written.
pub proof fn an_extension_is_read_as_it_is_written(name: Seq<u8>, ext: Seq<u8>)
    ensures
        extension(name) == Some(ext) && valid_utf8(ext) ==> extension_text(name) == Some(
            decode_utf8(ext),
        ),
        extension(name) == Some(ext) && !valid_utf8(ext) ==> extension_text(name) is None,
        extension(name) is None ==> extension_text(name) is None,
{
}

/// A name has an extension that is looked for if and only if its extension is text and is alike to
/// it, capital and small ASCII letters not told apart.
pub proof fn an_extension_is_known_in_any_case(name: Seq<u8>, ext: Seq<u8>, wanted: Seq<char>)
    requires
        extension(name) == Some(ext),
    ensures
        has_extension(name, wanted) <==> valid_utf8(ext) && alike_texts(decode_utf8(ext), wanted),
{
    if valid_utf8(ext) {
        ignoring_case_means_alike(decode_utf8(ext), wanted);
    }
}

/// MP3 and M4A files are the source files, and with M4B files they are the audio files; a name
/// without an extension, or with one that is not text, is neither.
pub proof fn audio_files_are_known_by_their_extension(name: Seq<u8>, ext: Seq<u8>)
    ensures
        extension(name) == Some(ext) && valid_utf8(ext) ==> (source_name(name) <==> alike_texts(
            decode_utf8(ext),
            "mp3"@,
        ) || alike_texts(decode_utf8(ext), "m4a"@)),
        extension(name) == Some(ext) && valid_utf8(ext) ==> (audio_name(name) <==> alike_texts(
            decode_utf8(ext),
            "mp3"@,
        ) || alike_texts(decode_utf8(ext), "m4a"@) || alike_texts(decode_utf8(ext), "m4b"@)),
        extension(name) == Some(ext) && !valid_utf8(ext) ==> !source_name(name) && !audio_name(name),
        extension(name) is None ==> !source_name(name) && !audio_name(name),
{
    if extension(name) == Some(ext) {
        an_extension_is_known_in_any_case(name, ext, "mp3"@);
        an_extension_is_known_in_any_case(name, ext, "m4a"@);
        an_extension_is_known_in_any_case(name, ext, "m4b"@);
    }
}

// ---------------------------------------------------------------------------
// Files of a folder
// ---------------------------------------------------------------------------

/// Whether a text is all ASCII.
pub open spec fn all_ascii(s: Seq<char>) -> bool {
    forall|i: int| 0 <= i < s.len() ==> #[trigger] s[i] as nat <= 127
}

/// Whether a text holds no ASCII capital letter.
pub open spec fn no_capital(s: Seq<char>) -> bool {
    forall|i: int| 0 <= i < s.len() ==> !('A' <= #[trigger] s[i] <= 'Z')
}

proof fn lemma_lowercase_is(s: Seq<char>, word: Seq<char>)
    requires
        all_ascii(s),
        no_capital(word),
    ensures
        lowercase(s) == word <==> alike_texts(s, word),
{
    lowercase_makes_capitals_small(s);
    let l = lowercase(s);
    if l == word {
        assert forall|i: int| 0 <= i < s.len() implies alike(#[trigger] s[i], word[i]) by {
            assert(alike(l[i], s[i]));
        }
    }
    if alike_texts(s, word) {
        assert forall|i: int| 0 <= i < l.len() implies l[i] == word[i] by {
            assert(alike(l[i], s[i]));
            assert(alike(s[i], word[i]));
            assert(!('A' <= l[i] <= 'Z'));
            assert(!('A' <= word[i] <= 'Z'));
        }
        assert(l =~= word);
    }
}

/// A file is a source file, an M4B file, a cue sheet or an image by its extension alone, capital
/// and small letters not told apart; any other file is of no interest.
pub proof fn files_are_told_apart_by_extension(name: Seq<u8>, ext: Seq<u8>)
    ensures
        extension(name) == Some(ext) && valid_utf8(ext) && all_ascii(decode_utf8(ext)) ==> {
            let e = decode_utf8(ext);
            &&& kind_of_name(name) == FileKind::Source <==> alike_texts(e, "mp3"@) || alike_texts(
                e,
                "m4a"@,
            )
            &&& kind_of_name(name) == FileKind::M4b <==> alike_texts(e, "m4b"@)
            &&& kind_of_name(name) == FileKind::Cue <==> alike_texts(e, "cue"@)
            &&& kind_of_name(name) == FileKind::Image <==> alike_texts(e, "jpg"@) || alike_texts(
                e,
                "png"@,
            ) || alike_texts(e, "jpeg"@)
        },
        extension(name) == Some(ext) && !valid_utf8(ext) ==> kind_of_name(name) == FileKind::Other,
        extension(name) is None ==> kind_of_name(name) == FileKind::Other,
{
    if extension(name) == Some(ext) && valid_utf8(ext) && all_ascii(decode_utf8(ext)) {
        let e = decode_utf8(ext);
        reveal_strlit("mp3");
        reveal_strlit("m4a");
        reveal_strlit("m4b");
        reveal_strlit("cue");
        reveal_strlit("jpg");
        reveal_strlit("png");
        reveal_strlit("jpeg");
        lemma_lowercase_is(e, "mp3"@);
        lemma_lowercase_is(e, "m4a"@);
        lemma_lowercase_is(e, "m4b"@);
        lemma_lowercase_is(e, "cue"@);
        lemma_lowercase_is(e, "jpg"@);
        lemma_lowercase_is(e, "png"@);
        lemma_lowercase_is(e, "jpeg"@);
        assert("mp3"@[0] == 'm' && "mp3"@[1] == 'p');
        assert("m4a"@[0] == 'm' && "m4a"@[1] == '4' && "m4a"@[2] == 'a');
        assert("m4b"@[0] == 'm' && "m4b"@[1] == '4' && "m4b"@[2] == 'b');
        assert("cue"@[0] == 'c');
        assert("jpg"@[0] == 'j');
        assert("png"@[0] == 'p');
        assert("jpeg"@.len() == 4);
    }
}

proof fn lemma_kind_positions(entries: Seq<FileEntry>, kind: FileKind) -> (at: Seq<int>)
    ensures
        increasing(at),
        at.len() == paths_of_kind(entries, kind).len(),
        forall|k: int|
            0 <= k < at.len() ==> 0 <= #[trigger] at[k] < entries.len() && paths_of_kind(
                entries,
                kind,
            )[k] == entries[at[k]].path,
        forall|i: int|
            0 <= i < entries.len() ==> (#[trigger] at.contains(i) <==> entries[i].is_file
                && kind_of_name(entries[i].name@) == kind),
    decreases entries.len(),
{
    if entries.len() == 0 {
        Seq::empty()
    } else {
        let before = entries.drop_last();
        let n = entries.len() - 1;
        let at = lemma_kind_positions(before, kind);
        lemma_last_position(at, n);
        assert(forall|i: int| 0 <= i < n ==> #[trigger] entries[i] == before[i]);
        if file_of_kind(entries.last(), kind) {
            let all = at.push(n);
            assert forall|k: int| 0 <= k < all.len() implies 0 <= #[trigger] all[k] < entries.len()
                && paths_of_kind(entries, kind)[k] == entries[all[k]].path by {
                if k < at.len() {
                    assert(all[k] == at[k]);
                }
            }
            assert forall|i: int| 0 <= i < entries.len() implies (#[trigger] all.contains(i)
                <==> entries[i].is_file && kind_of_name(entries[i].name@) == kind) by {
                if i < n {
                    assert(at.contains(i) <==> before[i].is_file && kind_of_name(before[i].name@)
                        == kind);
                }
            }
            all
        } else {
            assert forall|i: int| 0 <= i < entries.len() implies (#[trigger] at.contains(i)
                <==> entries[i].is_file && kind_of_name(entries[i].name@) == kind) by {
                if i < n {
                    assert(at.contains(i) <==> before[i].is_file && kind_of_name(before[i].name@)
                        == kind);
                }
            }
            at
        }
    }
}

/// The files of a kind are found all and in their order, directories and other files left out.
pub proof fn files_of_a_kind_are_all_found(entries: Seq<FileEntry>, kind: FileKind) -> (at: Seq<int>)
    ensures
        increasing(at),
        at.len() == paths_of_kind(entries, kind).len(),
        forall|k: int|
            0 <= k < at.len() ==> 0 <= #[trigger] at[k] < entries.len() && paths_of_kind(
                entries,
                kind,
            )[k] == entries[at[k]].path,
        forall|i: int|
            0 <= i < entries.len() ==> (#[trigger] at.contains(i) <==> entries[i].is_file
                && kind_of_name(entries[i].name@) == kind),
{
    lemma_kind_positions(entries, kind)
}

/// Whether an entry is a cue sheet.
pub open spec fn cue_sheet(entry: FileEntry) -> bool {
    entry.is_file && kind_of_name(entry.name@) == FileKind::Cue
}

/// Of several cue sheets the last one counts.
pub proof fn the_last_cue_sheet_counts(entries: Seq<FileEntry>, i: int)
    ensures
        0 <= i < entries.len() && cue_sheet(entries[i]) && (forall|j: int|
            i < j < entries.len() ==> !cue_sheet(#[trigger] entries[j])) ==> last_cue(entries)
            == Some(entries[i].path),
        (forall|j: int| 0 <= j < entries.len() ==> !cue_sheet(#[trigger] entries[j])) ==> last_cue(
            entries,
        ) is None,
{
    let at = lemma_kind_positions(entries, FileKind::Cue);
    let cues = paths_of_kind(entries, FileKind::Cue);
    if at.len() > 0 {
        let l = at.len() - 1;
        assert(at.contains(at[l]));
        assert(cue_sheet(entries[at[l]]));
        if 0 <= i < entries.len() && cue_sheet(entries[i]) && (forall|j: int|
            i < j < entries.len() ==> !cue_sheet(#[trigger] entries[j])) {
            assert(at.contains(i));
            let k = choose|k: int| 0 <= k < at.len() && at[k] == i;
            if k < l {
                assert(at[k] < at[l]);
            }
            assert(at[l] == i);
        }
    } else if 0 <= i < entries.len() && cue_sheet(entries[i]) {
        assert(at.contains(i));
    }
}

/// Whether an entry is an image file with the name of a cover.
pub open spec fn cover_picture(entry: FileEntry, covers: Seq<Seq<char>>) -> bool {
    entry.is_file && kind_of_name(entry.name@) == FileKind::Image && cover_name(entry.name@, covers)
}

/// Of several cover pictures the first one counts.
pub proof fn the_first_cover_counts(entries: Seq<FileEntry>, covers: Seq<Seq<char>>, i: int)
    ensures
        0 <= i < entries.len() && cover_picture(entries[i], covers) && (forall|j: int|
            0 <= j < i ==> !cover_picture(#[trigger] entries[j], covers)) ==> first_cover(
            entries,
            covers,
        ) == Some(entries[i].path),
        (forall|j: int| 0 <= j < entries.len() ==> !cover_picture(#[trigger] entries[j], covers))
            ==> first_cover(entries, covers) is None,
    decreases entries.len(),
{
    if entries.len() > 0 {
        let before = entries.drop_last();
        let n = entries.len() - 1;
        assert(forall|j: int| 0 <= j < n ==> #[trigger] entries[j] == before[j]);
        the_first_cover_counts(before, covers, i);
        assert(entries[n] == entries.last());
        if forall|j: int| 0 <= j < entries.len() ==> !cover_picture(#[trigger] entries[j], covers) {
            assert forall|j: int| 0 <= j < before.len() implies !cover_picture(
                #[trigger] before[j],
                covers,
            ) by {
                assert(entries[j] == before[j]);
            }
            assert(!cover_picture(entries[n], covers));
        }
        if 0 <= i < entries.len() && cover_picture(entries[i], covers) && (forall|j: int|
            0 <= j < i ==> !cover_picture(#[trigger] entries[j], covers)) {
            assert forall|j: int| 0 <= j < i && j < before.len() implies !cover_picture(
                #[trigger] before[j],
                covers,
            ) by {
                assert(entries[j] == before[j]);
            }
        }
    }
}

/// A name is that of a cover if and only if it is text that is the same in lowercase as one of the
/// cover names; for ASCII names that is to be alike to one of them.
pub proof fn covers_are_known_by_their_names(name: Seq<char>, covers: Seq<Seq<char>>, bytes: Seq<u8>)
    ensures
        cover_name(encode_utf8(name), covers) <==> exists|i: int|
            0 <= i < covers.len() && lowercase(#[trigger] covers[i]) == lowercase(name),
        all_ascii(name) && (forall|i: int| 0 <= i < covers.len() ==> all_ascii(#[trigger] covers[i]))
            ==> (cover_name(encode_utf8(name), covers) <==> exists|i: int|
            0 <= i < covers.len() && alike_texts(name, #[trigger] covers[i])),
        !valid_utf8(bytes) ==> !cover_name(bytes, covers),
{
    vstd::utf8::encode_utf8_valid_utf8(name);
    vstd::utf8::encode_utf8_decode_utf8(name);
    if all_ascii(name) && (forall|i: int|
        0 <= i < covers.len() ==> all_ascii(#[trigger] covers[i])) {
        assert forall|i: int| 0 <= i < covers.len() implies (lowercase(#[trigger] covers[i])
            == lowercase(name) <==> alike_texts(name, covers[i])) by {
            let c = covers[i];
            assert(all_ascii(c));
            lowercase_makes_capitals_small(c);
            lowercase_makes_capitals_small(name);
            let lc = lowercase(c);
            lemma_lowercase_is(name, lc);
            if alike_texts(name, c) {
                assert forall|k: int| 0 <= k < name.len() implies alike(#[trigger] name[k], lc[k]) by {
                    assert(alike(name[k], c[k]));
                    assert(alike(lc[k], c[k]));
                }
            }
            if alike_texts(name, lc) {
                assert forall|k: int| 0 <= k < name.len() implies alike(#[trigger] name[k], c[k]) by {
                    assert(alike(name[k], lc[k]));
                    assert(alike(lc[k], c[k]));
                }
            }
        }
    }
}

/// A directory is hidden if and only if its name is text that starts with a full stop.
pub proof fn hidden_names_start_with_a_full_stop(name: Seq<char>, bytes: Seq<u8>)
    ensures
        hidden_name(encode_utf8(name)) <==> name.len() > 0 && name[0] == '.',
        !valid_utf8(bytes) ==> !hidden_name(bytes),
{
    vstd::utf8::encode_utf8_valid_utf8(name);
    vstd::utf8::encode_utf8_decode_utf8(name);
}

// ---------------------------------------------------------------------------
// Books
// ---------------------------------------------------------------------------

/// Every folder but one of case D is a book, of the case of the folder and with the files that were
/// found in it.
pub proof fn a_book_has_the_files_of_its_folder(
    path: PathBuf,
    name: String,
    files: FolderFiles,
    case: BookCase,
)
    ensures
        book_of(path, name, files, BookCase::D) is None,
        case == BookCase::A || case == BookCase::B || case == BookCase::C || case == BookCase::E
            ==> book_of(path, name, files, case) is Some,
        book_of(path, name, files, case) is Some ==> {
            let book = book_of(path, name, files, case)->0;
            &&& book.path == path
            &&& book.name == name
            &&& book.case == case
            &&& book.mp3_files == files.mp3_files
            &&& book.m4b_files == files.m4b_files
            &&& book.cue_file == files.cue_file
            &&& book.cover_file == files.cover_file
        },
{
}

/// A cover is extracted only where that is wanted and the book has none: from its first source
/// file, or, without one, from its first M4B file.
pub proof fn a_cover_is_extracted_from_the_first_file(book: BookFolder)
    ensures
        extraction_source(false, book) is None,
        book.cover_file is Some ==> extraction_source(true, book) is None,
        book.cover_file is None && book.mp3_files@.len() > 0 ==> extraction_source(true, book)
            == Some(book.mp3_files@[0]),
        book.cover_file is None && book.mp3_files@.len() == 0 && book.m4b_files@.len() > 0
            ==> extraction_source(true, book) == Some(book.m4b_files@[0]),
        book.cover_file is None && book.mp3_files@.len() == 0 && book.m4b_files@.len() == 0
            ==> extraction_source(true, book) is None,
{
}

/// A scan of what does not exist or is no directory is refused, and that of a directory is not.
pub proof fn only_directories_are_scanned()
    ensures
        forall|kind: PathKind| #[trigger] root_error(kind) is None <==> kind == PathKind::Directory,
        root_error(PathKind::Missing) == Some(ScanError::Missing),
        root_error(PathKind::NotADirectory) == Some(ScanError::NotADirectory),
{
}

/// The source files of every book are put in their natural order, and the M4B files in the order of
/// their parts if and only if they are parts of one book; nothing else of the book changes.
pub proof fn sorting_keeps_the_rest_of_a_book(
    book: BookFolder,
    naturally_sorted: Vec<PathBuf>,
    sorted_by_part: Vec<PathBuf>,
)
    ensures
        ({
            let sorted = sorted_book(book, naturally_sorted, sorted_by_part);
            &&& sorted.mp3_files == naturally_sorted
            &&& book.case == BookCase::E ==> sorted.m4b_files == sorted_by_part
            &&& book.case != BookCase::E ==> sorted.m4b_files == book.m4b_files
            &&& sorted.path == book.path && sorted.name == book.name && sorted.case == book.case
            &&& sorted.cue_file == book.cue_file && sorted.cover_file == book.cover_file
        }),
{
}

/// A cover that was extracted is the cover of the book; where none was found, or the attempt
/// failed, the book stays as it is.
pub proof fn an_extracted_cover_is_the_cover(book: BookFolder, cover: PathBuf)
    ensures
        covered_book(book, cover, CoverExtraction::NotFound) == book,
        covered_book(book, cover, CoverExtraction::Failed) == book,
        ({
            let covered = covered_book(book, cover, CoverExtraction::Extracted);
            &&& covered.cover_file == Some(cover)
            &&& covered.mp3_files == book.mp3_files && covered.m4b_files == book.m4b_files
            &&& covered.path == book.path && covered.name == book.name
            &&& covered.case == book.case && covered.cue_file == book.cue_file
        }),
{
}

/// The scan of one directory gives its book; without one it tells that there is no audiobook, and
/// what keeps the directory from being scanned is told before anything else.
pub proof fn one_directory_gives_one_book(
    book: BookFolder,
    error: ScanError,
    scan: Result<Option<BookFolder>, ScanError>,
)
    ensures
        single_scan(PathKind::Directory, Ok(Some(book))) == Ok::<BookFolder, ScanError>(book),
        single_scan(PathKind::Directory, Ok(None)) == Err::<BookFolder, ScanError>(
            ScanError::NotAnAudiobook,
        ),
        single_scan(PathKind::Directory, Err(error)) == Err::<BookFolder, ScanError>(error),
        single_scan(PathKind::Missing, scan) == Err::<BookFolder, ScanError>(ScanError::Missing),
        single_scan(PathKind::NotADirectory, scan) == Err::<BookFolder, ScanError>(
            ScanError::NotADirectory,
        ),
{
}

/// What one step of a walk adds: the book of a folder that is not hidden, or nothing.
pub proof fn a_step_adds_the_book_of_its_folder(
    visits: Seq<Visit>,
    name: Vec<u8>,
    book: Option<BookFolder>,
    error: ScanError,
)
    requires
        walked(visits) is Ok,
    ensures
        walked(Seq::<Visit>::empty()) is Ok && walked(Seq::<Visit>::empty())->Ok_0.len() == 0,
        book is Some && !hidden_name(name@) ==> walked(visits.push(Visit::Folder { name, book }))
            == Ok::<Seq<BookFolder>, ScanError>(walked(visits)->Ok_0.push(book->0)),
        book is None || hidden_name(name@) ==> walked(visits.push(Visit::Folder { name, book }))
            == walked(visits),
        walked(visits.push(Visit::Failed(error))) == Err::<Seq<BookFolder>, ScanError>(error),
{
    let a = visits.push(Visit::Folder { name, book });
    let b = visits.push(Visit::Failed(error));
    assert(a.drop_last() =~= visits);
    assert(b.drop_last() =~= visits);
}

/// Whatever comes after a step that failed, the walk fails with the error of that step.
pub proof fn a_failed_walk_stays_failed(visits: Seq<Visit>, next: Visit)
    requires
        walked(visits) is Err,
    ensures
        walked(visits.push(next)) == walked(visits),
{
    assert(visits.push(next).drop_last() =~= visits);
}

// ---------------------------------------------------------------------------
// Selection
// ---------------------------------------------------------------------------

/// Names are ordered by the first byte in which they differ, and a name stands before every longer
/// one that starts with it.
pub proof fn names_are_ordered_by_their_first_difference(
    start: Seq<u8>,
    a: u8,
    b: u8,
    x: Seq<u8>,
    y: Seq<u8>,
)
    ensures
        name_le(start, start + x),
        x.len() > 0 ==> !name_le(start + x, start),
        a < b ==> name_le(start + seq![a] + x, start + seq![b] + y),
        a < b ==> !name_le(start + seq![b] + y, start + seq![a] + x),
    decreases start.len(),
{
    let sa = start + seq![a] + x;
    let sb = start + seq![b] + y;
    let sx = start + x;
    if start.len() > 0 {
        let rest = start.skip(1);
        names_are_ordered_by_their_first_difference(rest, a, b, x, y);
        assert(sa.skip(1) =~= rest + seq![a] + x);
        assert(sb.skip(1) =~= rest + seq![b] + y);
        assert(sx.skip(1) =~= rest + x);
        assert(sa[0] == start[0] && sb[0] == start[0] && sx[0] == start[0]);
    } else {
        assert(sa[0] == a && sb[0] == b);
    }
}

/// The M4B files of a directory are its files whose extension is text alike to `m4b`.
pub proof fn m4b_files_are_known_by_their_extension(entries: Seq<FileEntry>, i: int, ext: Seq<u8>)
    requires
        0 <= i < entries.len(),
    ensures
        extension(entries[i].name@) == Some(ext) ==> (m4b_at(entries, i) <==> entries[i].is_file
            && valid_utf8(ext) && alike_texts(decode_utf8(ext), "m4b"@)),
        extension(entries[i].name@) is None ==> !m4b_at(entries, i),
{
    if extension(entries[i].name@) == Some(ext) {
        an_extension_is_known_in_any_case(entries[i].name@, ext, "m4b"@);
    }
}

/// A file that is given is pointed at whatever else is given, and a directory only without a file.
pub proof fn a_file_goes_before_a_directory(file: PathBuf, dir: PathBuf, other: Option<PathBuf>)
    ensures
        target_of(Some(file), other) == MatchTarget::File(file),
        target_of(None, Some(dir)) == MatchTarget::Directory(dir),
        target_of(None, None) == MatchTarget::Nothing,
{
}

/// A file that is pointed at is selected alone, if it exists and is an M4B file; of a directory
/// that is pointed at all M4B files are selected, each once and in the order of their names.
pub proof fn what_is_pointed_at_is_selected(
    path: PathBuf,
    name: Vec<u8>,
    exists_: bool,
    is_dir: bool,
    entries: Vec<FileEntry>,
    files: Seq<PathBuf>,
)
    ensures
        ({
            let input = MatchInput::File { path, name, exists: exists_ };
            &&& !exists_ ==> selection_error(input) == Some(SelectionError::FileNotFound)
            &&& exists_ && !has_extension(name@, "m4b"@) ==> selection_error(input) == Some(
                SelectionError::NotAnM4b,
            )
            &&& exists_ && has_extension(name@, "m4b"@) ==> selection_error(input) is None
            &&& selects(input, files) <==> files.len() == 1 && files[0] == path
        }),
        ({
            let input = MatchInput::Directory { is_dir, entries };
            &&& selection_error(input) is None <==> is_dir
            &&& !is_dir ==> selection_error(input) == Some(SelectionError::NotADirectory)
            &&& selects(input, files) ==> exists|order: Seq<usize>|
                #![trigger order.len()]
                files.len() == order.len() && order.no_duplicates() && (forall|k: int|
                    0 <= k < order.len() ==> m4b_at(entries@, #[trigger] order[k] as int) && files[k]
                        == entries@[order[k] as int].path) && (forall|i: usize|
                    m4b_at(entries@, i as int) ==> #[trigger] order.contains(i)) && (forall|
                    k: int,
                    l: int,
                |
                    #![trigger order[k], order[l]]
                    0 <= k < l < order.len() ==> name_le(
                        entries@[order[k] as int].name@,
                        entries@[order[l] as int].name@,
                    ))
        }),
        selection_error(MatchInput::Nothing) == Some(SelectionError::NothingGiven),
{
    if files.len() == 1 && files[0] == path {
        assert(files =~= seq![path]);
    }
    let input = MatchInput::Directory { is_dir, entries };
    if selects(input, files) {
        let order = choose|order: Seq<usize>| #[trigger]
            m4b_order(entries@, order) && files == paths_at(entries@, order);
        assert(m4b_order(entries@, order));
        assert forall|k: int| 0 <= k < order.len() implies m4b_at(
            entries@,
            #[trigger] order[k] as int,
        ) && files[k] == entries@[order[k] as int].path by {
            assert(order.contains(order[k]));
        }
        assert(files.len() == order.len());
    }
}

/// A scan looks at the folders of its root and at the folders in those, not at the root itself.
pub proof fn a_scan_goes_two_levels_deep(depth: usize)
    ensures
        MIN_DEPTH <= depth <= MAX_DEPTH <==> depth == 1 || depth == 2,
{
}

} // verus!
