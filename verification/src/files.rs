//! File names, extensions and what they say about a directory entry.
use crate::text::{eq_ignore_ascii_case, same_ignoring_ascii_case};
use std::path::PathBuf;
use vstd::prelude::*;
use vstd::slice::slice_subrange;
use vstd::utf8::{decode_utf8, valid_utf8};

verus! {

/// An entry of a directory.
pub struct FileEntry {
    /// The full path
    pub path: PathBuf,
    /// The bytes of the file name
    pub name: Vec<u8>,
    /// Whether it is a regular file
    pub is_file: bool,
}

// ---------------------------------------------------------------------------
// Names as text
// ---------------------------------------------------------------------------

/// The text of a name, if the name is text.
pub open spec fn name_text(name: Seq<u8>) -> Option<Seq<char>> {
    if valid_utf8(name) {
        Some(decode_utf8(name))
    } else {
        None
    }
}

/// `std::str::from_utf8`: the text that the bytes encode, or nothing if they are not UTF-8.
#[verifier::external_body]
pub(crate) fn utf8_text(bytes: &[u8]) -> (r: Option<String>)
    ensures
        match r {
            Some(s) => name_text(bytes@) == Some(s@),
            None => name_text(bytes@) is None,
        },
{
    std::str::from_utf8(bytes).ok().map(|s| s.to_string())
}

// ---------------------------------------------------------------------------
// Extensions
// ---------------------------------------------------------------------------

/// The byte of a full stop.
pub const DOT: u8 = 0x2e;

/// The position of the last full stop in the first `n` bytes of a name, or -1.
pub open spec fn last_dot(name: Seq<u8>, n: int) -> int
    decreases n,
{
    if n <= 0 {
        -1
    } else if name[n - 1] == DOT {
        n - 1
    } else {
        last_dot(name, n - 1)
    }
}

/// The extension of a file name: what follows its last full stop. A full stop at the start does
/// not count, and the name of the parent directory has no extension.
pub open spec fn extension(name: Seq<u8>) -> Option<Seq<u8>> {
    let k = last_dot(name, name.len() as int);
    if k <= 0 || name == seq![DOT, DOT] {
        None
    } else {
        Some(name.skip(k + 1))
    }
}

/// The extension of a file name, where it is text.
pub open spec fn extension_text(name: Seq<u8>) -> Option<Seq<char>> {
    match extension(name) {
        Some(e) => name_text(e),
        None => None,
    }
}

/// The extension of a file name, where it is text.
pub fn extension_of(name: &[u8]) -> (r: Option<String>)
    ensures
        match r {
            Some(s) => extension_text(name@) == Some(s@),
            None => extension_text(name@) is None,
        },
{
    if name.len() == 2 && name[0] == DOT && name[1] == DOT {
        proof {
            assert(name@ =~= seq![DOT, DOT]);
        }
        return None;
    }
    proof {
        if name@ == seq![DOT, DOT] {
            assert(name@[0] == DOT && name@[1] == DOT);
        }
    }
    let mut k: usize = name.len();
    while k > 0 && name[k - 1] != DOT
        invariant
            k <= name.len(),
            last_dot(name@, name@.len() as int) == last_dot(name@, k as int),
        decreases k,
    {
        k = k - 1;
    }
    if k <= 1 {
        return None;
    }
    proof {
        assert(name@.skip(k as int) =~= name@.subrange(k as int, name@.len() as int));
    }
    utf8_text(slice_subrange(name, k, name.len()))
}

/// Whether the extension of a name is `ext`, in any mix of capital and small ASCII letters.
pub open spec fn has_extension(name: Seq<u8>, ext: Seq<char>) -> bool {
    extension_text(name) matches Some(e) && same_ignoring_ascii_case(e, ext)
}

fn extension_is(name: &[u8], ext: &str) -> (r: bool)
    ensures
        r == has_extension(name@, ext@),
{
    match extension_of(name) {
        Some(e) => eq_ignore_ascii_case(e.as_str(), ext),
        None => false,
    }
}

/// Check if file is M4B
pub fn is_m4b_file(name: &[u8]) -> (r: bool)
    ensures
        r == has_extension(name@, "m4b"@),
{
    extension_is(name, "m4b")
}

// ---------------------------------------------------------------------------
// Audiobook folders
// ---------------------------------------------------------------------------

/// Whether the name is that of a source file: MP3 or M4A.
pub open spec fn source_name(name: Seq<u8>) -> bool {
    has_extension(name, "mp3"@) || has_extension(name, "m4a"@)
}

/// Whether the name is that of an audio file: MP3, M4A or M4B.
pub open spec fn audio_name(name: Seq<u8>) -> bool {
    source_name(name) || has_extension(name, "m4b"@)
}

/// Whether a source file is among some entries.
pub open spec fn some_source(entries: Seq<FileEntry>) -> bool {
    exists|i: int| 0 <= i < entries.len() && source_name((#[trigger] entries[i]).name@)
}

/// Whether an audio file is among some entries.
pub open spec fn some_audio(entries: Seq<FileEntry>) -> bool {
    exists|i: int| 0 <= i < entries.len() && audio_name((#[trigger] entries[i]).name@)
}

/// Try to detect if current directory is an audiobook folder: it is one if it holds a source
/// file and is not the root of the file system.
pub fn try_detect_current_as_audiobook(has_parent: bool, entries: &[FileEntry]) -> (r: bool)
    ensures
        r <==> has_parent && exists|i: int|
            0 <= i < entries@.len() && source_name((#[trigger] entries@[i]).name@),
        r <==> has_parent && some_source(entries@),
{
    if !has_parent {
        return false;
    }
    let mut i: usize = 0;
    while i < entries.len()
        invariant
            has_parent,
            i <= entries.len(),
            forall|k: int| 0 <= k < i ==> !source_name((#[trigger] entries@[k]).name@),
        decreases entries.len() - i,
    {
        let name: &[u8] = entries[i].name.as_slice();
        if extension_is(name, "mp3") || extension_is(name, "m4a") {
            return true;
        }
        i = i + 1;
    }
    false
}

/// Check if a directory is itself an audiobook folder: it is one if it holds an audio file
pub fn is_audiobook_folder(is_dir: bool, entries: &[FileEntry]) -> (r: bool)
    ensures
        r <==> is_dir && exists|i: int|
            0 <= i < entries@.len() && audio_name((#[trigger] entries@[i]).name@),
        r <==> is_dir && some_audio(entries@),
{
    if !is_dir {
        return false;
    }
    let mut i: usize = 0;
    while i < entries.len()
        invariant
            is_dir,
            i <= entries.len(),
            forall|k: int| 0 <= k < i ==> !audio_name((#[trigger] entries@[k]).name@),
        decreases entries.len() - i,
    {
        let name: &[u8] = entries[i].name.as_slice();
        if extension_is(name, "mp3") || extension_is(name, "m4a") || extension_is(name, "m4b") {
            return true;
        }
        i = i + 1;
    }
    false
}

} // verus!
