//! Which M4B files the match command works on.
use crate::files::{has_extension, is_m4b_file, FileEntry};
use std::path::PathBuf;
use vstd::prelude::*;

verus! {

// ---------------------------------------------------------------------------
// Order of file names
// ---------------------------------------------------------------------------

/// Whether a name stands before another, or is the same: byte by byte, a shorter name before one
/// that continues it.
pub open spec fn name_le(a: Seq<u8>, b: Seq<u8>) -> bool
    decreases a.len(),
{
    if a.len() == 0 {
        true
    } else if b.len() == 0 {
        false
    } else if a[0] != b[0] {
        a[0] < b[0]
    } else {
        name_le(a.skip(1), b.skip(1))
    }
}

/// Of two names one stands before the other.
pub proof fn name_order_is_total(a: Seq<u8>, b: Seq<u8>)
    ensures
        name_le(a, b) || name_le(b, a),
    decreases a.len(),
{
    if a.len() > 0 && b.len() > 0 && a[0] == b[0] {
        name_order_is_total(a.skip(1), b.skip(1));
    }
}

/// The order of names is transitive.
pub proof fn name_order_is_transitive(a: Seq<u8>, b: Seq<u8>, c: Seq<u8>)
    requires
        name_le(a, b),
        name_le(b, c),
    ensures
        name_le(a, c),
    decreases a.len(),
{
    if a.len() > 0 && b.len() > 0 && c.len() > 0 && a[0] == b[0] && b[0] == c[0] {
        name_order_is_transitive(a.skip(1), b.skip(1), c.skip(1));
    }
}

/// Two names that stand before each other are the same.
pub proof fn name_order_is_antisymmetric(a: Seq<u8>, b: Seq<u8>)
    requires
        name_le(a, b),
        name_le(b, a),
    ensures
        a == b,
    decreases a.len(),
{
    if a.len() > 0 && b.len() > 0 {
        name_order_is_antisymmetric(a.skip(1), b.skip(1));
        assert(a =~= seq![a[0]] + a.skip(1));
        assert(b =~= seq![b[0]] + b.skip(1));
    }
}

fn name_at_most(a: &[u8], b: &[u8]) -> (r: bool)
    ensures
        r == name_le(a@, b@),
{
    let mut i: usize = 0;
    assert(a@.skip(0) =~= a@);
    assert(b@.skip(0) =~= b@);
    while i < a.len() && i < b.len() && a[i] == b[i]
        invariant
            i <= a.len(),
            i <= b.len(),
            name_le(a@, b@) == name_le(a@.skip(i as int), b@.skip(i as int)),
        decreases a.len() - i,
    {
        proof {
            assert(a@.skip(i as int).skip(1) =~= a@.skip(i + 1));
            assert(b@.skip(i as int).skip(1) =~= b@.skip(i + 1));
        }
        i = i + 1;
    }
    if i == a.len() {
        true
    } else if i == b.len() {
        false
    } else {
        a[i] < b[i]
    }
}

// ---------------------------------------------------------------------------
// Files of a directory
// ---------------------------------------------------------------------------

/// Whether the entry at a position is an M4B file.
pub open spec fn m4b_at(entries: Seq<FileEntry>, i: int) -> bool {
    0 <= i < entries.len() && entries[i].is_file && has_extension(entries[i].name@, "m4b"@)
}

/// Whether a list of positions holds that of every M4B file once, in the order of the names.
pub open spec fn m4b_order(entries: Seq<FileEntry>, order: Seq<usize>) -> bool {
    &&& order.no_duplicates()
    &&& forall|i: usize| #[trigger] order.contains(i) <==> m4b_at(entries, i as int)
    &&& names_ascend(entries, order)
}

/// Whether the entries at a list of positions are in the order of their names.
pub open spec fn names_ascend(entries: Seq<FileEntry>, order: Seq<usize>) -> bool {
    forall|a: int, b: int|
        #![trigger order[a], order[b]]
        0 <= a <= b < order.len() ==> name_le(
            entries[order[a] as int].name@,
            entries[order[b] as int].name@,
        )
}

/// The paths of the entries at a list of positions.
pub open spec fn paths_at(entries: Seq<FileEntry>, order: Seq<usize>) -> Seq<PathBuf> {
    order.map_values(|i: usize| entries[i as int].path)
}

/// Puts a position into its place.
fn insert_by_name(entries: &[FileEntry], order: &mut Vec<usize>, new: usize)
    requires
        new < entries@.len(),
        forall|k: int| 0 <= k < old(order)@.len() ==> #[trigger] old(order)@[k] < new,
        names_ascend(entries@, old(order)@),
        old(order)@.no_duplicates(),
    ensures
        names_ascend(entries@, final(order)@),
        final(order)@.no_duplicates(),
        forall|i: usize| #[trigger]
            final(order)@.contains(i) <==> i == new || old(order)@.contains(i),
        forall|k: int| 0 <= k < final(order)@.len() ==> #[trigger] final(order)@[k] <= new,
{
    let ghost before = order@;
    let mut at: usize = 0;
    while at < order.len() && name_at_most(
        entries[order[at]].name.as_slice(),
        entries[new].name.as_slice(),
    )
        invariant
            at <= order.len(),
            order@ == before,
            new < entries@.len(),
            forall|k: int| 0 <= k < before.len() ==> #[trigger] before[k] < new,
            forall|k: int|
                0 <= k < at ==> name_le(
                    entries@[#[trigger] before[k] as int].name@,
                    entries@[new as int].name@,
                ),
        decreases order.len() - at,
    {
        at = at + 1;
    }
    order.insert(at, new);
    proof {
        let after = order@;
        let n = entries@[new as int].name@;
        assert(after == before.insert(at as int, new));
        assert forall|q: int| at <= q < before.len() implies name_le(
            n,
            entries@[#[trigger] before[q] as int].name@,
        ) by {
            let first = entries@[before[at as int] as int].name@;
            name_order_is_total(n, first);
            name_order_is_transitive(n, first, entries@[before[q] as int].name@);
        }
        name_order_is_total(n, n);
        assert forall|a: int, b: int|
            #![trigger after[a], after[b]]
            0 <= a <= b < after.len() implies name_le(
            entries@[after[a] as int].name@,
            entries@[after[b] as int].name@,
        ) by {
            let pa = if a < at { a } else { a - 1 };
            let pb = if b < at { b } else { b - 1 };
            if a != at {
                assert(after[a] == before[pa]);
            }
            if b != at {
                assert(after[b] == before[pb]);
            }
        }
        assert forall|i: usize| #[trigger] after.contains(i) <==> i == new || before.contains(i) by {
            if before.contains(i) {
                let k = choose|k: int| 0 <= k < before.len() && before[k] == i;
                assert(after[if k < at { k } else { k + 1 }] == i);
            }
            if i == new {
                assert(after[at as int] == i);
            }
            if after.contains(i) && i != new {
                let k = choose|k: int| 0 <= k < after.len() && after[k] == i;
                assert(before[if k < at { k } else { k - 1 }] == i);
            }
        }
    }
}

/// The positions of the M4B files, in the order of the names.
fn m4b_positions(entries: &[FileEntry]) -> (r: Vec<usize>)
    ensures
        m4b_order(entries@, r@),
{
    let mut order: Vec<usize> = Vec::new();
    let mut i: usize = 0;
    while i < entries.len()
        invariant
            i <= entries.len(),
            order@.no_duplicates(),
            names_ascend(entries@, order@),
            forall|k: int| 0 <= k < order@.len() ==> #[trigger] order@[k] < i,
            forall|j: usize| #[trigger]
                order@.contains(j) <==> j < i && m4b_at(entries@, j as int),
        decreases entries.len() - i,
    {
        if entries[i].is_file && is_m4b_file(entries[i].name.as_slice()) {
            insert_by_name(entries, &mut order, i);
        }
        i = i + 1;
    }
    order
}

// ---------------------------------------------------------------------------
// Selection
// ---------------------------------------------------------------------------

/// Why no file can be matched
#[derive(Debug, Clone, Copy, PartialEq, Eq, Structural)]
pub enum SelectionError {
    FileNotFound,
    NotAnM4b,
    NotADirectory,
    NothingGiven,
}

impl SelectionError {
    /// The message of the error.
    pub open spec fn text(self) -> Seq<char> {
        match self {
            Self::FileNotFound => "File not found"@,
            Self::NotAnM4b => "File is not an M4B"@,
            Self::NotADirectory => "Not a directory"@,
            Self::NothingGiven => "Must specify --file or --dir"@,
        }
    }

    /// The message of the error.
    pub fn to_string(&self) -> (r: String)
        ensures
            r@ == self.text(),
    {
        let text: &'static str = match self {
            Self::FileNotFound => "File not found",
            Self::NotAnM4b => "File is not an M4B",
            Self::NotADirectory => "Not a directory",
            Self::NothingGiven => "Must specify --file or --dir",
        };
        text.to_owned()
    }
}

/// What the user pointed at
pub enum MatchTarget {
    /// A file
    File(PathBuf),
    /// A directory
    Directory(PathBuf),
    Nothing,
}

/// What the user pointed at, where both a file and a directory may be given.
pub open spec fn target_of(file: Option<PathBuf>, dir: Option<PathBuf>) -> MatchTarget {
    if file is Some {
        MatchTarget::File(file->0)
    } else if dir is Some {
        MatchTarget::Directory(dir->0)
    } else {
        MatchTarget::Nothing
    }
}

/// What the user pointed at: a file goes before a directory
pub fn match_target(file: Option<PathBuf>, dir: Option<PathBuf>) -> (r: MatchTarget)
    ensures
        r == match (file, dir) {
            (Some(f), _) => MatchTarget::File(f),
            (None, Some(d)) => MatchTarget::Directory(d),
            (None, None) => MatchTarget::Nothing,
        },
        r == target_of(file, dir),
{
    match (file, dir) {
        (Some(f), _) => MatchTarget::File(f),
        (None, Some(d)) => MatchTarget::Directory(d),
        (None, None) => MatchTarget::Nothing,
    }
}

/// What stands where the user pointed
pub enum MatchInput {
    /// A path given as a file
    File { path: PathBuf, name: Vec<u8>, exists: bool },
    /// A path given as a directory, with its entries
    Directory { is_dir: bool, entries: Vec<FileEntry> },
    Nothing,
}

/// Why no file of an input can be matched.
pub open spec fn selection_error(input: MatchInput) -> Option<SelectionError> {
    match input {
        MatchInput::File { path, name, exists } => if !exists {
            Some(SelectionError::FileNotFound)
        } else if !has_extension(name@, "m4b"@) {
            Some(SelectionError::NotAnM4b)
        } else {
            None
        },
        MatchInput::Directory { is_dir, entries } => if !is_dir {
            Some(SelectionError::NotADirectory)
        } else {
            None
        },
        MatchInput::Nothing => Some(SelectionError::NothingGiven),
    }
}

/// Whether a list of files is that of an input: the file itself, or the M4B files of the
/// directory in the order of their names.
pub open spec fn selects(input: MatchInput, files: Seq<PathBuf>) -> bool {
    match input {
        MatchInput::File { path, name, exists } => files == seq![path],
        MatchInput::Directory { is_dir, entries } => exists|order: Seq<usize>| #[trigger]
            m4b_order(entries@, order) && files == paths_at(entries@, order),
        MatchInput::Nothing => false,
    }
}

/// Get list of M4B files to process
pub fn get_files_to_process(input: &MatchInput) -> (r: Result<Vec<PathBuf>, SelectionError>)
    ensures
        match r {
            Ok(files) => selection_error(*input) is None && selects(*input, files@),
            Err(e) => selection_error(*input) == Some(e),
        },
{
    match input {
        MatchInput::File { path, name, exists } => {
            if !*exists {
                return Err(SelectionError::FileNotFound);
            }
            if !is_m4b_file(name.as_slice()) {
                return Err(SelectionError::NotAnM4b);
            }
            let mut files: Vec<PathBuf> = Vec::new();
            files.push(path.clone());
            proof {
                assert(files@ =~= seq![*path]);
            }
            Ok(files)
        },
        MatchInput::Directory { is_dir, entries } => {
            if !*is_dir {
                return Err(SelectionError::NotADirectory);
            }
            let order: Vec<usize> = m4b_positions(entries.as_slice());
            let mut files: Vec<PathBuf> = Vec::new();
            let mut k: usize = 0;
            while k < order.len()
                invariant
                    k <= order.len(),
                    m4b_order(entries@, order@),
                    files@ == paths_at(entries@, order@.take(k as int)),
                decreases order.len() - k,
            {
                assert(order@.contains(order@[k as int]));
                files.push(entries[order[k]].path.clone());
                proof {
                    assert(order@.take(k + 1) =~= order@.take(k as int).push(order@[k as int]));
                    assert(paths_at(entries@, order@.take(k + 1)) =~= files@);
                }
                k = k + 1;
            }
            assert(order@.take(order@.len() as int) =~= order@);
            Ok(files)
        },
        MatchInput::Nothing => Err(SelectionError::NothingGiven),
    }
}

// ---------------------------------------------------------------------------
// Laws
// ---------------------------------------------------------------------------

/// An entry of a directory is matched if and only if it is an M4B file.
pub proof fn exactly_the_m4b_files_are_selected(entries: Seq<FileEntry>, order: Seq<usize>, i: usize)
    requires
        m4b_order(entries, order),
    ensures
        m4b_at(entries, i as int) <==> exists|k: int|
            0 <= k < order.len() && #[trigger] order[k] == i && paths_at(entries, order)[k]
                == entries[i as int].path,
{
    if m4b_at(entries, i as int) {
        assert(order.contains(i));
        let k = choose|k: int| 0 <= k < order.len() && order[k] == i;
        assert(paths_at(entries, order)[k] == entries[i as int].path);
    }
    if exists|k: int| 0 <= k < order.len() && #[trigger] order[k] == i {
        assert(order.contains(i));
    }
}

/// Whether no two of the entries have the same name, as in every directory.
pub open spec fn names_differ(entries: Seq<FileEntry>) -> bool {
    forall|i: int, j: int|
        #![trigger entries[i], entries[j]]
        0 <= i < entries.len() && 0 <= j < entries.len() && entries[i].name@ == entries[j].name@
            ==> i == j
}

/// What is left of a row without repetitions after its first element.
proof fn lemma_tail(row: Seq<usize>)
    requires
        row.len() > 0,
        row.no_duplicates(),
    ensures
        row.skip(1).no_duplicates(),
        forall|i: usize| #[trigger] row.skip(1).contains(i) <==> row.contains(i) && i != row[0],
{
    let tail = row.skip(1);
    assert forall|i: usize| #[trigger] tail.contains(i) <==> row.contains(i) && i != row[0] by {
        if tail.contains(i) {
            let k = choose|k: int| 0 <= k < tail.len() && tail[k] == i;
            assert(row[k + 1] == i);
        }
        if row.contains(i) && i != row[0] {
            let k = choose|k: int| 0 <= k < row.len() && row[k] == i;
            assert(tail[k - 1] == i);
        }
    }
}

proof fn lemma_orders_agree(entries: Seq<FileEntry>, a: Seq<usize>, b: Seq<usize>)
    requires
        names_differ(entries),
        a.no_duplicates(),
        b.no_duplicates(),
        names_ascend(entries, a),
        names_ascend(entries, b),
        forall|i: usize| #[trigger] a.contains(i) <==> b.contains(i),
        forall|i: usize| #[trigger] a.contains(i) ==> i < entries.len(),
    ensures
        a == b,
    decreases a.len(),
{
    if a.len() == 0 {
        if b.len() > 0 {
            assert(b.contains(b[0]));
            assert(a.contains(b[0]));
        }
        assert(a =~= b);
    } else {
        assert(a.contains(a[0]));
        let k = choose|k: int| 0 <= k < b.len() && b[k] == a[0];
        assert(b.contains(b[0]));
        assert(a.contains(b[0]));
        let m = choose|m: int| 0 <= m < a.len() && a[m] == b[0];
        let x = entries[a[0] as int].name@;
        let y = entries[b[0] as int].name@;
        assert(name_le(x, entries[a[m] as int].name@));
        assert(name_le(y, entries[b[k] as int].name@));
        name_order_is_antisymmetric(x, y);
        assert(a[0] == b[0]);
        lemma_tail(a);
        lemma_tail(b);
        let at = a.skip(1);
        let bt = b.skip(1);
        assert(names_ascend(entries, at)) by {
            assert forall|p: int, q: int|
                #![trigger at[p], at[q]]
                0 <= p <= q < at.len() implies name_le(
                entries[at[p] as int].name@,
                entries[at[q] as int].name@,
            ) by {
                assert(at[p] == a[p + 1] && at[q] == a[q + 1]);
            }
        }
        assert(names_ascend(entries, bt)) by {
            assert forall|p: int, q: int|
                #![trigger bt[p], bt[q]]
                0 <= p <= q < bt.len() implies name_le(
                entries[bt[p] as int].name@,
                entries[bt[q] as int].name@,
            ) by {
                assert(bt[p] == b[p + 1] && bt[q] == b[q + 1]);
            }
        }
        lemma_orders_agree(entries, at, bt);
        assert(a =~= seq![a[0]] + at);
        assert(b =~= seq![b[0]] + bt);
    }
}

/// The files of a directory can be selected in one way only: the entries determine the list.
pub proof fn a_directory_determines_its_selection(
    entries: Seq<FileEntry>,
    a: Seq<usize>,
    b: Seq<usize>,
)
    requires
        names_differ(entries),
        m4b_order(entries, a),
        m4b_order(entries, b),
    ensures
        a == b,
        paths_at(entries, a) == paths_at(entries, b),
{
    assert forall|i: usize| #[trigger] a.contains(i) <==> b.contains(i) by {
        assert(a.contains(i) <==> m4b_at(entries, i as int));
        assert(b.contains(i) <==> m4b_at(entries, i as int));
    }
    lemma_orders_agree(entries, a, b);
}

} // verus!
