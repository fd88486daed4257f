use vstd::prelude::*;
use std::path::PathBuf;
use crate::ids::{is_v4_uuid_text, random_uuid_text};
use crate::protocol::{DEFAULT_CHUNK_SIZE, DEFAULT_PARALLEL_WORKERS};
use crate::text::{chars_of, strings_view};

verus! {

/// A path relative to a transfer root, as its components (each a plain name).
#[derive(Debug)]
pub struct RelativePath {
    pub components: Vec<String>,
}

impl View for RelativePath {
    type V = Seq<Seq<char>>;

    open spec fn view(&self) -> Seq<Seq<char>> {
        strings_view(self.components@)
    }
}

impl Clone for RelativePath {
    fn clone(&self) -> (r: Self)
        ensures
            r@ == self@,
    {
        RelativePath { components: crate::text::clone_strings(&self.components) }
    }
}

/// One file of a transfer.
#[derive(Debug)]
pub struct TransferEntry {
    pub source_path: PathBuf,
    pub relative_path: RelativePath,
    pub size: u64,
    pub blake3: Option<String>,
}

/// What is sent: the selected paths and every file under them, sorted by relative path.
#[derive(Debug)]
pub struct TransferManifest {
    pub transfer_id: String,
    pub root_paths: Vec<PathBuf>,
    pub entries: Vec<TransferEntry>,
    pub total_bytes: u64,
    pub chunk_size: u64,
    pub parallel_workers: u8,
}

#[derive(Debug)]
pub enum TransferError {
    EmptySelection,
    InvalidFileName(PathBuf),
    ReadMetadata { path: PathBuf, source: std::io::Error },
    ReadDirectory { path: PathBuf, source: std::io::Error },
    UnsafeDestination(String),
    UnsupportedSymlink(PathBuf),
    DestinationParentSymlink(PathBuf),
    DestinationParentNotDirectory(PathBuf),
}

/// Sum of the sizes of the entries.
pub open spec fn entries_total(entries: Seq<TransferEntry>) -> nat
    decreases entries.len(),
{
    if entries.len() == 0 {
        0
    } else {
        entries_total(entries.drop_last()) + entries.last().size as nat
    }
}

/// The total size of the entries, or `None` when it does not fit in 64 bits.
pub fn total_entry_bytes(entries: &Vec<TransferEntry>) -> (r: Option<u64>)
    ensures
        r == (if entries_total(entries@) <= u64::MAX { Some(entries_total(entries@) as u64) } else { None::<u64> }),
{
    let mut total: u64 = 0;
    let mut i: usize = 0;
    while i < entries.len()
        invariant
            i <= entries@.len(),
            total == entries_total(entries@.take(i as int)),
        decreases entries@.len() - i,
    {
        assert(entries@.take(i as int + 1).drop_last() =~= entries@.take(i as int));
        let size = entries[i].size;
        if total > u64::MAX - size {
            proof {
                lemma_entries_total_prefix(entries@, i as int + 1);
            }
            return None;
        }
        total = total + size;
        i = i + 1;
    }
    assert(entries@.take(entries@.len() as int) =~= entries@);
    Some(total)
}

proof fn lemma_entries_total_prefix(entries: Seq<TransferEntry>, k: int)
    requires
        0 <= k <= entries.len(),
    ensures
        entries_total(entries.take(k)) <= entries_total(entries),
    decreases entries.len() - k,
{
    if k < entries.len() {
        lemma_entries_total_prefix(entries, k + 1);
        assert(entries.take(k + 1).drop_last() =~= entries.take(k));
    } else {
        assert(entries.take(k) =~= entries);
    }
}

impl TransferManifest {
    /// A manifest with a new random transfer ID (a version 4 UUID), the default chunk size and worker
    /// count, and the total of the entry sizes.
    pub fn new(root_paths: Vec<PathBuf>, entries: Vec<TransferEntry>) -> (m: Self)
        requires
            entries_total(entries@) <= u64::MAX,
        ensures
            is_v4_uuid_text(m.transfer_id@),
            m.root_paths == root_paths,
            m.entries == entries,
            m.total_bytes == entries_total(entries@),
            m.chunk_size == DEFAULT_CHUNK_SIZE,
            m.parallel_workers == DEFAULT_PARALLEL_WORKERS,
    {
        let total = total_entry_bytes(&entries);
        let total_bytes = match total {
            Some(t) => t,
            None => 0,
        };
        TransferManifest {
            transfer_id: random_uuid_text(),
            root_paths,
            entries,
            total_bytes,
            chunk_size: DEFAULT_CHUNK_SIZE,
            parallel_workers: DEFAULT_PARALLEL_WORKERS,
        }
    }
}

/// Strict lexicographic order on names, by code point (the byte order of their UTF-8 text).
pub open spec fn name_lt(a: Seq<char>, b: Seq<char>) -> bool
    decreases a.len(),
{
    if a.len() == 0 {
        b.len() > 0
    } else if b.len() == 0 {
        false
    } else if a[0] != b[0] {
        (a[0] as int) < (b[0] as int)
    } else {
        name_lt(a.drop_first(), b.drop_first())
    }
}

/// Strict order on relative paths: component by component, a prefix first.
pub open spec fn path_lt(a: Seq<Seq<char>>, b: Seq<Seq<char>>) -> bool
    decreases a.len(),
{
    if a.len() == 0 {
        b.len() > 0
    } else if b.len() == 0 {
        false
    } else if a[0] != b[0] {
        name_lt(a[0], b[0])
    } else {
        path_lt(a.drop_first(), b.drop_first())
    }
}

/// Names are ordered lexicographically with a proper prefix first: a name comes
/// before every longer name that extends it (so "notes.txt" before
/// "notes.txt.bak"), and never after it.
pub proof fn lemma_name_prefix_first(a: Seq<char>, t: Seq<char>)
    requires
        t.len() > 0,
    ensures
        name_lt(a, a + t),
        !name_lt(a + t, a),
    decreases a.len(),
{
    if a.len() > 0 {
        assert((a + t)[0] == a[0]);
        assert((a + t).drop_first() =~= a.drop_first() + t);
        lemma_name_prefix_first(a.drop_first(), t);
    }
}

/// Two names that agree up to some position are ordered by the code points at the
/// first position where they differ, whatever follows; and no name comes before
/// itself.
pub proof fn lemma_name_first_difference(p: Seq<char>, c: char, d: char, x: Seq<char>, y: Seq<char>)
    requires
        (c as int) < (d as int),
    ensures
        name_lt(p + seq![c] + x, p + seq![d] + y),
        !name_lt(p + seq![d] + y, p + seq![c] + x),
        !name_lt(p, p),
    decreases p.len(),
{
    let a = p + seq![c] + x;
    let b = p + seq![d] + y;
    if p.len() == 0 {
        assert(a[0] == c);
        assert(b[0] == d);
    } else {
        assert(a[0] == p[0]);
        assert(b[0] == p[0]);
        assert(a.drop_first() =~= p.drop_first() + seq![c] + x);
        assert(b.drop_first() =~= p.drop_first() + seq![d] + y);
        lemma_name_first_difference(p.drop_first(), c, d, x, y);
    }
}

/// Relative paths are ordered component by component: a path comes before every
/// longer path inside it (a directory before its contents), and paths that agree
/// up to some component are ordered by the names of the first components that
/// differ.
pub proof fn lemma_path_order_by_components(
    p: Seq<Seq<char>>,
    t: Seq<Seq<char>>,
    m: Seq<char>,
    n: Seq<char>,
    x: Seq<Seq<char>>,
    y: Seq<Seq<char>>,
)
    ensures
        t.len() > 0 ==> path_lt(p, p + t) && !path_lt(p + t, p),
        name_lt(m, n) ==> path_lt(p + seq![m] + x, p + seq![n] + y),
    decreases p.len(),
{
    let a = p + seq![m] + x;
    let b = p + seq![n] + y;
    if p.len() == 0 {
        assert(a[0] == m);
        assert(b[0] == n);
        if name_lt(m, n) {
            assert(m != n) by {
                if m == n {
                    lemma_name_first_difference(m, 'a', 'b', Seq::empty(), Seq::empty());
                }
            }
        }
    } else {
        assert((p + t)[0] == p[0]);
        assert((p + t).drop_first() =~= p.drop_first() + t);
        assert(a[0] == p[0]);
        assert(b[0] == p[0]);
        assert(a.drop_first() =~= p.drop_first() + seq![m] + x);
        assert(b.drop_first() =~= p.drop_first() + seq![n] + y);
        lemma_path_order_by_components(p.drop_first(), t, m, n, x, y);
    }
}

/// Inserts `x` after every entry whose relative path does not come after its own.
pub open spec fn insert_by_path(sorted: Seq<TransferEntry>, x: TransferEntry) -> Seq<TransferEntry>
    decreases sorted.len(),
{
    if sorted.len() == 0 {
        seq![x]
    } else if path_lt(x.relative_path@, sorted.last().relative_path@) {
        insert_by_path(sorted.drop_last(), x).push(sorted.last())
    } else {
        sorted.push(x)
    }
}

/// The entries stably sorted by relative path: entries with equal paths keep
/// their order.
pub open spec fn sort_by_path(entries: Seq<TransferEntry>) -> Seq<TransferEntry>
    decreases entries.len(),
{
    if entries.len() == 0 {
        entries
    } else {
        insert_by_path(sort_by_path(entries.drop_last()), entries.last())
    }
}

fn name_less(a: &String, b: &String) -> (r: bool)
    ensures
        r == name_lt(a@, b@),
{
    let x = chars_of(a.as_str());
    let y = chars_of(b.as_str());
    let mut i: usize = 0;
    assert(x@.skip(0) =~= x@);
    assert(y@.skip(0) =~= y@);
    while i < x.len() && i < y.len() && x[i] == y[i]
        invariant
            i <= x@.len(),
            i <= y@.len(),
            name_lt(x@, y@) == name_lt(x@.skip(i as int), y@.skip(i as int)),
        decreases x@.len() - i,
    {
        assert(x@.skip(i as int).drop_first() =~= x@.skip(i as int + 1));
        assert(y@.skip(i as int).drop_first() =~= y@.skip(i as int + 1));
        i = i + 1;
    }
    if i == x.len() {
        i < y.len()
    } else if i == y.len() {
        false
    } else {
        x[i] < y[i]
    }
}

fn path_less(a: &RelativePath, b: &RelativePath) -> (r: bool)
    ensures
        r == path_lt(a@, b@),
{
    let mut i: usize = 0;
    assert(a@.skip(0) =~= a@);
    assert(b@.skip(0) =~= b@);
    while i < a.components.len() && i < b.components.len() && a.components[i] == b.components[i]
        invariant
            i <= a@.len(),
            i <= b@.len(),
            a@.len() == a.components@.len(),
            b@.len() == b.components@.len(),
            path_lt(a@, b@) == path_lt(a@.skip(i as int), b@.skip(i as int)),
        decreases a@.len() - i,
    {
        assert(a@.skip(i as int).drop_first() =~= a@.skip(i as int + 1));
        assert(b@.skip(i as int).drop_first() =~= b@.skip(i as int + 1));
        i = i + 1;
    }
    if i == a.components.len() {
        i < b.components.len()
    } else if i == b.components.len() {
        false
    } else {
        name_less(&a.components[i], &b.components[i])
    }
}

proof fn lemma_insert_at(sorted: Seq<TransferEntry>, x: TransferEntry, j: int)
    requires
        0 <= j <= sorted.len(),
        forall|k: int| j <= k < sorted.len() ==> path_lt(x.relative_path@, #[trigger] sorted[k].relative_path@),
        j == 0 || !path_lt(x.relative_path@, sorted[j - 1].relative_path@),
    ensures
        insert_by_path(sorted, x) == sorted.take(j).push(x) + sorted.skip(j),
    decreases sorted.len() - j,
{
    if sorted.len() == j {
        if j == 0 {
            assert(sorted.take(0).push(x) + sorted.skip(0) =~= seq![x]);
        } else {
            assert(sorted.take(j).push(x) + sorted.skip(j) =~= sorted.push(x));
        }
    } else {
        let s = sorted.drop_last();
        lemma_insert_at(s, x, j);
        assert(sorted.take(j).push(x) + sorted.skip(j) =~= (s.take(j).push(x) + s.skip(j)).push(sorted.last()));
    }
}

/// Sorts the entries stably by relative path.
pub fn sort_entries_by_path(entries: Vec<TransferEntry>) -> (sorted: Vec<TransferEntry>)
    ensures
        sorted@ == sort_by_path(entries@),
{
    let mut rest = entries;
    let ghost original = rest@;
    let mut sorted: Vec<TransferEntry> = Vec::new();
    while rest.len() > 0
        invariant
            rest@.len() <= original.len(),
            rest@ == original.skip(original.len() - rest@.len()),
            sorted@ == sort_by_path(original.take(original.len() - rest@.len())),
        decreases rest@.len(),
    {
        let ghost n = original.len() - rest@.len();
        let x = rest.remove(0);
        proof {
            assert(x == original[n]);
            assert(original.take(n + 1).drop_last() =~= original.take(n));
            assert(rest@ =~= original.skip(n + 1));
        }
        let mut j = sorted.len();
        while j > 0 && path_less(&x.relative_path, &sorted[j - 1].relative_path)
            invariant
                j <= sorted@.len(),
                forall|k: int| j <= k < sorted@.len() ==> path_lt(x.relative_path@, #[trigger] sorted@[k].relative_path@),
            decreases j,
        {
            j = j - 1;
        }
        proof {
            lemma_insert_at(sorted@, x, j as int);
        }
        sorted.insert(j, x);
        assert(sorted@ =~= sort_by_path(original.take(n + 1)));
    }
    assert(original.take(original.len() as int) =~= original);
    sorted
}

/// Builds the manifest of a selection from the entries found under it: an empty
/// selection is refused; otherwise the entries are sorted by relative path.
pub fn manifest_from_selection(paths: Vec<PathBuf>, entries: Vec<TransferEntry>) -> (r: Result<TransferManifest, TransferError>)
    requires
        entries_total(entries@) <= u64::MAX,
    ensures
        paths@.len() == 0 ==> r matches Err(TransferError::EmptySelection),
        paths@.len() > 0 ==> (r matches Ok(m) && m.root_paths == paths && m.entries@ == sort_by_path(entries@)
            && m.total_bytes == entries_total(entries@) && m.chunk_size == DEFAULT_CHUNK_SIZE
            && m.parallel_workers == DEFAULT_PARALLEL_WORKERS && is_v4_uuid_text(m.transfer_id@)),
{
    if paths.len() == 0 {
        return Err(TransferError::EmptySelection);
    }
    let sorted = sort_entries_by_path(entries);
    proof {
        lemma_sort_keeps_total(entries@);
    }
    Ok(TransferManifest::new(paths, sorted))
}

proof fn lemma_insert_keeps_total(sorted: Seq<TransferEntry>, x: TransferEntry)
    ensures
        entries_total(insert_by_path(sorted, x)) == entries_total(sorted) + x.size,
    decreases sorted.len(),
{
    if sorted.len() > 0 && path_lt(x.relative_path@, sorted.last().relative_path@) {
        lemma_insert_keeps_total(sorted.drop_last(), x);
        let ins = insert_by_path(sorted.drop_last(), x);
        assert(insert_by_path(sorted, x) == ins.push(sorted.last()));
        assert(ins.push(sorted.last()).drop_last() =~= ins);
        assert(entries_total(ins.push(sorted.last())) == entries_total(ins) + sorted.last().size);
    } else if sorted.len() == 0 {
        assert(seq![x].drop_last() =~= Seq::<TransferEntry>::empty());
        assert(entries_total(seq![x]) == entries_total(Seq::<TransferEntry>::empty()) + x.size);
    } else {
        assert(sorted.push(x).drop_last() =~= sorted);
        assert(entries_total(sorted.push(x)) == entries_total(sorted) + x.size);
    }
}

/// Sorting changes neither the entries nor their total size.
pub proof fn lemma_sort_keeps_total(entries: Seq<TransferEntry>)
    ensures
        entries_total(sort_by_path(entries)) == entries_total(entries),
        sort_by_path(entries).len() == entries.len(),
    decreases entries.len(),
{
    if entries.len() > 0 {
        lemma_sort_keeps_total(entries.drop_last());
        lemma_insert_keeps_total(sort_by_path(entries.drop_last()), entries.last());
        lemma_insert_len(sort_by_path(entries.drop_last()), entries.last());
    }
}

proof fn lemma_insert_len(sorted: Seq<TransferEntry>, x: TransferEntry)
    ensures
        insert_by_path(sorted, x).len() == sorted.len() + 1,
    decreases sorted.len(),
{
    if sorted.len() > 0 && path_lt(x.relative_path@, sorted.last().relative_path@) {
        lemma_insert_len(sorted.drop_last(), x);
    }
}

proof fn lemma_name_lt_order(a: Seq<char>, b: Seq<char>, c: Seq<char>)
    ensures
        !name_lt(a, a),
        name_lt(a, b) && name_lt(b, c) ==> name_lt(a, c),
        a != b ==> name_lt(a, b) || name_lt(b, a),
        name_lt(a, b) ==> !name_lt(b, a),
    decreases a.len(),
{
    if a.len() > 0 {
        lemma_name_lt_order(a.drop_first(), a.drop_first(), a.drop_first());
        if b.len() > 0 && c.len() > 0 {
            lemma_name_lt_order(a.drop_first(), b.drop_first(), c.drop_first());
        } else if b.len() > 0 {
            lemma_name_lt_order(a.drop_first(), b.drop_first(), b.drop_first());
        }
        if b.len() > 0 && a != b && a[0] == b[0] {
            assert(a =~= seq![a[0]] + a.drop_first());
            assert(b =~= seq![b[0]] + b.drop_first());
            assert(a.drop_first() != b.drop_first());
        }
        if b.len() > 0 && a[0] != b[0] {
            assert((a[0] as int) != (b[0] as int));
        }
    } else {
        if b.len() == 0 {
            assert(a =~= b);
        }
    }
}

proof fn lemma_path_lt_order(a: Seq<Seq<char>>, b: Seq<Seq<char>>, c: Seq<Seq<char>>)
    ensures
        !path_lt(a, a),
        path_lt(a, b) && path_lt(b, c) ==> path_lt(a, c),
        a != b ==> path_lt(a, b) || path_lt(b, a),
        path_lt(a, b) ==> !path_lt(b, a),
    decreases a.len(),
{
    if a.len() > 0 {
        lemma_path_lt_order(a.drop_first(), a.drop_first(), a.drop_first());
        if b.len() > 0 {
            lemma_name_lt_order(a[0], b[0], a[0]);
            if c.len() > 0 {
                lemma_name_lt_order(a[0], b[0], c[0]);
                lemma_name_lt_order(a[0], c[0], b[0]);
                lemma_path_lt_order(a.drop_first(), b.drop_first(), c.drop_first());
            } else {
                lemma_path_lt_order(a.drop_first(), b.drop_first(), b.drop_first());
            }
            if a != b && a[0] == b[0] {
                assert(a =~= seq![a[0]] + a.drop_first());
                assert(b =~= seq![b[0]] + b.drop_first());
            }
        }
    } else {
        if b.len() == 0 {
            assert(a =~= b);
        }
    }
}

/// Whether no entry comes after a later one by relative path.
pub open spec fn sorted_by_path(s: Seq<TransferEntry>) -> bool {
    forall|i: int, j: int| 0 <= i < j < s.len()
        ==> !path_lt(#[trigger] s[j].relative_path@, #[trigger] s[i].relative_path@)
}

proof fn lemma_not_after_transitive(a: Seq<Seq<char>>, b: Seq<Seq<char>>, c: Seq<Seq<char>>)
    requires
        !path_lt(b, a),
        !path_lt(c, b),
    ensures
        !path_lt(c, a),
{
    lemma_path_lt_order(a, b, c);
    lemma_path_lt_order(c, a, b);
    lemma_path_lt_order(a, b, a);
}

proof fn lemma_insert_elements(sorted: Seq<TransferEntry>, x: TransferEntry)
    ensures
        insert_by_path(sorted, x).to_multiset() == sorted.to_multiset().insert(x),
        forall|k: int| 0 <= k < insert_by_path(sorted, x).len() ==>
            #[trigger] insert_by_path(sorted, x)[k] == x || sorted.contains(insert_by_path(sorted, x)[k]),
    decreases sorted.len(),
{
    broadcast use vstd::multiset::group_multiset_axioms, vstd::seq_lib::group_to_multiset_ensures;
    let r = insert_by_path(sorted, x);
    if sorted.len() == 0 {
        assert(seq![x] =~= Seq::<TransferEntry>::empty().push(x));
    } else if path_lt(x.relative_path@, sorted.last().relative_path@) {
        let s = sorted.drop_last();
        lemma_insert_elements(s, x);
        assert(sorted =~= s.push(sorted.last()));
        assert forall|k: int| 0 <= k < r.len() implies #[trigger] r[k] == x || sorted.contains(r[k]) by {
            lemma_insert_len(s, x);
            if k < r.len() - 1 {
                assert(r[k] == insert_by_path(s, x)[k]);
                if r[k] != x {
                    let w = choose|w: int| 0 <= w < s.len() && s[w] == r[k];
                    assert(sorted[w] == r[k]);
                }
            } else {
                assert(sorted[sorted.len() - 1] == r[k]);
            }
        }
    } else {
        assert forall|k: int| 0 <= k < r.len() implies #[trigger] r[k] == x || sorted.contains(r[k]) by {
            if k < sorted.len() {
                assert(sorted[k] == r[k]);
            }
        }
    }
}

proof fn lemma_insert_sorted(sorted: Seq<TransferEntry>, x: TransferEntry)
    requires
        sorted_by_path(sorted),
    ensures
        sorted_by_path(insert_by_path(sorted, x)),
    decreases sorted.len(),
{
    let r = insert_by_path(sorted, x);
    if sorted.len() == 0 {
    } else if path_lt(x.relative_path@, sorted.last().relative_path@) {
        let s = sorted.drop_last();
        let last = sorted.last();
        lemma_insert_sorted(s, x);
        lemma_insert_elements(s, x);
        lemma_insert_len(s, x);
        let ins = insert_by_path(s, x);
        assert forall|i: int, j: int| 0 <= i < j < r.len()
            implies !path_lt(#[trigger] r[j].relative_path@, #[trigger] r[i].relative_path@) by {
            if j == r.len() - 1 {
                assert(r[j] == last);
                assert(r[i] == ins[i]);
                if ins[i] == x {
                    lemma_path_lt_order(x.relative_path@, last.relative_path@, x.relative_path@);
                } else {
                    let w = choose|w: int| 0 <= w < s.len() && s[w] == ins[i];
                    assert(sorted[w] == ins[i]);
                    assert(sorted[sorted.len() - 1] == last);
                }
            } else {
                assert(r[i] == ins[i] && r[j] == ins[j]);
            }
        }
    } else {
        let last = sorted.last();
        assert forall|i: int, j: int| 0 <= i < j < r.len()
            implies !path_lt(#[trigger] r[j].relative_path@, #[trigger] r[i].relative_path@) by {
            if j == r.len() - 1 {
                assert(r[j] == x);
                assert(r[i] == sorted[i]);
                if i < sorted.len() - 1 {
                    assert(sorted[sorted.len() - 1] == last);
                    lemma_not_after_transitive(sorted[i].relative_path@, last.relative_path@, x.relative_path@);
                }
            } else {
                assert(r[i] == sorted[i] && r[j] == sorted[j]);
            }
        }
    }
}

/// The sorted entries are in order of relative path and are exactly the given
/// entries, none lost and none added.
pub proof fn lemma_sort_by_path_sorts(entries: Seq<TransferEntry>)
    ensures
        sorted_by_path(sort_by_path(entries)),
        sort_by_path(entries).to_multiset() == entries.to_multiset(),
    decreases entries.len(),
{
    broadcast use vstd::multiset::group_multiset_axioms, vstd::seq_lib::group_to_multiset_ensures;
    if entries.len() > 0 {
        lemma_sort_by_path_sorts(entries.drop_last());
        lemma_insert_sorted(sort_by_path(entries.drop_last()), entries.last());
        lemma_insert_elements(sort_by_path(entries.drop_last()), entries.last());
        assert(entries =~= entries.drop_last().push(entries.last()));
    }
}

/// What a path in a selection turned out to be (links are not followed).
#[derive(Debug, Clone, Copy, PartialEq, Eq, Structural)]
pub enum PathKind {
    Symlink,
    /// A regular file of this many bytes.
    File(u64),
    Directory,
    /// Anything else (a socket, a device, ...).
    Other,
}

/// What to do with a path met while building a manifest.
#[derive(Debug)]
pub enum WalkAction {
    /// List this file.
    AddFile(TransferEntry),
    /// List the contents of this directory, under this relative path.
    Descend { dir: PathBuf, relative: RelativePath },
    /// Leave it out.
    Skip,
}

/// The rule for a path met while building a manifest, given the relative path it
/// gets: links are refused, files are listed, directories are entered, and
/// anything else is left out.
pub open spec fn walk_rule(path: PathBuf, relative: Seq<Seq<char>>, kind: PathKind, r: Result<WalkAction, TransferError>) -> bool {
    match kind {
        PathKind::Symlink => r matches Err(TransferError::UnsupportedSymlink(p)) && p == path,
        PathKind::File(size) => r matches Ok(WalkAction::AddFile(e)) && e.source_path == path
            && e.relative_path@ == relative && e.size == size && e.blake3 is None,
        PathKind::Directory => r matches Ok(WalkAction::Descend { dir, relative: rel }) && dir == path
            && rel@ == relative,
        PathKind::Other => r matches Ok(WalkAction::Skip),
    }
}

fn walk_action(path: PathBuf, relative: RelativePath, kind: PathKind) -> (r: Result<WalkAction, TransferError>)
    ensures
        walk_rule(path, relative@, kind, r),
{
    match kind {
        PathKind::Symlink => Err(TransferError::UnsupportedSymlink(path)),
        PathKind::File(size) => Ok(WalkAction::AddFile(TransferEntry { source_path: path, relative_path: relative, size, blake3: None })),
        PathKind::Directory => Ok(WalkAction::Descend { dir: path, relative }),
        PathKind::Other => Ok(WalkAction::Skip),
    }
}

/// A selected path: a link is refused; a file or directory without a final
/// name component is refused; otherwise it is listed or entered under its own name.
pub fn walk_selected(path: PathBuf, file_name: Option<String>, kind: PathKind) -> (r: Result<WalkAction, TransferError>)
    ensures
        kind is Symlink ==> walk_rule(path, Seq::empty(), kind, r),
        (kind is File || kind is Directory) && file_name is None ==> (r matches Err(TransferError::InvalidFileName(p)) && p == path),
        (kind is File || kind is Directory) && file_name is Some ==> walk_rule(path, seq![file_name->0@], kind, r),
        kind is Other ==> r matches Ok(WalkAction::Skip),
{
    match kind {
        PathKind::Symlink | PathKind::Other => walk_action(path, RelativePath { components: Vec::new() }, kind),
        _ => match file_name {
            None => Err(TransferError::InvalidFileName(path)),
            Some(name) => {
                let mut components: Vec<String> = Vec::new();
                components.push(name);
                let relative = RelativePath { components };
                assert(relative@ =~= seq![name@]);
                walk_action(path, relative, kind)
            },
        },
    }
}

/// A path found in a directory listed under `dir_relative`: it gets that relative
/// path followed by its own name.
pub fn walk_child(dir_relative: &RelativePath, path: PathBuf, name: String, kind: PathKind) -> (r: Result<WalkAction, TransferError>)
    ensures
        walk_rule(path, dir_relative@.push(name@), kind, r),
{
    let mut relative = dir_relative.clone();
    relative.components.push(name);
    assert(relative@ =~= dir_relative@.push(name@));
    walk_action(path, relative, kind)
}

/// Walking never drops a directory or a file, however deep: a directory met at
/// any relative path is entered at that same path, and a file met at any
/// relative path is listed under it with its size and no digest yet.
pub proof fn lemma_walk_keeps_every_level(
    path: PathBuf,
    relative: Seq<Seq<char>>,
    size: u64,
    r: Result<WalkAction, TransferError>,
    s: Result<WalkAction, TransferError>,
)
    requires
        walk_rule(path, relative, PathKind::Directory, r),
        walk_rule(path, relative, PathKind::File(size), s),
    ensures
        r matches Ok(WalkAction::Descend { dir, relative: rel }) && dir == path && rel@ == relative,
        s matches Ok(WalkAction::AddFile(e)) && e.source_path == path && e.relative_path@ == relative
            && e.size == size && e.blake3 is None,
{
}

/// Links are never followed: a link met anywhere in a selection refuses the whole
/// manifest, naming the link's path; anything that is neither a file, a directory
/// nor a link is left out.
pub proof fn lemma_walk_refuses_links(
    path: PathBuf,
    relative: Seq<Seq<char>>,
    r: Result<WalkAction, TransferError>,
    s: Result<WalkAction, TransferError>,
)
    requires
        walk_rule(path, relative, PathKind::Symlink, r),
        walk_rule(path, relative, PathKind::Other, s),
    ensures
        r matches Err(TransferError::UnsupportedSymlink(p)) && p == path,
        s matches Ok(WalkAction::Skip),
{
}

} // verus!
