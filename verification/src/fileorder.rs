//! The order in which file lists are kept: by path, component by component,
//! and for one path by modification time.
use vstd::prelude::*;
use vstd::multiset::Multiset;

verus! {

broadcast use vstd::seq_lib::group_to_multiset_ensures, vstd::multiset::group_multiset_axioms;

/// A point in time, in nanoseconds relative to the Unix epoch (negative before it).
pub type Timestamp = i128;

/// A file of a file list: its path, as the bytes of the path, and the time
/// it was last modified.
pub type FileEntry = (Vec<u8>, Timestamp);

/// The mathematical value of a [`FileEntry`].
pub type FileEntryView = (Seq<u8>, Timestamp);

/// The result of comparing two values in one of the orders of this module.
#[derive(Clone, Copy, Debug, PartialEq, Eq, Structural)]
pub enum Precedence {
    Before,
    Same,
    After,
}

pub open spec fn entry_view(e: FileEntry) -> FileEntryView {
    (e.0@, e.1)
}

pub open spec fn entries_view(s: Seq<FileEntry>) -> Seq<FileEntryView> {
    s.map_values(|e: FileEntry| entry_view(e))
}

/// The rank of a path byte in the path order. The separator `/` ranks below
/// every other byte, so that comparing two paths byte by byte compares them
/// component by component.
pub open spec fn byte_rank(b: u8) -> int {
    if b == 47u8 {
        0
    } else {
        b as int + 1
    }
}

/// `a` and `b` agree on their first `k` bytes, and at `k` path `a` ends
/// while `b` goes on, or the byte of `a` ranks below the byte of `b`.
pub open spec fn path_before_at(a: Seq<u8>, b: Seq<u8>, k: int) -> bool {
    &&& 0 <= k <= a.len()
    &&& k <= b.len()
    &&& forall|i: int| 0 <= i < k ==> a[i] == b[i]
    &&& (k == a.len() && k < b.len()) || (k < a.len() && k < b.len() && byte_rank(a[k])
        < byte_rank(b[k]))
}

/// Path `a` sorts strictly before path `b`.
pub open spec fn path_before(a: Seq<u8>, b: Seq<u8>) -> bool {
    exists|k: int| path_before_at(a, b, k)
}

/// Entry `x` sorts strictly before entry `y`: by path, then by time.
pub open spec fn entry_before(x: FileEntryView, y: FileEntryView) -> bool {
    path_before(x.0, y.0) || (x.0 == y.0 && x.1 < y.1)
}

/// No entry of `s` sorts before an entry that precedes it in `s`.
pub open spec fn sorted_entries(s: Seq<FileEntryView>) -> bool {
    forall|i: int, j: int| 0 <= i < j < s.len() ==> !entry_before(#[trigger] s[j], #[trigger] s[i])
}

/// The separator sorts below every other byte: where two paths agree up to
/// a point, and there one ends a component while the other goes on within
/// it, the one that ends the component sorts first (`dir/x` before
/// `dir (1)/x`).
pub proof fn lemma_separator_sorts_first(p: Seq<u8>, x: Seq<u8>, b: u8, y: Seq<u8>)
    requires
        b != 47u8,
    ensures
        path_before(p + seq![47u8] + x, p + seq![b] + y),
{
    let a = p + seq![47u8] + x;
    let c = p + seq![b] + y;
    assert(a[p.len() as int] == 47u8);
    assert(c[p.len() as int] == b);
    assert(path_before_at(a, c, p.len() as int));
}

/// Bytes other than the separator keep their order: where two paths agree
/// up to a point and then go on with different bytes within a component,
/// the smaller byte sorts first.
pub proof fn lemma_bytes_sort_in_order(p: Seq<u8>, b1: u8, x: Seq<u8>, b2: u8, y: Seq<u8>)
    requires
        b1 != 47u8,
        b2 != 47u8,
        b1 < b2,
    ensures
        path_before(p + seq![b1] + x, p + seq![b2] + y),
{
    let a = p + seq![b1] + x;
    let c = p + seq![b2] + y;
    assert(a[p.len() as int] == b1);
    assert(c[p.len() as int] == b2);
    assert(path_before_at(a, c, p.len() as int));
}

/// A path sorts before every longer path that goes on from it.
pub proof fn lemma_prefix_sorts_first(p: Seq<u8>, y: Seq<u8>)
    requires
        y.len() > 0,
    ensures
        path_before(p, p + y),
{
    assert(path_before_at(p, p + y, p.len() as int));
}

/// Returns the first index below `n` at which `a` and `b` differ, or `n`.
proof fn lemma_first_difference(a: Seq<u8>, b: Seq<u8>, n: int) -> (k: int)
    requires
        0 <= n <= a.len(),
        n <= b.len(),
    ensures
        0 <= k <= n,
        forall|i: int| 0 <= i < k ==> a[i] == b[i],
        k < n ==> a[k] != b[k],
    decreases n,
{
    if n == 0 {
        0
    } else {
        let k = lemma_first_difference(a, b, n - 1);
        if k < n - 1 {
            k
        } else if a[n - 1] != b[n - 1] {
            n - 1
        } else {
            n
        }
    }
}

/// No path sorts before itself.
pub proof fn lemma_path_before_irreflexive(a: Seq<u8>)
    ensures
        !path_before(a, a),
{
}

/// Two paths do not sort before each other.
pub proof fn lemma_path_before_asymmetric(a: Seq<u8>, b: Seq<u8>)
    ensures
        !(path_before(a, b) && path_before(b, a)),
{
    if path_before(a, b) && path_before(b, a) {
        let k1 = choose|k: int| path_before_at(a, b, k);
        let k2 = choose|k: int| path_before_at(b, a, k);
        if k1 < k2 {
            assert(b[k1] == a[k1]);
        } else if k2 < k1 {
            assert(a[k2] == b[k2]);
        }
    }
}

/// The path order is transitive.
pub proof fn lemma_path_before_transitive(a: Seq<u8>, b: Seq<u8>, c: Seq<u8>)
    requires
        path_before(a, b),
        path_before(b, c),
    ensures
        path_before(a, c),
{
    let k1 = choose|k: int| path_before_at(a, b, k);
    let k2 = choose|k: int| path_before_at(b, c, k);
    if k1 < k2 {
        assert(b[k1] == c[k1]);
        assert(path_before_at(a, c, k1));
    } else if k2 < k1 {
        assert(a[k2] == b[k2]);
        assert(path_before_at(a, c, k2));
    } else {
        assert(path_before_at(a, c, k1));
    }
}

/// Of two different paths, one sorts before the other.
pub proof fn lemma_path_before_total(a: Seq<u8>, b: Seq<u8>)
    ensures
        a == b || path_before(a, b) || path_before(b, a),
{
    let m = if a.len() <= b.len() {
        a.len() as int
    } else {
        b.len() as int
    };
    let k = lemma_first_difference(a, b, m);
    if k < m {
        if byte_rank(a[k]) < byte_rank(b[k]) {
            assert(path_before_at(a, b, k));
        } else {
            assert(path_before_at(b, a, k));
        }
    } else if a.len() < b.len() {
        assert(path_before_at(a, b, k));
    } else if b.len() < a.len() {
        assert(path_before_at(b, a, k));
    } else {
        assert(a =~= b);
    }
}

/// No entry sorts before itself, and of two entries at most one sorts before the other.
pub proof fn lemma_entry_before_asymmetric(x: FileEntryView, y: FileEntryView)
    ensures
        !(entry_before(x, y) && entry_before(y, x)),
        !entry_before(x, x),
{
    lemma_path_before_asymmetric(x.0, y.0);
    lemma_path_before_irreflexive(x.0);
    lemma_path_before_irreflexive(y.0);
}

/// The entry order is transitive.
pub proof fn lemma_entry_before_transitive(x: FileEntryView, y: FileEntryView, z: FileEntryView)
    requires
        entry_before(x, y),
        entry_before(y, z),
    ensures
        entry_before(x, z),
{
    if path_before(x.0, y.0) && path_before(y.0, z.0) {
        lemma_path_before_transitive(x.0, y.0, z.0);
    }
}

/// Of two different entries, one sorts before the other.
pub proof fn lemma_entry_before_total(x: FileEntryView, y: FileEntryView)
    ensures
        x == y || entry_before(x, y) || entry_before(y, x),
{
    lemma_path_before_total(x.0, y.0);
}

/// An entry that does not sort after `y`, where `y` sorts before `z`, sorts before `z`.
pub proof fn lemma_entry_before_after_not_before(
    x: FileEntryView,
    y: FileEntryView,
    z: FileEntryView,
)
    requires
        !entry_before(y, x),
        entry_before(y, z),
    ensures
        entry_before(x, z),
{
    lemma_entry_before_total(x, y);
    if x != y {
        lemma_entry_before_transitive(x, y, z);
    }
}

/// An entry that sorts before `y`, where `z` does not sort before `y`, sorts before `z`.
pub proof fn lemma_entry_before_not_before(x: FileEntryView, y: FileEntryView, z: FileEntryView)
    requires
        entry_before(x, y),
        !entry_before(z, y),
    ensures
        entry_before(x, z),
{
    lemma_entry_before_total(y, z);
    if y != z {
        lemma_entry_before_transitive(x, y, z);
    }
}

/// Inserting a value into a sequence inserts it into the multiset of its values.
pub proof fn lemma_insert_to_multiset<A>(s: Seq<A>, pos: int, x: A)
    requires
        0 <= pos <= s.len(),
    ensures
        s.insert(pos, x).to_multiset() =~= s.to_multiset().insert(x),
{
    let t = s.insert(pos, x);
    assert(t.remove(pos) =~= s);
    vstd::seq_lib::to_multiset_remove(t, pos);
    assert(t.contains(x)) by {
        assert(t[pos] == x);
    }
    assert(t.to_multiset().count(x) > 0);
}

/// Two sorted entry lists with the same entries are the same list.
pub proof fn lemma_sorted_entries_unique(s1: Seq<FileEntryView>, s2: Seq<FileEntryView>)
    requires
        sorted_entries(s1),
        sorted_entries(s2),
        s1.to_multiset() =~= s2.to_multiset(),
    ensures
        s1 == s2,
    decreases s1.len(),
{
    assert(s1.len() == s1.to_multiset().len());
    assert(s2.len() == s2.to_multiset().len());
    if s1.len() == 0 {
        assert(s1 =~= s2);
    } else {
        let x = s1[0];
        let y = s2[0];
        assert(s1.to_multiset().count(x) > 0) by {
            assert(s1.contains(x));
        }
        assert(s2.contains(x));
        assert(s2.to_multiset().count(y) > 0) by {
            assert(s2.contains(y));
        }
        assert(s1.contains(y));
        let j = choose|j: int| 0 <= j < s2.len() && s2[j] == x;
        let k = choose|k: int| 0 <= k < s1.len() && s1[k] == y;
        if j > 0 {
            assert(!entry_before(s2[j], s2[0]));
        }
        if k > 0 {
            assert(!entry_before(s1[k], s1[0]));
        }
        lemma_entry_before_total(x, y);
        assert(x == y);
        let t1 = s1.drop_first();
        let t2 = s2.drop_first();
        assert(s1.remove(0) =~= t1);
        assert(s2.remove(0) =~= t2);
        vstd::seq_lib::to_multiset_remove(s1, 0);
        vstd::seq_lib::to_multiset_remove(s2, 0);
        assert(t1.to_multiset() =~= t2.to_multiset());
        assert forall|a: int, b: int| 0 <= a < b < t1.len() implies !entry_before(#[trigger] t1[b], #[trigger] t1[a]) by {
            assert(t1[a] == s1[a + 1] && t1[b] == s1[b + 1]);
        }
        assert forall|a: int, b: int| 0 <= a < b < t2.len() implies !entry_before(#[trigger] t2[b], #[trigger] t2[a]) by {
            assert(t2[a] == s2[a + 1] && t2[b] == s2[b + 1]);
        }
        lemma_sorted_entries_unique(t1, t2);
        assert(s1 =~= s2) by {
            assert forall|i: int| 0 <= i < s1.len() implies s1[i] == s2[i] by {
                if i > 0 {
                    assert(s1[i] == t1[i - 1] && s2[i] == t2[i - 1]);
                }
            }
        }
    }
}

fn byte_rank_of(b: u8) -> (r: u16)
    ensures
        r == byte_rank(b),
{
    if b == 47u8 {
        0
    } else {
        b as u16 + 1
    }
}

/// Compares two paths in the path order.
pub fn compare_paths(a: &Vec<u8>, b: &Vec<u8>) -> (r: Precedence)
    ensures
        (r == Precedence::Before) == path_before(a@, b@),
        (r == Precedence::Same) == (a@ == b@),
        (r == Precedence::After) == path_before(b@, a@),
{
    proof {
        lemma_path_before_asymmetric(a@, b@);
        lemma_path_before_irreflexive(a@);
    }
    let mut i: usize = 0;
    while i < a.len() && i < b.len() && a[i] == b[i]
        invariant
            i <= a@.len(),
            i <= b@.len(),
            forall|j: int| 0 <= j < i ==> a@[j] == b@[j],
        decreases a@.len() - i,
    {
        i = i + 1;
    }
    if i == a.len() && i == b.len() {
        assert(a@ =~= b@);
        Precedence::Same
    } else if i == a.len() {
        assert(path_before_at(a@, b@, i as int));
        Precedence::Before
    } else if i == b.len() {
        assert(path_before_at(b@, a@, i as int));
        Precedence::After
    } else if byte_rank_of(a[i]) < byte_rank_of(b[i]) {
        assert(path_before_at(a@, b@, i as int));
        Precedence::Before
    } else {
        assert(path_before_at(b@, a@, i as int));
        Precedence::After
    }
}

/// Tells whether entry `x` sorts strictly before entry `y`.
pub fn entry_precedes(x: &FileEntry, y: &FileEntry) -> (r: bool)
    ensures
        r == entry_before(entry_view(*x), entry_view(*y)),
{
    match compare_paths(&x.0, &y.0) {
        Precedence::Before => true,
        Precedence::Same => x.1 < y.1,
        Precedence::After => {
            proof {
                lemma_path_before_asymmetric(x.0@, y.0@);
                lemma_path_before_irreflexive(x.0@);
            }
            false
        },
    }
}

/// A copy of a file entry.
pub fn copy_entry(e: &FileEntry) -> (r: FileEntry)
    ensures
        entry_view(r) == entry_view(*e),
{
    let bytes = e.0.clone();
    assert(bytes@ =~= e.0@);
    (bytes, e.1)
}

/// Sorts a file list into the entry order.
pub fn sort_entries(v: &Vec<FileEntry>) -> (r: Vec<FileEntry>)
    ensures
        sorted_entries(entries_view(r@)),
        entries_view(r@).to_multiset() =~= entries_view(v@).to_multiset(),
{
    let mut r: Vec<FileEntry> = Vec::new();
    let mut n: usize = 0;
    while n < v.len()
        invariant
            n <= v@.len(),
            sorted_entries(entries_view(r@)),
            entries_view(r@).to_multiset() =~= entries_view(v@.take(n as int)).to_multiset(),
        decreases v@.len() - n,
    {
        let e = copy_entry(&v[n]);
        let mut pos: usize = 0;
        while pos < r.len() && !entry_precedes(&e, &r[pos])
            invariant
                pos <= r@.len(),
                forall|k: int|
                    0 <= k < pos ==> !entry_before(entry_view(e), #[trigger] entry_view(r@[k])),
            decreases r@.len() - pos,
        {
            pos = pos + 1;
        }
        let ghost old_r = r@;
        r.insert(pos, e);
        proof {
            let ov = entries_view(old_r);
            let nv = entries_view(r@);
            let ev = entry_view(e);
            assert(nv =~= ov.insert(pos as int, ev));
            assert forall|i: int, j: int| 0 <= i < j < nv.len() implies !entry_before(
                #[trigger] nv[j],
                #[trigger] nv[i],
            ) by {
                if j < pos {
                    assert(nv[i] == ov[i] && nv[j] == ov[j]);
                } else if j == pos {
                    assert(nv[i] == ov[i]);
                    assert(entry_view(old_r[i]) == ov[i]);
                } else if i == pos {
                    // ov[pos] sorts after e, and ov[j-1] does not sort before ov[pos].
                    assert(nv[j] == ov[j - 1]);
                    assert(entry_before(ev, ov[pos as int]));
                    if j - 1 > pos {
                        assert(!entry_before(ov[j - 1], ov[pos as int]));
                    }
                    lemma_entry_before_asymmetric(ev, ov[j - 1]);
                    if entry_before(ov[j - 1], ev) {
                        lemma_entry_before_transitive(ov[j - 1], ev, ov[pos as int]);
                        lemma_entry_before_asymmetric(ov[j - 1], ov[pos as int]);
                    }
                } else if i < pos {
                    assert(nv[i] == ov[i] && nv[j] == ov[j - 1]);
                } else {
                    assert(nv[i] == ov[i - 1] && nv[j] == ov[j - 1]);
                }
            }
            lemma_insert_to_multiset(ov, pos as int, ev);
            assert(v@.take(n + 1) =~= v@.take(n as int).push(v@[n as int]));
            assert(entries_view(v@.take(n + 1)) =~= entries_view(v@.take(n as int)).push(ev));
        }
        n = n + 1;
    }
    assert(v@.take(v@.len() as int) =~= v@);
    r
}

} // verus!
