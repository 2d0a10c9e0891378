//! A machine and the state of the part of its file system that is synchronised.
use vstd::prelude::*;
use vstd::multiset::Multiset;
use crate::paths::{normal_path, normalize_path};
use crate::fileorder::{
    compare_paths, copy_entry, entries_view, entry_before, entry_precedes, entry_view,
    lemma_entry_before_not_before, lemma_entry_before_total, lemma_sorted_entries_unique, lemma_path_before_irreflexive,
    path_before, sort_entries, sorted_entries, FileEntry, FileEntryView, Precedence, Timestamp,
};

verus! {

broadcast use vstd::seq_lib::group_to_multiset_ensures, vstd::multiset::group_multiset_axioms;

/// Represents a physical machine with the head of the file system part in
/// question loaded into memory.
#[derive(Clone, Debug, PartialEq)]
pub struct Machine {
    time: Timestamp,
    fs: Vec<FileEntry>,
}

/// Every file of `own` with the path of `e` was modified before `e`: `e` is
/// missing on `own`, or newer there.
pub open spec fn newer_than_every(own: Seq<FileEntryView>, e: FileEntryView) -> bool {
    forall|k: int| 0 <= k < own.len() && (#[trigger] own[k]).0 == e.0 ==> own[k].1 < e.1
}

pub open spec fn newer_than_every_pred(own: Seq<FileEntryView>) -> spec_fn(FileEntryView) -> bool {
    |e: FileEntryView| newer_than_every(own, e)
}

/// The files of `other` that are newer than their namesakes in `own`, or
/// that `own` lacks.
pub open spec fn newer_files(own: Seq<FileEntryView>, other: Seq<FileEntryView>) -> Multiset<
    FileEntryView,
> {
    other.to_multiset().filter(newer_than_every_pred(own))
}

/// The entries with their paths in normal form.
pub open spec fn normal_entries(s: Seq<FileEntryView>) -> Seq<FileEntryView> {
    s.map_values(|e: FileEntryView| (normal_path(e.0), e.1))
}

/// Nanoseconds between the Unix epoch and a point `secs` seconds and `nanos`
/// nanoseconds from it: after it on `Ok`, before it on `Err`.
pub open spec fn clock_offset_nanos(offset: Result<(u64, u32), (u64, u32)>) -> int {
    match offset {
        Ok((s, n)) => s * 1_000_000_000 + n,
        Err((s, n)) => -(s * 1_000_000_000 + n),
    }
}

/// The sub-second part of a distance from the Unix epoch is below one second.
pub open spec fn sub_second_nanos_valid(offset: Result<(u64, u32), (u64, u32)>) -> bool {
    match offset {
        Ok((_, n)) => n < 1_000_000_000,
        Err((_, n)) => n < 1_000_000_000,
    }
}

/// Reads the system clock (`std::time::SystemTime::now`) and returns how far
/// the current time lies from the Unix epoch, as whole seconds and the
/// nanoseconds beyond them: `Ok` after the epoch, `Err` before it. The
/// contract states only what `std::time::Duration` documents of every
/// duration: its sub-second part is below one second. What time it is is
/// not stated.
#[verifier::external_body]
fn read_system_clock() -> (r: Result<(u64, u32), (u64, u32)>)
    ensures
        match r {
            Ok((_, n)) => n < 1_000_000_000,
            Err((_, n)) => n < 1_000_000_000,
        },
{
    match std::time::SystemTime::now().duration_since(std::time::UNIX_EPOCH) {
        Ok(d) => Ok((d.as_secs(), d.subsec_nanos())),
        Err(e) => Err((e.duration().as_secs(), e.duration().subsec_nanos())),
    }
}

/// The timestamp of a point given by its distance from the Unix epoch.
pub fn timestamp_from_clock(offset: Result<(u64, u32), (u64, u32)>) -> (t: Timestamp)
    ensures
        t == clock_offset_nanos(offset),
{
    match offset {
        Ok((s, n)) => s as i128 * 1_000_000_000 + n as i128,
        Err((s, n)) => -(s as i128 * 1_000_000_000 + n as i128),
    }
}

/// Two file lists with the same files agree on which files are newer.
proof fn lemma_newer_than_every_same_files(s1: Seq<FileEntryView>, s2: Seq<FileEntryView>, e: FileEntryView)
    requires
        s1.to_multiset() =~= s2.to_multiset(),
    ensures
        newer_than_every(s1, e) == newer_than_every(s2, e),
{
    if !newer_than_every(s1, e) {
        let k = choose|k: int| 0 <= k < s1.len() && (#[trigger] s1[k]).0 == e.0 && !(s1[k].1 < e.1);
        assert(s1.contains(s1[k]));
        assert(s1.to_multiset().count(s1[k]) > 0);
        assert(s2.to_multiset().count(s1[k]) > 0);
        assert(s2.contains(s1[k]));
    }
    if !newer_than_every(s2, e) {
        let k = choose|k: int| 0 <= k < s2.len() && (#[trigger] s2[k]).0 == e.0 && !(s2[k].1 < e.1);
        assert(s2.contains(s2[k]));
        assert(s2.to_multiset().count(s2[k]) > 0);
        assert(s1.to_multiset().count(s2[k]) > 0);
        assert(s1.contains(s2[k]));
    }
}

impl Machine {
    /// The time of the machine's clock when it was described.
    pub closed spec fn spec_time(&self) -> Timestamp {
        self.time
    }

    /// The files of the machine, with their modification times.
    pub closed spec fn spec_files(&self) -> Seq<FileEntryView> {
        entries_view(self.fs@)
    }

    pub fn new(time: Timestamp) -> (m: Machine)
        ensures
            m.spec_time() == time,
            m.spec_files() == Seq::<FileEntryView>::empty(),
    {
        let m = Machine { time: time, fs: Vec::new() };
        assert(m.spec_files() =~= Seq::<FileEntryView>::empty());
        m
    }

    /// A machine with no files, described at the current time of the system
    /// clock: its time is some reading of the clock, as a distance from the
    /// Unix epoch.
    pub fn new_now() -> (m: Machine)
        ensures
            m.spec_files() == Seq::<FileEntryView>::empty(),
            exists|r: Result<(u64, u32), (u64, u32)>|
                sub_second_nanos_valid(r) && #[trigger] clock_offset_nanos(r) == m.spec_time(),
    {
        let reading = read_system_clock();
        let now = timestamp_from_clock(reading);
        assert(sub_second_nanos_valid(reading) && clock_offset_nanos(reading) == now);
        let m = Machine { time: now, fs: Vec::new() };
        assert(m.spec_files() =~= Seq::<FileEntryView>::empty());
        m
    }

    /// A machine with the files `fs`. Each path is kept in its normal form,
    /// so that paths with the same components name the same file.
    pub fn new_with_fs(time: Timestamp, fs: Vec<FileEntry>) -> (m: Machine)
        ensures
            m.spec_time() == time,
            m.spec_files() == normal_entries(entries_view(fs@)),
    {
        let mut files: Vec<FileEntry> = Vec::new();
        let mut n: usize = 0;
        while n < fs.len()
            invariant
                n <= fs@.len(),
                entries_view(files@) == normal_entries(entries_view(fs@.take(n as int))),
            decreases fs@.len() - n,
        {
            let path = normalize_path(&fs[n].0);
            let ghost before = entries_view(files@);
            files.push((path, fs[n].1));
            proof {
                assert(fs@.take(n + 1) =~= fs@.take(n as int).push(fs@[n as int]));
                assert(entries_view(fs@.take(n + 1)) =~= entries_view(fs@.take(n as int)).push(
                    entry_view(fs@[n as int]),
                ));
                assert(entries_view(files@) =~= before.push((normal_path(fs@[n as int].0@), fs@[n as int].1)));
                assert(entries_view(files@) =~= normal_entries(entries_view(fs@.take(n + 1))));
            }
            n = n + 1;
        }
        assert(fs@.take(fs@.len() as int) =~= fs@);
        Machine { time: time, fs: files }
    }

    /// The time of the machine's clock when it was described.
    pub fn time(&self) -> (t: Timestamp)
        ensures
            t == self.spec_time(),
    {
        self.time
    }

    /// The files of the machine, with their modification times.
    pub fn files(&self) -> (fs: &Vec<FileEntry>)
        ensures
            entries_view(fs@) == self.spec_files(),
    {
        &self.fs
    }

    /// Campare the file system state of this machine to the state of the other
    /// machine. Returns all the files that are newer on the other Machine.
    ///
    /// A file of the other machine is returned when every file of this
    /// machine with its path was modified before it, which holds too when
    /// this machine lacks the path. The files come in the order of their paths.
    pub fn newer_files_from(&self, other: &Machine) -> (r: Vec<FileEntry>)
        ensures
            sorted_entries(entries_view(r@)),
            entries_view(r@).to_multiset() =~= newer_files(self.spec_files(), other.spec_files()),
    {
        let own = sort_entries(&self.fs);
        let oth = sort_entries(&other.fs);
        let ghost ov = entries_view(own@);
        let ghost tv = entries_view(oth@);
        let ghost pred = newer_than_every_pred(ov);

        let mut res: Vec<FileEntry> = Vec::new();
        let mut i: usize = 0;
        let mut j: usize = 0;
        while j < oth.len()
            invariant
                ov == entries_view(own@),
                tv == entries_view(oth@),
                pred == newer_than_every_pred(ov),
                sorted_entries(ov),
                sorted_entries(tv),
                i <= own@.len(),
                j <= oth@.len(),
                forall|k: int, m: int|
                    0 <= k < i && j <= m < tv.len() ==> entry_before(#[trigger] ov[k], #[trigger] tv[m]),
                sorted_entries(entries_view(res@)),
                forall|q: int, m: int|
                    0 <= q < res@.len() && j <= m < tv.len() ==> !entry_before(
                        #[trigger] tv[m],
                        #[trigger] entries_view(res@)[q],
                    ),
                entries_view(res@).to_multiset() =~= tv.take(j as int).to_multiset().filter(pred),
            decreases oth@.len() - j,
        {
            // Skip the files of this machine that sort before the current file of the other.
            while i < own.len() && entry_precedes(&own[i], &oth[j])
                invariant
                    ov == entries_view(own@),
                    tv == entries_view(oth@),
                    sorted_entries(tv),
                    i <= own@.len(),
                    j < oth@.len(),
                    forall|k: int, m: int|
                        0 <= k < i && j <= m < tv.len() ==> entry_before(#[trigger] ov[k], #[trigger] tv[m]),
                decreases own@.len() - i,
            {
                proof {
                    assert(entry_before(ov[i as int], tv[j as int]));
                    assert forall|m: int| j <= m < tv.len() implies entry_before(
                        ov[i as int],
                        #[trigger] tv[m],
                    ) by {
                        if m > j {
                            lemma_entry_before_not_before(ov[i as int], tv[j as int], tv[m]);
                        }
                    }
                }
                i = i + 1;
            }
            let keep = if i == own.len() {
                true
            } else {
                match compare_paths(&own[i].0, &oth[j].0) {
                    Precedence::Same => false,
                    _ => true,
                }
            };
            proof {
                let e = tv[j as int];
                assert(e == entry_view(oth@[j as int]));
                if keep {
                    assert forall|k: int| 0 <= k < ov.len() && (#[trigger] ov[k]).0 == e.0 implies ov[k].1 < e.1 by {
                        if k < i {
                            assert(entry_before(ov[k], e));
                            lemma_path_before_irreflexive(e.0);
                        } else {
                            let oi = ov[i as int];
                            assert(oi == entry_view(own@[i as int]));
                            assert(oi.0 != e.0);
                            assert(!entry_before(oi, e));
                            lemma_entry_before_total(oi, e);
                            assert(path_before(e.0, oi.0));
                            if k > i {
                                assert(!entry_before(ov[k], oi));
                            }
                            lemma_path_before_irreflexive(e.0);
                        }
                    }
                } else {
                    let oi = ov[i as int];
                    assert(oi == entry_view(own@[i as int]));
                    assert(oi.0 == e.0);
                    assert(!entry_before(oi, e));
                    assert(!(oi.1 < e.1));
                }
                assert(keep == newer_than_every(ov, e));
                assert(tv.take(j + 1) =~= tv.take(j as int).push(e));
            }
            let ghost old_res = entries_view(res@);
            if keep {
                res.push(copy_entry(&oth[j]));
                proof {
                    let rv = entries_view(res@);
                    assert(rv =~= old_res.push(tv[j as int]));
                }
            } else {
                assert(entries_view(res@) =~= old_res);
            }
            proof {
                let rv = entries_view(res@);
                let e = tv[j as int];
                let before_ms = tv.take(j as int).to_multiset();
                assert(tv.take(j + 1).to_multiset() =~= before_ms.insert(e));
                assert forall|x: FileEntryView| #[trigger] rv.to_multiset().count(x)
                    == tv.take(j + 1).to_multiset().filter(pred).count(x) by {
                    if keep {
                        assert(rv.to_multiset() =~= old_res.to_multiset().insert(e));
                    }
                }
                assert(rv.to_multiset() =~= tv.take(j + 1).to_multiset().filter(pred));
                assert forall|q: int, m: int| 0 <= q < rv.len() && j + 1 <= m < tv.len() implies !entry_before(
                    #[trigger] tv[m],
                    #[trigger] rv[q],
                ) by {
                    if q < old_res.len() {
                        assert(rv[q] == old_res[q]);
                    } else {
                        assert(rv[q] == e);
                    }
                }
                assert forall|a: int, b: int| 0 <= a < b < rv.len() implies !entry_before(
                    #[trigger] rv[b],
                    #[trigger] rv[a],
                ) by {
                    if b < old_res.len() {
                        assert(rv[a] == old_res[a] && rv[b] == old_res[b]);
                    } else {
                        assert(rv[a] == old_res[a] && rv[b] == e);
                    }
                }
            }
            j = j + 1;
        }
        proof {
            let rv = entries_view(res@);
            assert(tv.take(tv.len() as int) =~= tv);
            let sf = self.spec_files();
            let of = other.spec_files();
            assert forall|x: FileEntryView| #[trigger] rv.to_multiset().count(x)
                == newer_files(sf, of).count(x) by {
                lemma_newer_than_every_same_files(ov, sf, x);
            }
        }
        res
    }
}

/// A file is never newer on both of two machines: no path of a file that
/// `b` has newer than `a` is also the path of a file that `a` has newer than `b`.
pub proof fn lemma_no_file_newer_both_ways(a: Machine, b: Machine, x: FileEntryView, y: FileEntryView)
    requires
        newer_files(a.spec_files(), b.spec_files()).count(x) > 0,
        newer_files(b.spec_files(), a.spec_files()).count(y) > 0,
    ensures
        x.0 != y.0,
{
    let fa = a.spec_files();
    let fb = b.spec_files();
    assert(fb.to_multiset().count(x) > 0);
    assert(fa.to_multiset().count(y) > 0);
    assert(fb.contains(x));
    assert(fa.contains(y));
    if x.0 == y.0 {
        let kx = choose|k: int| 0 <= k < fb.len() && fb[k] == x;
        let ky = choose|k: int| 0 <= k < fa.len() && fa[k] == y;
        assert(newer_than_every(fa, x));
        assert(newer_than_every(fb, y));
        assert(fa[ky].0 == x.0);
        assert(fb[kx].0 == y.0);
    }
}

/// A machine has no file newer than its own files.
pub proof fn lemma_nothing_newer_than_itself(m: Machine)
    ensures
        newer_files(m.spec_files(), m.spec_files()) =~= Multiset::<FileEntryView>::empty(),
{
    let f = m.spec_files();
    assert forall|x: FileEntryView| #[trigger] newer_files(f, f).count(x) == 0 by {
        if f.to_multiset().count(x) > 0 {
            assert(f.contains(x));
            let k = choose|k: int| 0 <= k < f.len() && f[k] == x;
            assert(f[k].0 == x.0);
        }
    }
}

/// The files that `newer_files_from` returns depend only on which files the
/// two machines hold: not on the order of their file lists, nor on the
/// machines' times. Two results that meet its contract for machines with the
/// same files are the same list.
pub proof fn lemma_newer_files_depend_on_files_only(
    a1: Machine,
    b1: Machine,
    a2: Machine,
    b2: Machine,
    r1: Seq<FileEntryView>,
    r2: Seq<FileEntryView>,
)
    requires
        a1.spec_files().to_multiset() =~= a2.spec_files().to_multiset(),
        b1.spec_files().to_multiset() =~= b2.spec_files().to_multiset(),
        sorted_entries(r1),
        r1.to_multiset() =~= newer_files(a1.spec_files(), b1.spec_files()),
        sorted_entries(r2),
        r2.to_multiset() =~= newer_files(a2.spec_files(), b2.spec_files()),
    ensures
        r1 == r2,
{
    assert forall|x: FileEntryView| #[trigger] r1.to_multiset().count(x) == r2.to_multiset().count(x) by {
        lemma_newer_than_every_same_files(a1.spec_files(), a2.spec_files(), x);
    }
    lemma_sorted_entries_unique(r1, r2);
}

} // verus!
