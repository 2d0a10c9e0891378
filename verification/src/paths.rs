//! The normal form of a path: the bytes of its components, as a path is
//! written again from its components. Paths with the same components (such
//! as `a/b`, `a//b` and `a/b/`) have the same normal form.
use vstd::prelude::*;

verus! {

/// The separator of path components, `/`.
pub const SEPARATOR: u8 = 47u8;

/// Splits a path at its separators: the components ended by a separator so
/// far (empty ones left out), and the bytes of the component not yet ended.
pub open spec fn split_path(s: Seq<u8>) -> (Seq<Seq<u8>>, Seq<u8>)
    decreases s.len(),
{
    if s.len() == 0 {
        (Seq::empty(), Seq::empty())
    } else {
        let (done, cur) = split_path(s.drop_last());
        if s.last() == SEPARATOR {
            if cur.len() > 0 {
                (done.push(cur), Seq::empty())
            } else {
                (done, Seq::empty())
            }
        } else {
            (done, cur.push(s.last()))
        }
    }
}

/// The non-empty runs of bytes between separators of `s`, in order.
pub open spec fn path_components(s: Seq<u8>) -> Seq<Seq<u8>> {
    let (done, cur) = split_path(s);
    if cur.len() > 0 {
        done.push(cur)
    } else {
        done
    }
}

/// The path starts at the root.
pub open spec fn is_absolute(s: Seq<u8>) -> bool {
    s.len() > 0 && s[0] == SEPARATOR
}

/// A `.` component names the directory it stands in; it is kept only as
/// the first component of a relative path.
pub open spec fn is_current_dir(c: Seq<u8>) -> bool {
    c == seq![46u8]
}

/// The components that the normal form keeps: all but `.`, which stays
/// only in front of a relative path.
pub open spec fn kept_components(cs: Seq<Seq<u8>>, absolute: bool) -> Seq<Seq<u8>>
    decreases cs.len(),
{
    if cs.len() == 0 {
        Seq::empty()
    } else {
        let kept = kept_components(cs.drop_last(), absolute);
        if is_current_dir(cs.last()) && !(cs.len() == 1 && !absolute) {
            kept
        } else {
            kept.push(cs.last())
        }
    }
}

/// The components joined by separators.
pub open spec fn join_components(cs: Seq<Seq<u8>>) -> Seq<u8>
    decreases cs.len(),
{
    if cs.len() == 0 {
        Seq::empty()
    } else if cs.len() == 1 {
        cs[0]
    } else {
        join_components(cs.drop_last()) + seq![SEPARATOR] + cs.last()
    }
}

/// The normal form of a path: a leading separator for an absolute path,
/// then its kept components joined by separators.
pub open spec fn normal_path(s: Seq<u8>) -> Seq<u8> {
    let body = join_components(kept_components(path_components(s), is_absolute(s)));
    if is_absolute(s) {
        seq![SEPARATOR] + body
    } else {
        body
    }
}

pub open spec fn byte_views(v: Seq<Vec<u8>>) -> Seq<Seq<u8>> {
    v.map_values(|b: Vec<u8>| b@)
}

fn components_of(s: &Vec<u8>) -> (r: Vec<Vec<u8>>)
    ensures
        byte_views(r@) == path_components(s@),
{
    let mut done: Vec<Vec<u8>> = Vec::new();
    let mut cur: Vec<u8> = Vec::new();
    let mut i: usize = 0;
    while i < s.len()
        invariant
            i <= s@.len(),
            (byte_views(done@), cur@) == split_path(s@.take(i as int)),
        decreases s@.len() - i,
    {
        let ghost before = s@.take(i as int);
        assert(s@.take(i + 1).drop_last() =~= before);
        assert(s@.take(i + 1).last() == s@[i as int]);
        let ghost old_done = byte_views(done@);
        if s[i] == SEPARATOR {
            if cur.len() > 0 {
                done.push(cur);
                cur = Vec::new();
                assert(byte_views(done@) =~= old_done.push(split_path(before).1));
            }
            assert(cur@ =~= Seq::<u8>::empty());
        } else {
            cur.push(s[i]);
        }
        i = i + 1;
    }
    assert(s@.take(s@.len() as int) =~= s@);
    let ghost old_done = byte_views(done@);
    if cur.len() > 0 {
        let ghost last = cur@;
        done.push(cur);
        assert(byte_views(done@) =~= old_done.push(last));
    }
    done
}

fn is_dot(c: &Vec<u8>) -> (r: bool)
    ensures
        r == is_current_dir(c@),
{
    if c.len() == 1 && c[0] == 46u8 {
        assert(c@ =~= seq![46u8]);
        true
    } else {
        false
    }
}

/// The normal form of a path: its components joined again, with `.`
/// components left out but in front of a relative path.
pub fn normalize_path(s: &Vec<u8>) -> (r: Vec<u8>)
    ensures
        r@ == normal_path(s@),
{
    let absolute = s.len() > 0 && s[0] == SEPARATOR;
    let ghost cs = path_components(s@);
    let mut comps = components_of(s);
    let total: usize = comps.len();
    assert(cs.len() == total);
    let mut out: Vec<u8> = Vec::new();
    if absolute {
        out.push(SEPARATOR);
    }
    let ghost prefix = out@;
    let mut kept_count: usize = 0;
    let mut k: usize = 0;
    while comps.len() > 0
        invariant
            absolute == is_absolute(s@),
            prefix == (if absolute { seq![SEPARATOR] } else { Seq::<u8>::empty() }),
            k <= cs.len(),
            cs.len() <= usize::MAX,
            kept_count <= k,
            byte_views(comps@) == cs.subrange(k as int, cs.len() as int),
            kept_count == kept_components(cs.take(k as int), absolute).len(),
            out@ == prefix + join_components(kept_components(cs.take(k as int), absolute)),
        decreases comps@.len(),
    {
        let ghost ks = kept_components(cs.take(k as int), absolute);
        let ghost before = comps@;
        assert(byte_views(before).len() == before.len());
        assert(cs.subrange(k as int, cs.len() as int)[0] == cs[k as int]);
        assert(byte_views(before)[0] == before[0]@);
        let mut c = comps.remove(0);
        assert(c@ == cs[k as int]);
        assert forall|i: int| 0 <= i < comps@.len() implies #[trigger] byte_views(comps@)[i] == cs[k + 1 + i] by {
            assert(comps@[i] == before[i + 1]);
            assert(byte_views(before)[i + 1] == before[i + 1]@);
            assert(cs.subrange(k as int, cs.len() as int)[i + 1] == cs[k + 1 + i]);
        }
        assert(byte_views(comps@) =~= cs.subrange(k + 1, cs.len() as int));
        assert(cs.take(k + 1).drop_last() =~= cs.take(k as int));
        assert(cs.take(k + 1).last() == cs[k as int]);
        let keep = !is_dot(&c) || (k == 0 && !absolute);
        if keep {
            let ghost cv = c@;
            assert(ks.push(cv).drop_last() =~= ks);
            if kept_count > 0 {
                out.push(SEPARATOR);
            } else {
                assert(ks =~= Seq::<Seq<u8>>::empty());
            }
            out.append(&mut c);
            assert(out@ =~= prefix + join_components(ks.push(cv)));
            kept_count = kept_count + 1;
        }
        k = k + 1;
    }
    assert(cs.take(cs.len() as int) =~= cs);
    assert(out@ =~= normal_path(s@));
    out
}

/// A component that is not the single byte `.` is kept: it follows the
/// components kept from before it.
pub proof fn lemma_other_components_kept(cs: Seq<Seq<u8>>, c: Seq<u8>, absolute: bool)
    requires
        !(c.len() == 1 && c[0] == 46u8),
    ensures
        kept_components(cs.push(c), absolute) == kept_components(cs, absolute).push(c),
{
    assert(cs.push(c).drop_last() =~= cs);
    if is_current_dir(c) {
        assert(c[0] == seq![46u8][0]);
    }
}

/// Without `.` components nothing is left out.
pub proof fn lemma_all_components_kept(cs: Seq<Seq<u8>>, absolute: bool)
    requires
        forall|i: int| 0 <= i < cs.len() ==> !((#[trigger] cs[i]).len() == 1 && cs[i][0] == 46u8),
    ensures
        kept_components(cs, absolute) == cs,
    decreases cs.len(),
{
    if cs.len() > 0 {
        let rest = cs.drop_last();
        assert forall|i: int| 0 <= i < rest.len() implies !((#[trigger] rest[i]).len() == 1 && rest[i][0] == 46u8) by {
            assert(rest[i] == cs[i]);
        }
        lemma_all_components_kept(rest, absolute);
        assert(cs =~= rest.push(cs.last()));
        lemma_other_components_kept(rest, cs.last(), absolute);
    }
}

/// A path none of whose components is a lone `.` keeps all its components
/// in its normal form: they are joined by single separators, behind a
/// separator when the path is absolute (`./.a/b` aside, `.a//b/` becomes `.a/b`).
pub proof fn lemma_normal_path_keeps_components(s: Seq<u8>)
    requires
        forall|i: int|
            0 <= i < path_components(s).len() ==> !((#[trigger] path_components(s)[i]).len() == 1
                && path_components(s)[i][0] == 46u8),
    ensures
        normal_path(s) == (if is_absolute(s) {
            seq![SEPARATOR]
        } else {
            Seq::<u8>::empty()
        }) + join_components(path_components(s)),
{
    lemma_all_components_kept(path_components(s), is_absolute(s));
    if !is_absolute(s) {
        assert(Seq::<u8>::empty() + join_components(path_components(s)) =~= join_components(path_components(s)));
    }
}

/// A leading `.` of a relative path stays, and so does every component
/// after it that is not a lone `.` (so `./.a/b` keeps `.a`).
pub proof fn lemma_leading_dot_kept(c: Seq<u8>)
    requires
        c == seq![46u8],
    ensures
        kept_components(seq![c], false) == seq![c],
{
    let one = seq![c];
    assert(one.drop_last() =~= Seq::<Seq<u8>>::empty());
    assert(one.last() == c);
    assert(kept_components(Seq::<Seq<u8>>::empty(), false) == Seq::<Seq<u8>>::empty());
    assert(kept_components(one, false) == kept_components(one.drop_last(), false).push(c));
    assert(Seq::<Seq<u8>>::empty().push(c) =~= one);
}

} // verus!
