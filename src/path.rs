//! Slash-separated paths: joining segments into a path and splitting a path
//! back into its segments.

use vstd::prelude::*;

verus! {

/// The path separator.
pub const SLASH: u8 = 0x2f;

/// True when `s` holds no path separator.
pub open spec fn slash_free(s: Seq<u8>) -> bool {
    forall|i: int| 0 <= i < s.len() ==> s[i] != SLASH
}

/// The path made of the given segments, each preceded by a separator.
pub open spec fn join(parts: Seq<Seq<u8>>) -> Seq<u8>
    decreases parts.len(),
{
    if parts.len() == 0 {
        Seq::empty()
    } else {
        join(parts.drop_last()) + seq![SLASH] + parts.last()
    }
}

/// True when every segment is free of separators.
pub open spec fn all_slash_free(parts: Seq<Seq<u8>>) -> bool {
    forall|i: int| 0 <= i < parts.len() ==> slash_free(#[trigger] parts[i])
}

/// A path with no segment is empty; one with a segment starts with a separator.
pub proof fn lemma_join_shape(parts: Seq<Seq<u8>>)
    ensures
        parts.len() == 0 ==> join(parts).len() == 0,
        parts.len() > 0 ==> join(parts).len() > 0 && join(parts)[0] == SLASH,
    decreases parts.len(),
{
    if parts.len() > 0 {
        lemma_join_shape(parts.drop_last());
    }
}

/// Splitting is unique: two lists of separator-free segments that join to the
/// same path are equal.
pub proof fn lemma_join_injective(a: Seq<Seq<u8>>, b: Seq<Seq<u8>>)
    requires
        all_slash_free(a),
        all_slash_free(b),
        join(a) == join(b),
    ensures
        a == b,
    decreases a.len() + b.len(),
{
    lemma_join_shape(a);
    lemma_join_shape(b);
    if a.len() == 0 || b.len() == 0 {
        assert(a.len() == 0 && b.len() == 0);
        assert(a =~= b);
    } else {
        let p = join(a);
        let la = a.last();
        let lb = b.last();
        let ja = join(a.drop_last());
        let jb = join(b.drop_last());
        assert(slash_free(la));
        assert(slash_free(lb));
        if la.len() < lb.len() {
            let k = p.len() - 1 - la.len();
            assert(p[k] == SLASH);
            assert(p[k] == lb[k - jb.len() - 1]);
            assert(false);
        } else if lb.len() < la.len() {
            let k = p.len() - 1 - lb.len();
            assert(p[k] == SLASH);
            assert(p[k] == la[k - ja.len() - 1]);
            assert(false);
        }
        assert(ja =~= p.subrange(0, p.len() - 1 - la.len()));
        assert(jb =~= p.subrange(0, p.len() - 1 - lb.len()));
        assert(la =~= p.subrange(p.len() - la.len(), p.len() as int));
        assert(lb =~= p.subrange(p.len() - lb.len(), p.len() as int));
        assert forall|i: int| 0 <= i < a.drop_last().len() implies slash_free(
            #[trigger] a.drop_last()[i],
        ) by {
            assert(a.drop_last()[i] == a[i]);
        }
        assert forall|i: int| 0 <= i < b.drop_last().len() implies slash_free(
            #[trigger] b.drop_last()[i],
        ) by {
            assert(b.drop_last()[i] == b[i]);
        }
        lemma_join_injective(a.drop_last(), b.drop_last());
        assert(a =~= a.drop_last().push(la));
        assert(b =~= b.drop_last().push(lb));
    }
}

/// The bytes of a list of segments, for contracts over `Vec<Vec<u8>>`.
pub open spec fn parts_view(parts: Seq<Vec<u8>>) -> Seq<Seq<u8>> {
    parts.map_values(|p: Vec<u8>| p@)
}

/// Joins segments into a path.
pub fn join_path(parts: &Vec<Vec<u8>>) -> (r: Vec<u8>)
    requires
        join(parts_view(parts@)).len() <= usize::MAX,
    ensures
        r@ == join(parts_view(parts@)),
{
    let mut out: Vec<u8> = Vec::new();
    let mut i: usize = 0;
    while i < parts.len()
        invariant
            0 <= i <= parts.len(),
            join(parts_view(parts@)).len() <= usize::MAX,
            out@ == join(parts_view(parts@.subrange(0, i as int))),
        decreases parts.len() - i,
    {
        proof {
            let pv = parts_view(parts@.subrange(0, i as int + 1));
            assert(pv.drop_last() =~= parts_view(parts@.subrange(0, i as int)));
            assert(pv.last() == parts@[i as int]@);
            lemma_join_prefix_len(parts_view(parts@), i as int + 1);
            assert(parts_view(parts@).subrange(0, i as int + 1) =~= pv);
        }
        out.push(SLASH);
        let part = &parts[i];
        let mut j: usize = 0;
        let ghost before = out@;
        while j < part.len()
            invariant
                0 <= j <= part.len(),
                out@ == before + part@.subrange(0, j as int),
                before.len() + part@.len() <= usize::MAX,
            decreases part.len() - j,
        {
            out.push(part[j]);
            j += 1;
            assert(out@ =~= before + part@.subrange(0, j as int));
        }
        assert(part@.subrange(0, j as int) =~= part@);
        i += 1;
    }
    assert(parts@.subrange(0, i as int) =~= parts@);
    out
}

/// A prefix of the segments joins to a path no longer than the whole.
pub proof fn lemma_join_prefix_len(parts: Seq<Seq<u8>>, k: int)
    requires
        0 <= k <= parts.len(),
    ensures
        join(parts.subrange(0, k)).len() <= join(parts).len(),
    decreases parts.len(),
{
    if k < parts.len() {
        lemma_join_prefix_len(parts.drop_last(), k);
        assert(parts.drop_last().subrange(0, k) =~= parts.subrange(0, k));
    } else {
        assert(parts.subrange(0, k) =~= parts);
    }
}

/// Splits a path at its separators. A path that does not start with a
/// separator has no such split.
pub fn split_path(path: &Vec<u8>) -> (r: Option<Vec<Vec<u8>>>)
    ensures
        r is None <==> (path@.len() == 0 || path@[0] != SLASH),
        r matches Some(parts) ==> join(parts_view(parts@)) == path@ && all_slash_free(
            parts_view(parts@),
        ) && parts@.len() > 0,
{
    if path.len() == 0 || path[0] != SLASH {
        return None;
    }
    let mut parts: Vec<Vec<u8>> = Vec::new();
    let mut cur: Vec<u8> = Vec::new();
    let mut i: usize = 1;
    while i < path.len()
        invariant
            1 <= i <= path.len(),
            path@[0] == SLASH,
            join(parts_view(parts@)) + seq![SLASH] + cur@ == path@.subrange(0, i as int),
            all_slash_free(parts_view(parts@)),
            slash_free(cur@),
        decreases path.len() - i,
    {
        let b = path[i];
        let ghost prefix = path@.subrange(0, i as int);
        assert(path@.subrange(0, i as int + 1) =~= prefix.push(b));
        if b == SLASH {
            let ghost old_parts = parts@;
            let ghost old_cur = cur@;
            parts.push(cur);
            cur = Vec::new();
            proof {
                let pv = parts_view(parts@);
                assert(pv.drop_last() =~= parts_view(old_parts));
                assert(pv.last() == old_cur);
                assert(join(pv) == join(parts_view(old_parts)) + seq![SLASH] + old_cur);
                assert forall|k: int| 0 <= k < pv.len() implies slash_free(#[trigger] pv[k]) by {
                    if k < pv.len() - 1 {
                        assert(pv[k] == parts_view(old_parts)[k]);
                    }
                }
                assert(join(pv) + seq![SLASH] + cur@ =~= prefix.push(b));
            }
        } else {
            cur.push(b);
            assert(join(parts_view(parts@)) + seq![SLASH] + cur@ =~= prefix.push(b));
        }
        i += 1;
    }
    let ghost old_parts = parts@;
    let ghost old_cur = cur@;
    parts.push(cur);
    proof {
        let pv = parts_view(parts@);
        assert(pv.drop_last() =~= parts_view(old_parts));
        assert(pv.last() == old_cur);
        assert forall|k: int| 0 <= k < pv.len() implies slash_free(#[trigger] pv[k]) by {
            if k < pv.len() - 1 {
                assert(pv[k] == parts_view(old_parts)[k]);
            }
        }
        assert(path@.subrange(0, i as int) =~= path@);
    }
    Some(parts)
}

/// Each segment is no longer than the path it is part of.
pub proof fn lemma_join_part_len(parts: Seq<Seq<u8>>, j: int)
    requires
        0 <= j < parts.len(),
    ensures
        parts[j].len() <= join(parts).len(),
    decreases parts.len(),
{
    if j < parts.len() - 1 {
        assert(parts.drop_last()[j] == parts[j]);
        lemma_join_part_len(parts.drop_last(), j);
    }
}

} // verus!
