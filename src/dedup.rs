use vstd::prelude::*;
use crate::canon::{canonical, canonical_key};

verus! {

/// The character sequences of a list of strings.
pub open spec fn strs(v: Seq<String>) -> Seq<Seq<char>> {
    v.map_values(|x: String| x@)
}

/// Some element of `d` has the same canonical form as `e`.
pub open spec fn has_form_of(d: Seq<Seq<char>>, e: Seq<char>) -> bool {
    exists|k: int| 0 <= k < d.len() && #[trigger] canonical(d[k]) == canonical(e)
}

/// The expressions of `s` that are the first of their canonical form, in order.
pub open spec fn dedup_of(s: Seq<Seq<char>>) -> Seq<Seq<char>>
    decreases s.len(),
{
    if s.len() == 0 {
        s
    } else {
        let d = dedup_of(s.drop_last());
        if has_form_of(d, s.last()) {
            d
        } else {
            d.push(s.last())
        }
    }
}

/// No expression of `s` before position `j` has the canonical form of `s[j]`.
pub open spec fn first_of_form(s: Seq<Seq<char>>, j: int) -> bool {
    forall|i: int| 0 <= i < j ==> canonical(#[trigger] s[i]) != canonical(s[j])
}

/// Removes the expressions that differ from an earlier one only by the order of
/// their tokens: keeps, in input order, the first expression of each canonical form.
pub fn rm_permu(equiv_exprs: &Vec<String>) -> (r: Vec<String>)
    ensures
        strs(r@) == dedup_of(strs(equiv_exprs@)),
        forall|k: int| 0 <= k < r.len() ==> exists|j: int|
            0 <= j < equiv_exprs.len() && #[trigger] r[k]@ == equiv_exprs[j]@
                && first_of_form(strs(equiv_exprs@), j),
        forall|j: int| 0 <= j < equiv_exprs.len() ==> has_form_of(strs(r@), #[trigger] equiv_exprs[j]@),
        forall|k1: int, k2: int|
            0 <= k1 < k2 < r.len() ==> canonical(#[trigger] r[k1]@) != canonical(#[trigger] r[k2]@),
{
    let ghost inp = strs(equiv_exprs@);
    let mut out: Vec<String> = Vec::new();
    let mut keys: Vec<String> = Vec::new();
    let mut i: usize = 0;
    assert(inp.subrange(0, 0) =~= Seq::<Seq<char>>::empty());
    assert(strs(out@) =~= Seq::<Seq<char>>::empty());
    while i < equiv_exprs.len()
        invariant
            i <= equiv_exprs.len(),
            inp == strs(equiv_exprs@),
            out.len() == keys.len(),
            forall|k: int| 0 <= k < keys.len() ==> #[trigger] keys[k]@ == canonical(out[k]@),
            strs(out@) == dedup_of(inp.subrange(0, i as int)),
            forall|k: int| 0 <= k < out.len() ==> exists|j: int|
                0 <= j < i && #[trigger] out[k]@ == equiv_exprs[j]@ && first_of_form(inp, j),
            forall|j: int| 0 <= j < i ==> has_form_of(strs(out@), #[trigger] equiv_exprs[j]@),
            forall|k1: int, k2: int|
                0 <= k1 < k2 < out.len() ==> canonical(#[trigger] out[k1]@) != canonical(
                    #[trigger] out[k2]@,
                ),
        decreases equiv_exprs.len() - i,
    {
        let expr = &equiv_exprs[i];
        let key = canonical_key(expr.as_str());
        let mut k: usize = 0;
        let mut found = false;
        while k < keys.len()
            invariant
                k <= keys.len(),
                found ==> exists|m: int| 0 <= m < keys.len() && #[trigger] keys[m]@ == key@,
                !found ==> forall|m: int| 0 <= m < k ==> #[trigger] keys[m]@ != key@,
            decreases keys.len() - k,
        {
            if keys[k] == key {
                found = true;
            }
            k = k + 1;
        }
        let ghost d = strs(out@);
        let ghost pre = inp.subrange(0, i as int);
        let ghost post = inp.subrange(0, i + 1);
        assert(post.drop_last() =~= pre);
        assert(post.last() == expr@);
        if found {
            proof {
                let m = choose|m: int| 0 <= m < keys.len() && #[trigger] keys[m]@ == key@;
                assert(canonical(d[m]) == canonical(expr@));
                assert(has_form_of(d, post.last()));
            }
        } else {
            proof {
                assert forall|m: int| 0 <= m < d.len() implies canonical(#[trigger] d[m]) != canonical(
                    expr@,
                ) by {
                    assert(keys[m]@ != key@);
                }
                assert forall|j: int| 0 <= j < i implies canonical(#[trigger] inp[j]) != canonical(
                    inp[i as int],
                ) by {
                    assert(has_form_of(d, equiv_exprs[j]@));
                }
            }
            let ghost old_out = out@;
            out.push(expr.clone());
            keys.push(key);
            proof {
                assert(strs(out@) =~= d.push(expr@));
                assert forall|k1: int| 0 <= k1 < out.len() implies exists|j: int|
                    0 <= j < i + 1 && #[trigger] out[k1]@ == equiv_exprs[j]@ && first_of_form(inp, j) by {
                    if k1 == out.len() - 1 {
                        assert(out[k1]@ == equiv_exprs[i as int]@);
                        assert(first_of_form(inp, i as int));
                    } else {
                        assert(out@[k1] == old_out[k1]);
                        let j = choose|j: int|
                            0 <= j < i && #[trigger] old_out[k1]@ == equiv_exprs[j]@ && first_of_form(inp, j);
                        assert(out[k1]@ == equiv_exprs[j]@);
                    }
                }
                assert forall|j: int| 0 <= j < i + 1 implies has_form_of(
                    strs(out@),
                    #[trigger] equiv_exprs[j]@,
                ) by {
                    if j < i {
                        let w = choose|w: int| 0 <= w < d.len() && #[trigger] canonical(d[w])
                            == canonical(equiv_exprs[j]@);
                        assert(strs(out@)[w] == d[w]);
                    } else {
                        assert(strs(out@)[out.len() - 1] == expr@);
                    }
                }
            }
        }
        i = i + 1;
    }
    assert(inp.subrange(0, equiv_exprs.len() as int) =~= inp);
    out
}

/// Deduplication changes nothing when no two expressions share a canonical form.
pub proof fn lemma_dedup_distinct_unchanged(s: Seq<Seq<char>>)
    requires
        forall|i: int, j: int|
            0 <= i < j < s.len() ==> canonical(#[trigger] s[i]) != canonical(#[trigger] s[j]),
    ensures
        dedup_of(s) == s,
    decreases s.len(),
{
    if s.len() > 0 {
        let t = s.drop_last();
        assert forall|i: int, j: int| 0 <= i < j < t.len() implies canonical(#[trigger] t[i])
            != canonical(#[trigger] t[j]) by {
            assert(t[i] == s[i] && t[j] == s[j]);
        }
        lemma_dedup_distinct_unchanged(t);
        if has_form_of(t, s.last()) {
            let k = choose|k: int| 0 <= k < t.len() && #[trigger] canonical(t[k]) == canonical(s.last());
            assert(t[k] == s[k]);
        }
        assert(t.push(s.last()) =~= s);
    }
}

} // verus!
