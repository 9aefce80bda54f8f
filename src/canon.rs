use vstd::prelude::*;
use crate::text::{chars_of, string_of};

verus! {

/// Characters with the Unicode `White_Space` property.
pub open spec fn is_ws(c: char) -> bool {
    let u = c as u32;
    (0x9 <= u <= 0xD) || u == 0x20 || u == 0x85 || u == 0xA0 || u == 0x1680 || (0x2000 <= u
        <= 0x200A) || u == 0x2028 || u == 0x2029 || u == 0x202F || u == 0x205F || u == 0x3000
}

/// The pending token `cur`, as a list of zero or one token.
pub open spec fn flush(cur: Seq<char>) -> Seq<Seq<char>> {
    if cur.len() == 0 {
        Seq::empty()
    } else {
        seq![cur]
    }
}

/// The tokens of `s`, continuing a token `cur` that was already started.
pub open spec fn split_from(s: Seq<char>, cur: Seq<char>) -> Seq<Seq<char>>
    decreases s.len(),
{
    if s.len() == 0 {
        flush(cur)
    } else if is_ws(s[0]) {
        flush(cur) + split_from(s.drop_first(), Seq::empty())
    } else {
        split_from(s.drop_first(), cur.push(s[0]))
    }
}

/// The maximal runs of non-whitespace characters of `s`, in order.
pub open spec fn tokens(s: Seq<char>) -> Seq<Seq<char>> {
    split_from(s, Seq::empty())
}

/// Lexicographic order on character sequences, by code point.
pub open spec fn lex_le(a: Seq<char>, b: Seq<char>) -> bool
    decreases a.len(),
{
    if a.len() == 0 {
        true
    } else if b.len() == 0 {
        false
    } else if a[0] as u32 != b[0] as u32 {
        (a[0] as u32) < (b[0] as u32)
    } else {
        lex_le(a.drop_first(), b.drop_first())
    }
}

/// `x` placed before the first element of `s` that it does not exceed.
pub open spec fn insert_sorted(x: Seq<char>, s: Seq<Seq<char>>) -> Seq<Seq<char>>
    decreases s.len(),
{
    if s.len() == 0 {
        seq![x]
    } else if lex_le(x, s[0]) {
        seq![x] + s
    } else {
        seq![s[0]] + insert_sorted(x, s.drop_first())
    }
}

/// The tokens of `s` in ascending lexicographic order.
pub open spec fn sort_tokens(s: Seq<Seq<char>>) -> Seq<Seq<char>>
    decreases s.len(),
{
    if s.len() == 0 {
        s
    } else {
        insert_sorted(s[0], sort_tokens(s.drop_first()))
    }
}

/// The tokens of `s` separated by single spaces.
pub open spec fn join(s: Seq<Seq<char>>) -> Seq<char>
    decreases s.len(),
{
    if s.len() == 0 {
        Seq::empty()
    } else if s.len() == 1 {
        s[0]
    } else {
        s[0] + seq![' '] + join(s.drop_first())
    }
}

/// The canonical form of an expression: its tokens sorted and joined by single spaces.
pub open spec fn canonical(s: Seq<char>) -> Seq<char> {
    join(sort_tokens(tokens(s)))
}

/// Adjacent elements are in lexicographic order.
pub open spec fn is_sorted(s: Seq<Seq<char>>) -> bool {
    forall|i: int| 0 <= i < s.len() - 1 ==> lex_le(#[trigger] s[i], s[i + 1])
}

/// A nonempty run of non-whitespace characters.
pub open spec fn is_token(t: Seq<char>) -> bool {
    t.len() > 0 && forall|i: int| 0 <= i < t.len() ==> !is_ws(#[trigger] t[i])
}

/// Every element of `s` is a token.
pub open spec fn all_tokens(s: Seq<Seq<char>>) -> bool {
    forall|i: int| 0 <= i < s.len() ==> is_token(#[trigger] s[i])
}

proof fn lemma_lex_total(a: Seq<char>, b: Seq<char>)
    ensures
        lex_le(a, b) || lex_le(b, a),
    decreases a.len(),
{
    if a.len() > 0 && b.len() > 0 && a[0] as u32 == b[0] as u32 {
        lemma_lex_total(a.drop_first(), b.drop_first());
    }
}

proof fn lemma_split_tokens(s: Seq<char>, cur: Seq<char>)
    requires
        forall|i: int| 0 <= i < cur.len() ==> !is_ws(#[trigger] cur[i]),
    ensures
        all_tokens(split_from(s, cur)),
    decreases s.len(),
{
    if s.len() == 0 {
    } else if is_ws(s[0]) {
        lemma_split_tokens(s.drop_first(), Seq::empty());
        let a = flush(cur);
        let b = split_from(s.drop_first(), Seq::empty());
        assert forall|i: int| 0 <= i < (a + b).len() implies is_token(#[trigger] (a + b)[i]) by {
            if i >= a.len() {
                assert((a + b)[i] == b[i - a.len()]);
            }
        }
    } else {
        let c2 = cur.push(s[0]);
        assert forall|i: int| 0 <= i < c2.len() implies !is_ws(#[trigger] c2[i]) by {
            if i < cur.len() {
                assert(c2[i] == cur[i]);
            }
        }
        lemma_split_tokens(s.drop_first(), c2);
    }
}

proof fn lemma_insert_contents(x: Seq<char>, s: Seq<Seq<char>>)
    ensures
        insert_sorted(x, s).to_multiset() == s.to_multiset().insert(x),
        insert_sorted(x, s).len() == s.len() + 1,
    decreases s.len(),
{
    broadcast use vstd::seq_lib::group_to_multiset_ensures;
    if s.len() == 0 {
    } else if lex_le(x, s[0]) {
        assert(seq![x] + s =~= s.insert(0, x));
    } else {
        lemma_insert_contents(x, s.drop_first());
        let t = insert_sorted(x, s.drop_first());
        assert(seq![s[0]] + t =~= t.insert(0, s[0]));
        assert(s =~= s.drop_first().insert(0, s[0]));
    }
}

proof fn lemma_sort_contents(s: Seq<Seq<char>>)
    ensures
        sort_tokens(s).to_multiset() == s.to_multiset(),
        sort_tokens(s).len() == s.len(),
    decreases s.len(),
{
    broadcast use vstd::seq_lib::group_to_multiset_ensures;
    if s.len() > 0 {
        lemma_sort_contents(s.drop_first());
        lemma_insert_contents(s[0], sort_tokens(s.drop_first()));
        assert(s =~= s.drop_first().insert(0, s[0]));
    }
}

proof fn lemma_insert_head(x: Seq<char>, s: Seq<Seq<char>>)
    ensures
        s.len() == 0 || lex_le(x, s[0]) ==> insert_sorted(x, s)[0] == x,
        s.len() > 0 && !lex_le(x, s[0]) ==> insert_sorted(x, s)[0] == s[0],
{
}

proof fn lemma_insert_sorted(x: Seq<char>, s: Seq<Seq<char>>)
    requires
        is_sorted(s),
    ensures
        is_sorted(insert_sorted(x, s)),
    decreases s.len(),
{
    if s.len() == 0 {
    } else if lex_le(x, s[0]) {
        let r = seq![x] + s;
        assert forall|i: int| 0 <= i < r.len() - 1 implies lex_le(#[trigger] r[i], r[i + 1]) by {
            if i > 0 {
                assert(r[i] == s[i - 1] && r[i + 1] == s[i]);
            }
        }
    } else {
        let t = s.drop_first();
        assert forall|i: int| 0 <= i < t.len() - 1 implies lex_le(#[trigger] t[i], t[i + 1]) by {
            assert(t[i] == s[i + 1] && t[i + 1] == s[i + 2]);
        }
        lemma_insert_sorted(x, t);
        lemma_lex_total(x, s[0]);
        lemma_insert_head(x, t);
        lemma_insert_contents(x, t);
        let u = insert_sorted(x, t);
        let r = seq![s[0]] + u;
        assert forall|i: int| 0 <= i < r.len() - 1 implies lex_le(#[trigger] r[i], r[i + 1]) by {
            if i > 0 {
                assert(r[i] == u[i - 1] && r[i + 1] == u[i]);
            } else {
                assert(r[1] == u[0]);
                if t.len() > 0 {
                    assert(s[1] == t[0]);
                }
            }
        }
    }
}

proof fn lemma_sort_sorted(s: Seq<Seq<char>>)
    ensures
        is_sorted(sort_tokens(s)),
    decreases s.len(),
{
    if s.len() > 0 {
        lemma_sort_sorted(s.drop_first());
        lemma_insert_sorted(s[0], sort_tokens(s.drop_first()));
    }
}

proof fn lemma_sort_of_sorted(s: Seq<Seq<char>>)
    requires
        is_sorted(s),
    ensures
        sort_tokens(s) == s,
    decreases s.len(),
{
    if s.len() > 0 {
        let t = s.drop_first();
        assert forall|i: int| 0 <= i < t.len() - 1 implies lex_le(#[trigger] t[i], t[i + 1]) by {
            assert(t[i] == s[i + 1] && t[i + 1] == s[i + 2]);
        }
        lemma_sort_of_sorted(t);
        if t.len() > 0 {
            assert(s[1] == t[0]);
        }
        assert(seq![s[0]] + t =~= s);
    }
}

proof fn lemma_split_append(t: Seq<char>, x: Seq<char>, cur: Seq<char>)
    requires
        forall|i: int| 0 <= i < t.len() ==> !is_ws(#[trigger] t[i]),
    ensures
        split_from(t + x, cur) == split_from(x, cur + t),
    decreases t.len(),
{
    if t.len() == 0 {
        assert(t + x =~= x);
        assert(cur + t =~= cur);
    } else {
        assert((t + x)[0] == t[0]);
        assert((t + x).drop_first() =~= t.drop_first() + x);
        assert forall|i: int| 0 <= i < t.drop_first().len() implies !is_ws(
            #[trigger] t.drop_first()[i],
        ) by {
            assert(t.drop_first()[i] == t[i + 1]);
        }
        lemma_split_append(t.drop_first(), x, cur.push(t[0]));
        assert(cur.push(t[0]) + t.drop_first() =~= cur + t);
    }
}

proof fn lemma_split_join(s: Seq<Seq<char>>)
    requires
        all_tokens(s),
    ensures
        tokens(join(s)) == s,
    decreases s.len(),
{
    let e = Seq::<char>::empty();
    if s.len() == 0 {
    } else if s.len() == 1 {
        assert(is_token(s[0]));
        lemma_split_append(s[0], e, e);
        assert(s[0] + e =~= s[0]);
        assert(e + s[0] =~= s[0]);
        assert(seq![s[0]] =~= s);
    } else {
        let t = s.drop_first();
        assert forall|i: int| 0 <= i < t.len() implies is_token(#[trigger] t[i]) by {
            assert(t[i] == s[i + 1]);
        }
        lemma_split_join(t);
        assert(is_token(s[0]));
        let rest = seq![' '] + join(t);
        assert(s[0] + seq![' '] + join(t) =~= s[0] + rest);
        lemma_split_append(s[0], rest, e);
        assert(e + s[0] =~= s[0]);
        assert(rest[0] == ' ');
        assert(rest.drop_first() =~= join(t));
        assert(seq![s[0]] + t =~= s);
    }
}

/// The canonical form of `s` splits back into the tokens of `s`, the same
/// tokens with the same multiplicities, in ascending lexicographic order.
pub proof fn lemma_canonical_tokens(s: Seq<char>)
    ensures
        tokens(canonical(s)) == sort_tokens(tokens(s)),
        is_sorted(tokens(canonical(s))),
        tokens(canonical(s)).to_multiset() == tokens(s).to_multiset(),
{
    let ts = tokens(s);
    let sorted = sort_tokens(ts);
    lemma_split_tokens(s, Seq::empty());
    lemma_sort_contents(ts);
    lemma_sort_sorted(ts);
    assert forall|i: int| 0 <= i < sorted.len() implies is_token(#[trigger] sorted[i]) by {
        broadcast use vstd::seq_lib::group_to_multiset_ensures;
        assert(sorted.to_multiset().count(sorted[i]) > 0);
        assert(ts.contains(sorted[i]));
    }
    lemma_split_join(sorted);
}

/// Canonicalizing an expression a second time changes nothing: the canonical
/// form of a canonical form is itself.
pub proof fn lemma_canonical_idempotent(s: Seq<char>)
    ensures
        canonical(canonical(s)) == canonical(s),
{
    lemma_canonical_tokens(s);
    lemma_sort_of_sorted(sort_tokens(tokens(s)));
}

/// The character sequences held by a list of character vectors.
pub open spec fn views(v: Seq<Vec<char>>) -> Seq<Seq<char>> {
    v.map_values(|x: Vec<char>| x@)
}

/// Whether `c` is whitespace (Unicode `White_Space`).
pub fn is_ws_char(c: char) -> (r: bool)
    ensures
        r == is_ws(c),
{
    let u = c as u32;
    (0x9 <= u && u <= 0xD) || u == 0x20 || u == 0x85 || u == 0xA0 || u == 0x1680 || (0x2000 <= u
        && u <= 0x200A) || u == 0x2028 || u == 0x2029 || u == 0x202F || u == 0x205F || u == 0x3000
}

/// The whitespace-separated tokens of `s`.
pub fn split_tokens(s: &Vec<char>) -> (r: Vec<Vec<char>>)
    ensures
        views(r@) == tokens(s@),
{
    let mut out: Vec<Vec<char>> = Vec::new();
    let mut cur: Vec<char> = Vec::new();
    let mut i: usize = 0;
    assert(s@.subrange(0, s@.len() as int) =~= s@);
    assert(views(out@) =~= Seq::<Seq<char>>::empty());
    assert(cur@ =~= Seq::<char>::empty());
    while i < s.len()
        invariant
            i <= s.len(),
            tokens(s@) == views(out@) + split_from(s@.subrange(i as int, s@.len() as int), cur@),
        decreases s.len() - i,
    {
        let ghost rest = s@.subrange(i as int, s@.len() as int);
        assert(rest.drop_first() =~= s@.subrange(i + 1, s@.len() as int));
        let c = s[i];
        if is_ws_char(c) {
            if cur.len() > 0 {
                let ghost before = views(out@);
                out.push(cur);
                assert(views(out@) =~= before + flush(cur@));
                cur = Vec::new();
            } else {
                assert(flush(cur@) =~= Seq::<Seq<char>>::empty());
                assert(Seq::<char>::empty() =~= cur@);
            }
            assert(views(out@) + split_from(rest.drop_first(), cur@) =~= tokens(s@));
        } else {
            cur.push(c);
        }
        i = i + 1;
    }
    if cur.len() > 0 {
        let ghost before = views(out@);
        out.push(cur);
        assert(views(out@) =~= before + flush(cur@));
    } else {
        assert(views(out@) + flush(cur@) =~= views(out@));
    }
    out
}

/// Whether `a` comes no later than `b` in lexicographic order.
pub fn lex_le_exec(a: &Vec<char>, b: &Vec<char>) -> (r: bool)
    ensures
        r == lex_le(a@, b@),
{
    let mut i: usize = 0;
    assert(a@.subrange(0, a@.len() as int) =~= a@);
    assert(b@.subrange(0, b@.len() as int) =~= b@);
    while i < a.len() && i < b.len()
        invariant
            i <= a.len(),
            i <= b.len(),
            lex_le(a@, b@) == lex_le(
                a@.subrange(i as int, a@.len() as int),
                b@.subrange(i as int, b@.len() as int),
            ),
        decreases a.len() - i,
    {
        let ghost ra = a@.subrange(i as int, a@.len() as int);
        let ghost rb = b@.subrange(i as int, b@.len() as int);
        assert(ra[0] == a@[i as int] && rb[0] == b@[i as int]);
        let x = a[i] as u32;
        let y = b[i] as u32;
        if x != y {
            return x < y;
        }
        assert(ra.drop_first() =~= a@.subrange(i + 1, a@.len() as int));
        assert(rb.drop_first() =~= b@.subrange(i + 1, b@.len() as int));
        i = i + 1;
    }
    i == a.len()
}

proof fn lemma_insert_at(x: Seq<char>, s: Seq<Seq<char>>, j: int)
    requires
        0 <= j <= s.len(),
        forall|k: int| 0 <= k < j ==> !lex_le(x, #[trigger] s[k]),
        j == s.len() || lex_le(x, s[j]),
    ensures
        insert_sorted(x, s) == s.insert(j, x),
    decreases j,
{
    if j == 0 {
        assert(s.insert(0, x) =~= seq![x] + s);
    } else {
        let t = s.drop_first();
        assert forall|k: int| 0 <= k < j - 1 implies !lex_le(x, #[trigger] t[k]) by {
            assert(t[k] == s[k + 1]);
        }
        if j < s.len() {
            assert(t[j - 1] == s[j]);
        }
        assert(!lex_le(x, s[0]));
        lemma_insert_at(x, t, j - 1);
        assert(seq![s[0]] + t.insert(j - 1, x) =~= s.insert(j, x));
    }
}

/// `x` inserted into the sorted list `v` before the first token it does not exceed.
fn insert_token(v: &mut Vec<Vec<char>>, x: Vec<char>)
    ensures
        views(final(v)@) == insert_sorted(x@, views(old(v)@)),
{
    let mut j: usize = 0;
    while j < v.len() && !lex_le_exec(&x, &v[j])
        invariant
            j <= v.len(),
            forall|k: int| 0 <= k < j ==> !lex_le(x@, #[trigger] views(v@)[k]),
        decreases v.len() - j,
    {
        j = j + 1;
    }
    proof {
        lemma_insert_at(x@, views(v@), j as int);
    }
    let ghost before = views(v@);
    v.insert(j, x);
    assert(views(v@) =~= before.insert(j as int, x@));
}

/// The tokens of `v` in ascending lexicographic order.
pub fn sort_token_list(v: Vec<Vec<char>>) -> (r: Vec<Vec<char>>)
    ensures
        views(r@) == sort_tokens(views(v@)),
{
    let ghost all = views(v@);
    let mut rest = v;
    let mut r: Vec<Vec<char>> = Vec::new();
    assert(all.subrange(all.len() as int, all.len() as int) =~= Seq::<Seq<char>>::empty());
    while rest.len() > 0
        invariant
            rest.len() <= all.len(),
            views(rest@) == all.subrange(0, rest.len() as int),
            views(r@) == sort_tokens(all.subrange(rest.len() as int, all.len() as int)),
        decreases rest.len(),
    {
        let ghost n = rest.len();
        let ghost old_rest = rest@;
        assert(all[n - 1] == all.subrange(0, n as int)[n - 1]);
        assert(views(old_rest)[n - 1] == old_rest[n - 1]@);
        let x = rest.pop().unwrap();
        assert(views(rest@) =~= all.subrange(0, n - 1));
        assert(x@ == all[n - 1]);
        let ghost suffix = all.subrange(n - 1, all.len() as int);
        assert(suffix.drop_first() =~= all.subrange(n as int, all.len() as int));
        insert_token(&mut r, x);
    }
    assert(all.subrange(0, all.len() as int) =~= all);
    r
}

proof fn lemma_join_push(s: Seq<Seq<char>>, t: Seq<char>)
    requires
        s.len() > 0,
    ensures
        join(s.push(t)) == join(s) + seq![' '] + t,
    decreases s.len(),
{
    let p = s.push(t);
    assert(p[0] == s[0]);
    if s.len() == 1 {
        assert(p.drop_first() =~= seq![t]);
        assert(join(seq![t]) == t);
    } else {
        lemma_join_push(s.drop_first(), t);
        assert(p.drop_first() =~= s.drop_first().push(t));
        let j = join(s.drop_first());
        assert(s[0] + seq![' '] + (j + seq![' '] + t) =~= (s[0] + seq![' '] + j) + seq![' '] + t);
    }
}

/// The tokens of `ts` separated by single spaces.
pub fn join_tokens(ts: &Vec<Vec<char>>) -> (r: Vec<char>)
    ensures
        r@ == join(views(ts@)),
{
    let ghost all = views(ts@);
    let mut r: Vec<char> = Vec::new();
    let mut i: usize = 0;
    while i < ts.len()
        invariant
            i <= ts.len(),
            all == views(ts@),
            r@ == join(all.subrange(0, i as int)),
        decreases ts.len() - i,
    {
        let ghost before = r@;
        if i > 0 {
            r.push(' ');
        }
        let t = &ts[i];
        let mut k: usize = 0;
        while k < t.len()
            invariant
                k <= t.len(),
                i > 0 ==> r@ == before + seq![' '] + t@.subrange(0, k as int),
                i == 0 ==> r@ == t@.subrange(0, k as int),
            decreases t.len() - k,
        {
            r.push(t[k]);
            k = k + 1;
            proof {
                if i > 0 {
                    assert(r@ =~= before + seq![' '] + t@.subrange(0, k as int));
                } else {
                    assert(r@ =~= t@.subrange(0, k as int));
                }
            }
        }
        proof {
            assert(t@.subrange(0, t@.len() as int) =~= t@);
            assert(all.subrange(0, i + 1) =~= all.subrange(0, i as int).push(all[i as int]));
            if i > 0 {
                lemma_join_push(all.subrange(0, i as int), all[i as int]);
            } else {
                assert(all.subrange(0, 1) =~= seq![all[0]]);
            }
        }
        i = i + 1;
    }
    assert(all.subrange(0, ts.len() as int) =~= all);
    r
}

/// The canonical form of an expression: its whitespace-separated tokens, sorted
/// lexicographically and joined by single spaces.
pub fn canonical_key(expr: &str) -> (r: String)
    ensures
        r@ == canonical(expr@),
{
    let chars = chars_of(expr);
    let toks = split_tokens(&chars);
    let sorted = sort_token_list(toks);
    let joined = join_tokens(&sorted);
    string_of(&joined)
}

} // verus!
