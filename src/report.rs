use vstd::prelude::*;
use vstd::string::StringExecFns;
use crate::canon::views;
use crate::text::{chars_of, decimal, decimal_chars, string_of};

verus! {

/// What `{:?}` writes for a string: the string quoted, with escapes.
pub uninterp spec fn debug_quoted(s: Seq<char>) -> Seq<char>;

/// Relies on the `Debug` format of `str` (through `format!`): the quoted, escaped text.
#[verifier::external_body]
fn quoted(s: &str) -> (r: String)
    ensures
        r@ == debug_quoted(s@),
{
    format!("{:?}", s)
}

/// The items of `s` separated by `", "`.
pub open spec fn comma_join(s: Seq<Seq<char>>) -> Seq<char>
    decreases s.len(),
{
    if s.len() == 0 {
        Seq::empty()
    } else if s.len() == 1 {
        s[0]
    } else {
        comma_join(s.drop_last()) + seq![',', ' '] + s.last()
    }
}

/// A list as `{:?}` writes it: the items between brackets, separated by `", "`.
pub open spec fn list_text(s: Seq<Seq<char>>) -> Seq<char> {
    seq!['['] + comma_join(s) + seq![']']
}

/// The horizontal rule that closes every report.
pub open spec fn rule_line() -> Seq<char> {
    "-----------------------------------\n"@
}

fn push_all(v: &mut Vec<char>, s: &Vec<char>)
    ensures
        final(v)@ == old(v)@ + s@,
{
    let mut k: usize = 0;
    while k < s.len()
        invariant
            k <= s.len(),
            v@ == old(v)@ + s@.subrange(0, k as int),
        decreases s.len() - k,
    {
        v.push(s[k]);
        k = k + 1;
        assert(v@ =~= old(v)@ + s@.subrange(0, k as int));
    }
    assert(s@.subrange(0, s@.len() as int) =~= s@);
}

/// The items between brackets, separated by `", "`, then a newline.
fn list_line(items: &Vec<Vec<char>>) -> (r: String)
    ensures
        r@ == list_text(views(items@)) + seq!['\n'],
{
    let ghost all = views(items@);
    let mut body: Vec<char> = Vec::new();
    let mut i: usize = 0;
    while i < items.len()
        invariant
            i <= items.len(),
            all == views(items@),
            body@ == comma_join(all.subrange(0, i as int)),
        decreases items.len() - i,
    {
        if i > 0 {
            body.push(',');
            body.push(' ');
        }
        push_all(&mut body, &items[i]);
        let ghost s = all.subrange(0, i + 1);
        assert(s.drop_last() =~= all.subrange(0, i as int));
        assert(s.last() == items@[i as int]@);
        if i == 0 {
            assert(body@ =~= comma_join(s));
        }
        i = i + 1;
    }
    assert(all.subrange(0, items.len() as int) =~= all);
    let mut line: Vec<char> = Vec::new();
    line.push('[');
    push_all(&mut line, &body);
    line.push(']');
    line.push('\n');
    assert(line@ =~= list_text(all) + seq!['\n']);
    string_of(&line)
}

/// The decimal spellings of a list of numbers.
pub open spec fn decimals(ids: Seq<u32>) -> Seq<Seq<char>> {
    ids.map_values(|x: u32| decimal(x as nat))
}

/// The quoted spellings of a list of strings.
pub open spec fn quoted_all(v: Seq<String>) -> Seq<Seq<char>> {
    v.map_values(|x: String| debug_quoted(x@))
}

fn quoted_list_line(v: &Vec<String>) -> (r: String)
    ensures
        r@ == list_text(quoted_all(v@)) + seq!['\n'],
{
    let mut items: Vec<Vec<char>> = Vec::new();
    let mut i: usize = 0;
    while i < v.len()
        invariant
            i <= v.len(),
            views(items@) == quoted_all(v@).subrange(0, i as int),
        decreases v.len() - i,
    {
        let q = quoted(v[i].as_str());
        let ghost before = views(items@);
        items.push(chars_of(q.as_str()));
        assert(views(items@) =~= before.push(q@));
        assert(quoted_all(v@).subrange(0, i + 1) =~= quoted_all(v@).subrange(0, i as int).push(q@));
        i = i + 1;
    }
    assert(quoted_all(v@).subrange(0, v.len() as int) =~= quoted_all(v@));
    list_line(&items)
}

/// The debug records that describe the root e-classes: a title, the list of
/// class ids, and a closing rule.
pub fn pt_root_ecls_info(root_ecls: &Vec<u32>) -> (r: Vec<String>)
    ensures
        r.len() == 3,
        r[0]@ == "---------- Root EClasses ----------\n"@,
        r[1]@ == list_text(decimals(root_ecls@)) + seq!['\n'],
        r[2]@ == rule_line(),
{
    let mut items: Vec<Vec<char>> = Vec::new();
    let mut i: usize = 0;
    while i < root_ecls.len()
        invariant
            i <= root_ecls.len(),
            views(items@) == decimals(root_ecls@).subrange(0, i as int),
        decreases root_ecls.len() - i,
    {
        let ghost before = views(items@);
        let d = decimal_chars(root_ecls[i]);
        items.push(d);
        assert(views(items@) =~= before.push(decimal(root_ecls@[i as int] as nat)));
        assert(decimals(root_ecls@).subrange(0, i + 1) =~= decimals(root_ecls@).subrange(
            0,
            i as int,
        ).push(decimal(root_ecls@[i as int] as nat)));
        i = i + 1;
    }
    assert(decimals(root_ecls@).subrange(0, root_ecls.len() as int) =~= decimals(root_ecls@));
    let mut r: Vec<String> = Vec::new();
    r.push(String::from_str("---------- Root EClasses ----------\n"));
    r.push(list_line(&items));
    r.push(String::from_str("-----------------------------------\n"));
    r
}

/// The debug records that describe the initial rewrites: a title, the quoted
/// list of rewrites, and a closing rule.
pub fn pt_init_rw(init_rw: &Vec<String>) -> (r: Vec<String>)
    ensures
        r.len() == 3,
        r[0]@ == "--------- Initial Rewrite ---------\n"@,
        r[1]@ == list_text(quoted_all(init_rw@)) + seq!['\n'],
        r[2]@ == rule_line(),
{
    let mut r: Vec<String> = Vec::new();
    r.push(String::from_str("--------- Initial Rewrite ---------\n"));
    r.push(quoted_list_line(init_rw));
    r.push(String::from_str("-----------------------------------\n"));
    r
}

/// The record for one grammar entry: the class, an arrow, and its quoted alternatives.
pub open spec fn grammar_line(eclass: Seq<char>, rewrites: Seq<String>) -> Seq<char> {
    eclass + " -> "@ + list_text(quoted_all(rewrites)) + seq!['\n']
}

/// The debug records that describe a grammar: a title, one record per entry in
/// the given order, and a closing rule.
pub fn pt_grammar(grammar: &Vec<(String, Vec<String>)>) -> (r: Vec<String>)
    ensures
        r.len() == grammar.len() + 2,
        r[0]@ == "------------- Grammar -------------\n"@,
        forall|i: int| 0 <= i < grammar.len() ==> #[trigger] r[i + 1]@ == grammar_line(
            grammar[i].0@,
            grammar[i].1@,
        ),
        r[grammar.len() + 1]@ == rule_line(),
{
    let mut r: Vec<String> = Vec::new();
    r.push(String::from_str("------------- Grammar -------------\n"));
    let mut i: usize = 0;
    while i < grammar.len()
        invariant
            i <= grammar.len(),
            r.len() == i + 1,
            r[0]@ == "------------- Grammar -------------\n"@,
            forall|k: int| 0 <= k < i ==> #[trigger] r[k + 1]@ == grammar_line(
                grammar[k].0@,
                grammar[k].1@,
            ),
        decreases grammar.len() - i,
    {
        let entry = &grammar[i];
        let mut line = entry.0.clone();
        line.append(" -> ");
        let rest = quoted_list_line(&entry.1);
        line.append(rest.as_str());
        assert(line@ =~= grammar_line(grammar[i as int].0@, grammar[i as int].1@));
        r.push(line);
        i = i + 1;
    }
    r.push(String::from_str("-----------------------------------\n"));
    r
}

} // verus!
