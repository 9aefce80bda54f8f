use multiproc::canon::{canonical_key, lex_le_exec, split_tokens};
use multiproc::dedup::rm_permu;
use multiproc::report::{pt_grammar, pt_init_rw, pt_root_ecls_info};
use multiproc::text::{decimal_chars, with_decimal};

fn strings(v: &[&str]) -> Vec<String> {
    v.iter().map(|s| s.to_string()).collect()
}

#[test]
fn canonical_key_sorts_tokens() {
    assert_eq!(canonical_key("b + a"), "+ a b");
    assert_eq!(canonical_key("a + b"), "+ a b");
    assert_eq!(canonical_key("  c\t*   d \n"), "* c d");
    assert_eq!(canonical_key(""), "");
    assert_eq!(canonical_key("   "), "");
    assert_eq!(canonical_key("x\u{3000}y\u{a0}a"), "a x y");
}

#[test]
fn canonical_key_is_idempotent() {
    for s in ["b + a", "  z  y x ", "(* 2 x) (+ 1 y)", "", "ab aa a b"] {
        let once = canonical_key(s);
        assert_eq!(canonical_key(&once), once);
    }
}

#[test]
fn token_split_and_order() {
    let v: Vec<char> = " ab  c\td ".chars().collect();
    let toks: Vec<String> = split_tokens(&v).iter().map(|t| t.iter().collect()).collect();
    assert_eq!(toks, strings(&["ab", "c", "d"]));
    let a: Vec<char> = "ab".chars().collect();
    let b: Vec<char> = "b".chars().collect();
    let e: Vec<char> = Vec::new();
    assert!(lex_le_exec(&a, &b));
    assert!(!lex_le_exec(&b, &a));
    assert!(lex_le_exec(&e, &a));
    assert!(lex_le_exec(&a, &a));
}

#[test]
fn dedup_removes_permutations() {
    let input = strings(&["a + b", "b + a", "c * d"]);
    let out = rm_permu(&input);
    assert_eq!(out.len(), 2);
    assert_eq!(out, strings(&["a + b", "c * d"]));
    let reversed = strings(&["b + a", "a + b", "c * d"]);
    assert_eq!(rm_permu(&reversed), strings(&["b + a", "c * d"]));
}

#[test]
fn dedup_without_permutations_is_identity() {
    let input = strings(&["x", "y", "z"]);
    assert_eq!(rm_permu(&input), input);
}

#[test]
fn dedup_of_nothing_is_empty() {
    let input: Vec<String> = Vec::new();
    assert!(rm_permu(&input).is_empty());
}

#[test]
fn dedup_keys_on_tokens_not_spacing() {
    let input = strings(&["a  b", "b a", "a b c", "ab"]);
    assert_eq!(rm_permu(&input), strings(&["a  b", "a b c", "ab"]));
}

#[test]
fn decimal_digits() {
    assert_eq!(decimal_chars(0), vec!['0']);
    assert_eq!(decimal_chars(65535).iter().collect::<String>(), "65535");
    assert_eq!(with_decimal("port ", 8001), "port 8001");
}

#[test]
fn root_eclass_report() {
    let r = pt_root_ecls_info(&vec![1, 23]);
    assert_eq!(
        r,
        strings(&[
            "---------- Root EClasses ----------\n",
            "[1, 23]\n",
            "-----------------------------------\n",
        ])
    );
    assert_eq!(pt_root_ecls_info(&Vec::new())[1], "[]\n");
}

#[test]
fn init_rewrite_report_quotes_each_rewrite() {
    let r = pt_init_rw(&strings(&["a", "b\"c"]));
    assert_eq!(r[0], "--------- Initial Rewrite ---------\n");
    assert_eq!(r[1], "[\"a\", \"b\\\"c\"]\n");
    assert_eq!(r[2], "-----------------------------------\n");
}

#[test]
fn grammar_report_one_record_per_entry() {
    let g = vec![
        (String::from("e0"), strings(&["e1 + e2", "x"])),
        (String::from("e1"), Vec::new()),
    ];
    let r = pt_grammar(&g);
    assert_eq!(r.len(), 4);
    assert_eq!(r[0], "------------- Grammar -------------\n");
    assert_eq!(r[1], "e0 -> [\"e1 + e2\", \"x\"]\n");
    assert_eq!(r[2], "e1 -> []\n");
    assert_eq!(r[3], "-----------------------------------\n");
}
