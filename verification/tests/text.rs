use public_api::order::{key_less, stable_order_of};
use public_api::text::{
    chars_of, ensure_pub, find_chars, qualify_signature, single_line, split_lines,
    trim_trait_prefix,
};

fn s(x: &str) -> String {
    x.to_string()
}

#[test]
fn ensure_pub_adds_prefix_once() {
    assert_eq!(ensure_pub(s("fn x()")), "pub fn x()");
    assert_eq!(ensure_pub(s("pub fn x()")), "pub fn x()");
    assert_eq!(ensure_pub(s("pu")), "pub pu");
    assert_eq!(ensure_pub(s("")), "pub ");
    assert_eq!(ensure_pub(s("pub")), "pub pub");
    let once = ensure_pub(s("const X: u8"));
    assert_eq!(ensure_pub(once.clone()), once);
}

#[test]
fn qualify_signature_replaces_first_name() {
    assert_eq!(
        qualify_signature(s("pub fn helper()"), "fn", "helper", "rocks::helper"),
        "pub fn rocks::helper()"
    );
    assert_eq!(qualify_signature(s("fn f(fn f)"), "fn", "f", "p::f"), "fn p::f(fn f)");
    assert_eq!(qualify_signature(s("pub fn é()"), "fn", "é", "m::é"), "pub fn m::é()");
    assert_eq!(
        qualify_signature(s("pub struct Intx;"), "struct", "Int", "a::Int"),
        "pub struct a::Intx;"
    );
}

#[test]
fn qualify_signature_without_match_is_unchanged() {
    assert_eq!(qualify_signature(s("pub fn helper()"), "fn", "other", "x"), "pub fn helper()");
    assert_eq!(qualify_signature(s("pub fnhelper()"), "fn", "helper", "x"), "pub fnhelper()");
    assert_eq!(qualify_signature(s(""), "fn", "f", "x"), "");
}

#[test]
fn single_line_joins_lines() {
    assert_eq!(single_line(s("a\nb\r\nc\n")), "a b c");
    assert_eq!(single_line(s("x\r")), "x\r");
    assert_eq!(single_line(s("")), "");
    assert_eq!(single_line(s("\n")), "");
    assert_eq!(single_line(s("\n\n")), " ");
    assert_eq!(single_line(s("one line")), "one line");
}

#[test]
fn single_line_is_idempotent() {
    for input in ["a\nb", "x\r\n\r\ny\r", "", "\n", "p\nq\n\nr"] {
        let once = single_line(s(input));
        assert_eq!(single_line(once.clone()), once);
        assert!(!once.contains('\n'));
    }
}

#[test]
fn split_lines_agrees_with_str_lines() {
    for input in ["a\nb", "x\r\n\r\ny\r", "", "\n", "p\nq\n\nr\n", "\r\n", "é\nü"] {
        let ours = split_lines(input);
        let std: Vec<String> = input.lines().map(|l| l.to_string()).collect();
        assert_eq!(ours, std, "{:?}", input);
    }
}

#[test]
fn trim_trait_prefix_removes_repeats() {
    assert_eq!(trim_trait_prefix("trait trait Foo"), "Foo");
    assert_eq!(trim_trait_prefix("trait Foo<T>"), "Foo<T>");
    assert_eq!(trim_trait_prefix("traitFoo"), "traitFoo");
    assert_eq!(trim_trait_prefix("trait "), "");
    assert_eq!(trim_trait_prefix("Foo"), "Foo");
}

#[test]
fn chars_and_find() {
    let hay = chars_of("abcabc");
    assert_eq!(hay, vec!['a', 'b', 'c', 'a', 'b', 'c']);
    assert_eq!(find_chars(&hay, &chars_of("ca")), Some(2));
    assert_eq!(find_chars(&hay, &chars_of("bc")), Some(1));
    assert_eq!(find_chars(&hay, &chars_of("cb")), None);
    assert_eq!(find_chars(&hay, &chars_of("")), Some(0));
    assert_eq!(find_chars(&chars_of("ab"), &chars_of("abc")), None);
}

#[test]
fn keys_order_none_first_then_by_characters() {
    let k = |x: &str| Some(chars_of(x));
    assert!(key_less(&None, &k("")));
    assert!(!key_less(&k(""), &None));
    assert!(!key_less(&None, &None));
    assert!(key_less(&k("B"), &k("a")));
    assert!(key_less(&k("ab"), &k("abc")));
    assert!(!key_less(&k("abc"), &k("abc")));
    assert!(key_less(&k("z"), &k("é")));
}

#[test]
fn stable_order_keeps_equal_keys_in_place() {
    let k = |x: &str| Some(chars_of(x));
    let keys = vec![k("b"), None, k("a"), k("b"), None];
    assert_eq!(stable_order_of(&keys), vec![1, 4, 2, 0, 3]);
    assert_eq!(stable_order_of(&vec![]), Vec::<usize>::new());
}
