use linkal::elements::rewrite_elements_chars;
use linkal::text::{
    chars_equal, chars_of, count_chars, decimal_chars, decode, find, matches_at, replace_all_chars,
    string_of, xml_escape,
};

fn chars(s: &str) -> Vec<char> {
    s.chars().collect()
}

fn text(v: Vec<char>) -> String {
    v.into_iter().collect()
}

#[test]
fn characters_of_a_string_and_back() {
    assert_eq!(chars_of("a\u{e9}\u{1F37A}<"), vec!['a', '\u{e9}', '\u{1F37A}', '<']);
    assert_eq!(chars_of(""), Vec::<char>::new());
    assert_eq!(string_of(&vec!['x', '\u{e9}', 'y']), "x\u{e9}y");
    assert_eq!(string_of(&vec![]), "");
}

#[test]
fn decoding_takes_utf8_only() {
    assert_eq!(decode(b"abc"), Some("abc"));
    assert_eq!(decode("h\u{e9}".as_bytes()), Some("h\u{e9}"));
    assert_eq!(decode(&[]), Some(""));
    assert_eq!(decode(&[0xff]), None);
    assert_eq!(decode(&[0xe2, 0x82]), None);
}

#[test]
fn finding_gives_the_first_occurrence() {
    let t = chars("abcabc");
    assert_eq!(find(&t, &chars("bc"), 0), Some(1));
    assert_eq!(find(&t, &chars("bc"), 1), Some(1));
    assert_eq!(find(&t, &chars("bc"), 2), Some(4));
    assert_eq!(find(&t, &chars("bc"), 5), None);
    assert_eq!(find(&t, &chars("bc"), 100), None);
    assert_eq!(find(&t, &chars("abcabcd"), 0), None);
    assert_eq!(find(&t, &chars(""), 3), Some(3));
    assert_eq!(find(&t, &chars(""), 6), Some(6));
    assert_eq!(find(&t, &chars(""), 7), None);
    assert_eq!(find(&chars(""), &chars("a"), 0), None);
}

#[test]
fn matching_at_an_index() {
    let t = chars("hello");
    assert!(matches_at(&t, &chars("ell"), 1));
    assert!(!matches_at(&t, &chars("ell"), 2));
    assert!(matches_at(&t, &chars(""), 5));
    assert!(chars_equal(&t, &chars("hello")));
    assert!(!chars_equal(&t, &chars("hell")));
    assert!(!chars_equal(&t, &chars("hellp")));
}

#[test]
fn replacing_goes_left_to_right_without_overlap() {
    let replace = |t: &str, from: &str, to: &str| {
        text(replace_all_chars(&chars(t), &chars(from), &chars(to)))
    };
    assert_eq!(replace("aaa", "aa", "b"), "ba");
    assert_eq!(replace("abab", "ab", "ba"), "baba");
    assert_eq!(replace("abc", "x", "y"), "abc");
    assert_eq!(replace("abc", "", "y"), "abc");
    assert_eq!(replace("", "a", "b"), "");
    assert_eq!(replace("a.c abc", "a.c", "X"), "X abc");
    assert_eq!(replace("xAAA", "AAA", "cals/AAA"), "xcals/AAA");
    assert_eq!(replace("xcals/AAA", "AAA", "cals/AAA"), "xcals/cals/AAA");
}

#[test]
fn counting_occurrences() {
    assert_eq!(count_chars(&chars("aaaa"), &chars("aa")), 3);
    assert_eq!(count_chars(&chars("<d:response><d:response>"), &chars("<d:response>")), 2);
    assert_eq!(count_chars(&chars("abc"), &chars("abcd")), 0);
    assert_eq!(count_chars(&chars(""), &chars("a")), 0);
}

#[test]
fn escaping_character_data() {
    assert_eq!(text(xml_escape(&chars("a<b>&c\"'"))), "a&lt;b&gt;&amp;c\"'");
    assert_eq!(text(xml_escape(&chars(""))), "");
    assert_eq!(text(xml_escape(&chars("&amp;"))), "&amp;amp;");
}

#[test]
fn decimal_digits() {
    assert_eq!(text(decimal_chars(0)), "0");
    assert_eq!(text(decimal_chars(7)), "7");
    assert_eq!(text(decimal_chars(10)), "10");
    assert_eq!(text(decimal_chars(207)), "207");
    assert_eq!(text(decimal_chars(4294967295)), "4294967295");
}

#[test]
fn elements_are_rewritten_one_after_the_other() {
    let rewrite = |t: &str| {
        text(rewrite_elements_chars(&chars(t), &chars("<a>"), &chars("</a>"), &chars("N")))
    };
    assert_eq!(rewrite("<a>1</a><a>2</a>"), "<a>N</a><a>N</a>");
    assert_eq!(rewrite("x<a></a>y"), "x<a>N</a>y");
    assert_eq!(rewrite("<a><a>1</a></a>"), "<a>N</a></a>");
    assert_eq!(rewrite("<a>1</a><a>2"), "<a>N</a><a>2");
    assert_eq!(rewrite("</a><a>"), "</a><a>");
    assert_eq!(rewrite(""), "");
    assert_eq!(rewrite("<a>\n1\n</a>"), "<a>N</a>");
}

#[test]
fn empty_tags_rewrite_nothing() {
    let out = rewrite_elements_chars(&chars("abc"), &chars(""), &chars(""), &chars("N"));
    assert_eq!(text(out), "abc");
}
