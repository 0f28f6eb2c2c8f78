use hostsnap::text::{parse_usize, split_on_char, split_tokens, str_prefix_before, trim_str};

#[test]
fn test_parse_usize() {
    assert_eq!(parse_usize("0"), Some(0));
    assert_eq!(parse_usize("65"), Some(65));
    assert_eq!(parse_usize("007"), Some(7));
    assert_eq!(parse_usize("18446744073709551615"), Some(usize::MAX));
    assert_eq!(parse_usize("18446744073709551616"), None);
    assert_eq!(parse_usize(""), None);
    assert_eq!(parse_usize("-1"), None);
    assert_eq!(parse_usize("+1"), None);
    assert_eq!(parse_usize("1x"), None);
    assert_eq!(parse_usize(" 1"), None);
}

#[test]
fn test_split_tokens() {
    assert_eq!(split_tokens("a bb  ccc"), vec!["a", "bb", "ccc"]);
    assert_eq!(split_tokens("  a\tb \n"), vec!["a", "b"]);
    assert_eq!(split_tokens(""), Vec::<String>::new());
    assert_eq!(split_tokens("   "), Vec::<String>::new());
}

#[test]
fn test_split_on_char() {
    assert_eq!(split_on_char("rw,relatime", ','), vec!["rw", "relatime"]);
    assert_eq!(split_on_char("a,,b", ','), vec!["a", "", "b"]);
    assert_eq!(split_on_char("", ','), vec![""]);
    assert_eq!(split_on_char("abc", ','), vec!["abc"]);
}

#[test]
fn test_trim_str() {
    assert_eq!(trim_str("  a b \t"), "a b");
    assert_eq!(trim_str("abc"), "abc");
    assert_eq!(trim_str(" \n\t "), "");
    assert_eq!(trim_str(""), "");
}

#[test]
fn test_str_prefix_before() {
    assert_eq!(str_prefix_before("model name\t: x", ':'), "model name\t");
    assert_eq!(str_prefix_before("no colon", ':'), "no colon");
    assert_eq!(str_prefix_before(":starts", ':'), "");
}
