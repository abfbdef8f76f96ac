use konpac::chars::{replace_all, str_eq, trim};

#[test]
fn trim_removes_edge_whitespace() {
    assert_eq!(trim("  hello \t\r\n"), "hello");
    assert_eq!(trim("no-edges"), "no-edges");
    assert_eq!(trim("   "), "");
    assert_eq!(trim(""), "");
    assert_eq!(trim(" inner space stays "), "inner space stays");
}

#[test]
fn str_eq_compares_by_characters() {
    assert!(str_eq("abc", "abc"));
    assert!(!str_eq("abc", "abd"));
    assert!(!str_eq("abc", "ab"));
    assert!(str_eq("", ""));
}

#[test]
fn replace_all_substitutes_every_occurrence() {
    assert_eq!(replace_all("$repo/$repo", "$repo", "main"), "main/main");
    assert_eq!(replace_all("nothing here", "$arch", "x86_64"), "nothing here");
    assert_eq!(replace_all("aaa", "aa", "b"), "ba");
    assert_eq!(replace_all("x", "x", ""), "");
}
