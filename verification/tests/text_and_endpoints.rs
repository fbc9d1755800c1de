use landing::config::ConfigInner;
use landing::endpoint::normalize_endpoint;
use landing::error::Error;
use landing::text::{
    chars_of, copy_str, is_whitespace_char, same_text, split_whitespace, strip_prefix,
    strip_suffix, string_of, to_lower_hex,
};

fn normalized(s: &str) -> String {
    let mut e = s.to_string();
    normalize_endpoint(&mut e);
    e
}

#[test]
fn strip_prefix_and_suffix() {
    assert_eq!(strip_prefix("/assets/x.css", "/assets"), Some("/x.css".to_string()));
    assert_eq!(strip_prefix("/asset", "/assets"), None);
    assert_eq!(strip_prefix("abc", ""), Some("abc".to_string()));
    assert_eq!(strip_suffix("/foo.html.j2", ".html.j2"), Some("/foo".to_string()));
    assert_eq!(strip_suffix("/foo.html", ".html.j2"), None);
    assert_eq!(strip_suffix("é/ü", "/ü"), Some("é".to_string()));
}

#[test]
fn split_whitespace_matches_std() {
    let inputs = [
        "",
        "   ",
        "p-4 text-red-500",
        "  a\tb\nc  ",
        "x\u{3000}y\u{a0}z\u{2028}w",
        "one",
    ];
    for s in inputs {
        let ours = split_whitespace(s);
        let std: Vec<String> = s.split_whitespace().map(|w| w.to_string()).collect();
        assert_eq!(ours, std, "input {:?}", s);
    }
}

#[test]
fn whitespace_chars_match_std() {
    for u in 0u32..0x3100 {
        if let Some(c) = char::from_u32(u) {
            assert_eq!(is_whitespace_char(c), c.is_whitespace(), "char {:x}", u);
        }
    }
}

#[test]
fn lower_hex_matches_format() {
    for n in [0u64, 9, 10, 15, 16, 255, 4096, 0xdead_beef, u64::MAX] {
        assert_eq!(to_lower_hex(n), format!("{:x}", n));
    }
}

#[test]
fn char_helpers() {
    assert_eq!(chars_of("aé"), vec!['a', 'é']);
    assert_eq!(string_of(&['a', 'b', 'c'], 1, 3), "bc");
    assert_eq!(copy_str("xyz"), "xyz");
    assert!(same_text("abc", "abc"));
    assert!(!same_text("abc", "abd"));
    assert!(!same_text("abc", "ab"));
}

#[test]
fn endpoints_are_normalized() {
    assert_eq!(normalized(""), "/");
    assert_eq!(normalized("/"), "/");
    assert_eq!(normalized("assets"), "/assets/");
    assert_eq!(normalized("/assets"), "/assets/");
    assert_eq!(normalized("assets/"), "/assets/");
    assert_eq!(normalized("//a///b//"), "/a/b/");
    assert_eq!(normalized("a//b"), "/a/b/");
}

#[test]
fn normalizing_twice_changes_nothing() {
    for s in ["", "a", "//a///b//", "/x/y", "x//"] {
        let once = normalized(s);
        assert_eq!(normalized(&once), once);
    }
}

#[test]
fn trailing_slash_gives_same_endpoint() {
    for s in ["", "a", "/a/b", "/a/b/", "//"] {
        assert_eq!(normalized(&format!("{}/", s)), normalized(s));
    }
}

#[test]
fn normalizing_keeps_other_characters() {
    let s = "//ab/c//d";
    let before: String = s.chars().filter(|c| *c != '/').collect();
    let after: String = normalized(s).chars().filter(|c| *c != '/').collect();
    assert_eq!(before, after);
}

#[test]
fn validate_endpoint_o_only_touches_some() {
    let mut e = Some("x".to_string());
    ConfigInner::validate_endpoint_o(&mut e);
    assert_eq!(e, Some("/x/".to_string()));
    let mut none: Option<String> = None;
    ConfigInner::validate_endpoint_o(&mut none);
    assert_eq!(none, None);
}

#[test]
fn config_error_message() {
    let e = Error::config("config.toml", "missing field");
    assert_eq!(e.message(), "Could not parse config: config.toml: missing field");
    match e {
        Error::Config(p, r) => {
            assert_eq!(p, "config.toml");
            assert_eq!(r, "missing field");
        }
    }
}
