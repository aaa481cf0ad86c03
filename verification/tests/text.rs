use mcpg_plugin_backend_kafka::text::{blank, contains_char, contains_text, text_before, white_space};

#[test]
fn white_space_is_that_of_unicode() {
    for c in '\0'..=char::MAX {
        assert_eq!(white_space(c), c.is_whitespace(), "{c:?}");
    }
}

#[test]
fn blank_text() {
    for s in ["", " ", "\t\r\n", "\u{a0}\u{2003}\u{3000}"] {
        assert!(blank(s));
        assert!(s.trim().is_empty());
    }
    for s in ["a", " a ", "\u{200b}", "\0"] {
        assert!(!blank(s));
        assert!(!s.trim().is_empty());
    }
}

#[test]
fn search() {
    assert!(contains_char("x\0y", '\0'));
    assert!(!contains_char("xy", '\0'));
    assert!(contains_text("a cred://x", "cred://"));
    assert!(contains_text("cred://", "cred://"));
    assert!(contains_text("ccred://", "cred://"));
    assert!(!contains_text("cred:/", "cred://"));
    assert!(!contains_text("cred:/cred:/", "cred://"));
    assert!(contains_text("", ""));
}

#[test]
fn order_is_that_of_str() {
    let texts = ["", "a", "ab", "b", "aé", "a\u{10000}", "a\u{ffff}", "B", "ba"];
    for a in texts {
        for b in texts {
            assert_eq!(text_before(a, b), a < b, "{a:?} {b:?}");
        }
    }
}
