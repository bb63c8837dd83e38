use pkgcraft::text::trim;

#[test]
fn trim_strips_unicode_whitespace() {
    assert_eq!(trim("  a b \t\n"), "a b");
    assert_eq!(trim(""), "");
    assert_eq!(trim(" \u{3000}\u{a0}"), "");
    assert_eq!(trim("\u{2003}x\u{85}"), "x");
    assert_eq!(trim("x\u{200b}"), "x\u{200b}");
    for s in ["\u{1680}a", "b\u{2028}", "\u{2029}\u{202f}c\u{205f}", "\u{b}\u{c}d\r"] {
        assert_eq!(trim(s), s.trim());
    }
}
