use numbat_session::unicode::get_unicode_completion;

#[test]
fn registered_alias_yields_its_glyph() {
    assert_eq!(get_unicode_completion("alpha"), Some(String::from("\u{03b1}")));
    assert_eq!(get_unicode_completion("pm"), Some(String::from("\u{00b1}")));
    assert_eq!(get_unicode_completion("Omega"), Some(String::from("\u{03a9}")));
}

#[test]
fn unregistered_word_yields_nothing() {
    assert_eq!(get_unicode_completion("nosuchword"), None);
    assert_eq!(get_unicode_completion(""), None);
    // a prefix of a registered alias is not a match
    assert_eq!(get_unicode_completion("alph"), None);
}
