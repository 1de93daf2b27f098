use numbat_session::complete::{has_prefix, prefix_filter, trailing_token_exec};

#[test]
fn trailing_token_of_empty_input_is_empty() {
    assert_eq!(trailing_token_exec(""), "");
}

#[test]
fn trailing_token_after_operator_is_empty() {
    assert_eq!(trailing_token_exec("3+"), "");
    assert_eq!(trailing_token_exec("1 * (2 -"), "");
}

#[test]
fn trailing_token_is_last_word() {
    assert_eq!(trailing_token_exec("len"), "len");
    assert_eq!(trailing_token_exec("1 + le"), "le");
    assert_eq!(trailing_token_exec("sqrt(x)+al"), "al");
}

#[test]
fn prefix_test_is_case_sensitive_and_literal() {
    assert!(has_prefix("length", "len"));
    assert!(has_prefix("len", "len"));
    assert!(!has_prefix("Length", "len"));
    assert!(!has_prefix("le", "len"));
}

#[test]
fn filter_keeps_order_and_caps_at_limit() {
    let cands = vec![
        String::from("lene1"),
        String::from("other"),
        String::from("lene2"),
        String::from("lene3"),
        String::from("lene4"),
        String::from("lene5"),
        String::from("lene6"),
        String::from("lene7"),
    ];
    let kept = prefix_filter(cands, "len", 6);
    let got: Vec<&str> = kept.iter().map(|s| s.as_str()).collect();
    assert_eq!(got, vec!["lene1", "lene2", "lene3", "lene4", "lene5", "lene6"]);
}
