use numbat_session::catalog::sorted_constants;
use numbat_session::order::{str_eq, str_lt};

#[test]
fn lexicographic_comparison_by_code_point() {
    assert!(str_lt("abc", "abd"));
    assert!(str_lt("ab", "abc"));
    assert!(!str_lt("abc", "abc"));
    assert!(!str_lt("b", "abc"));
    assert!(str_lt("Z", "a"));
    assert!(str_lt("", "a"));
}

#[test]
fn string_equality_is_exact() {
    assert!(str_eq("metre", "metre"));
    assert!(!str_eq("metre", "meter"));
    assert!(!str_eq("metre", "metres"));
    assert!(str_eq("", ""));
}

#[test]
fn constants_come_out_sorted() {
    let names = vec![
        String::from("pi"),
        String::from("e"),
        String::from("zz"),
        String::from("avogadro"),
    ];
    let entries = sorted_constants(names);
    let got: Vec<&str> = entries.iter().map(|c| c.name.as_str()).collect();
    assert_eq!(got, vec!["avogadro", "e", "pi", "zz"]);
}

#[test]
fn constants_list_each_name_once() {
    let names = vec![String::from("b"), String::from("a"), String::from("b")];
    let entries = sorted_constants(names);
    let got: Vec<&str> = entries.iter().map(|c| c.name.as_str()).collect();
    assert_eq!(got, vec!["a", "b"]);
}
