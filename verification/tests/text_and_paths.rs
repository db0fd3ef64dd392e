use artifact_catalog::paths::file_base_name;
use artifact_catalog::text::{filename_is_safe, str_has_suffix, str_lex_leq};

#[test]
fn suffix_match_is_exact() {
    assert!(str_has_suffix("x.cpp", ".cpp"));
    assert!(!str_has_suffix("notcpp.txt.cpp.bak", ".cpp"));
    assert!(!str_has_suffix("x.CPP", ".cpp"));
    assert!(!str_has_suffix("cpp", ".cpp"));
    assert!(str_has_suffix(".cpp", ".cpp"));
    assert!(str_has_suffix("core.wasm", ".wasm"));
    assert!(!str_has_suffix("core.wasm", ".js"));
    assert!(str_has_suffix("anything", ""));
}

#[test]
fn lex_order_is_codepoint_wise() {
    assert!(str_lex_leq("C.cpp", "a.cpp"));
    assert!(!str_lex_leq("a.cpp", "C.cpp"));
    assert!(str_lex_leq("a.cpp", "b.cpp"));
    assert!(str_lex_leq("a", "a.cpp"));
    assert!(!str_lex_leq("a.cpp", "a"));
    assert!(str_lex_leq("same", "same"));
    assert!(str_lex_leq("", "x"));
}

#[test]
fn safe_names_are_bare_file_names() {
    assert!(filename_is_safe("main.cpp"));
    assert!(filename_is_safe("..hidden.cpp"));
    assert!(!filename_is_safe(""));
    assert!(!filename_is_safe("."));
    assert!(!filename_is_safe(".."));
    assert!(!filename_is_safe("../main.cpp"));
    assert!(!filename_is_safe("sub/main.cpp"));
    assert!(!filename_is_safe("sub\\main.cpp"));
}

#[test]
fn base_name_of_plain_paths() {
    assert_eq!(file_base_name("gen/x.cpp").as_deref(), Some("x.cpp"));
    assert_eq!(file_base_name("x.cpp").as_deref(), Some("x.cpp"));
    assert_eq!(file_base_name("/home/user/a.txt").as_deref(), Some("a.txt"));
    assert_eq!(file_base_name("dir/sub/").as_deref(), Some("sub"));
}

#[test]
fn base_name_skips_trailing_dot_segments() {
    assert_eq!(file_base_name("a/.").as_deref(), Some("a"));
    assert_eq!(file_base_name("foo.txt/.//").as_deref(), Some("foo.txt"));
    assert_eq!(file_base_name("a/./.").as_deref(), Some("a"));
    assert_eq!(file_base_name("a.").as_deref(), Some("a."));
    assert_eq!(file_base_name("...").as_deref(), Some("..."));
    assert_eq!(file_base_name("./"), None);
    assert_eq!(file_base_name("./."), None);
    assert_eq!(file_base_name("a/../."), None);
}

#[test]
fn base_name_of_degenerate_paths() {
    assert_eq!(file_base_name(""), None);
    assert_eq!(file_base_name("/"), None);
    assert_eq!(file_base_name("///"), None);
    assert_eq!(file_base_name("."), None);
    assert_eq!(file_base_name(".."), None);
    assert_eq!(file_base_name("a/.."), None);
}
