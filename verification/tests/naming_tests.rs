use c1::naming::extract_package_name;
use c1::naming::header_guard;
use c1::naming::module_header_path;
use c1::naming::module_source_path;
use c1::naming::validate_module_name;

fn s(x: &str) -> Vec<char> {
    x.chars().collect()
}

fn text(v: &Vec<char>) -> String {
    v.iter().collect()
}

#[test]
fn package_name_from_https_url() {
    let r = extract_package_name(&s("https://example.com/org/repo.git"));
    assert_eq!(text(&r), "repo");
}

#[test]
fn package_name_from_scp_url() {
    let r = extract_package_name(&s("git@example.com:org/repo.git"));
    assert_eq!(text(&r), "repo");
}

#[test]
fn package_name_from_bare_name() {
    let r = extract_package_name(&s("repo"));
    assert_eq!(text(&r), "repo");
}

#[test]
fn package_name_without_git_suffix() {
    let r = extract_package_name(&s("https://example.com/org/repo"));
    assert_eq!(text(&r), "repo");
}

#[test]
fn package_name_scp_without_slash() {
    let r = extract_package_name(&s("git@example.com:repo.git"));
    assert_eq!(text(&r), "repo");
}

#[test]
fn package_name_strips_one_suffix_only() {
    let r = extract_package_name(&s("repo.git.git"));
    assert_eq!(text(&r), "repo.git");
}

#[test]
fn module_name_with_underscore_is_valid() {
    assert!(validate_module_name(&s("net_utils")));
}

#[test]
fn module_name_with_hyphen_is_invalid() {
    assert!(!validate_module_name(&s("net-utils")));
}

#[test]
fn module_name_empty_is_invalid() {
    assert!(!validate_module_name(&s("")));
}

#[test]
fn module_name_alphanumeric_is_valid() {
    assert!(validate_module_name(&s("mod42")));
}

#[test]
fn header_guard_uppercases_and_wraps() {
    let r = header_guard(&s("net_utils"));
    assert_eq!(text(&r), "_NET_UTILS_H");
}

#[test]
fn header_guard_keeps_digits() {
    let r = header_guard(&s("mod42"));
    assert_eq!(text(&r), "_MOD42_H");
}

#[test]
fn module_paths_follow_layout() {
    assert_eq!(text(&module_source_path(&s("net"))), "src/net.c");
    assert_eq!(text(&module_header_path(&s("net"))), "include/net.h");
}
