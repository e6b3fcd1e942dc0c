use c1::injector::append_header;
use c1::injector::append_source;
use c1::injector::register_module;
use c1::scaffold::initial_descriptor;

fn s(x: &str) -> Vec<char> {
    x.chars().collect()
}

fn text(v: &Vec<char>) -> String {
    v.iter().collect()
}

const DESC: &str = "set(SOURCES\n    main.c\n    # @c1_sources\n)\nset(HEADERS\n    # @c1_headers\n)\n";

#[test]
fn append_source_inserts_above_marker() {
    let (r, found) = append_source(&s(DESC), &s("src/a.c"));
    assert!(found);
    let expected = "set(SOURCES\n    main.c\n    src/a.c\n    # @c1_sources\n)\nset(HEADERS\n    # @c1_headers\n)\n";
    assert_eq!(text(&r), expected);
}

#[test]
fn append_source_twice_grows_in_call_order() {
    let (once, f1) = append_source(&s(DESC), &s("src/a.c"));
    let (twice, f2) = append_source(&once, &s("src/a.c"));
    assert!(f1 && f2);
    let expected = "set(SOURCES\n    main.c\n    src/a.c\n    src/a.c\n    # @c1_sources\n)\nset(HEADERS\n    # @c1_headers\n)\n";
    assert_eq!(text(&twice), expected);
    // the marker survives both calls, so a third append still works
    let (_, f3) = append_source(&twice, &s("src/b.c"));
    assert!(f3);
}

#[test]
fn append_two_distinct_entries_most_recent_last() {
    let (once, _) = append_source(&s(DESC), &s("src/a.c"));
    let (twice, _) = append_source(&once, &s("src/b.c"));
    let out = text(&twice);
    assert!(out.contains("    src/a.c\n    src/b.c\n    # @c1_sources"));
}

#[test]
fn append_header_uses_headers_marker() {
    let (r, found) = append_header(&s(DESC), &s("include/a.h"));
    assert!(found);
    assert!(text(&r).contains("set(HEADERS\n    include/a.h\n    # @c1_headers"));
}

#[test]
fn append_without_marker_reports_and_keeps_text() {
    let plain = "set(SOURCES\n    main.c\n)\n";
    let (r, found) = append_source(&s(plain), &s("src/a.c"));
    assert!(!found);
    assert_eq!(text(&r), plain);
}

#[test]
fn register_module_updates_both_lists() {
    let (r, src_found, hdr_found) = register_module(&s(DESC), &s("net"));
    assert!(src_found && hdr_found);
    let out = text(&r);
    assert!(out.contains("    src/net.c\n    # @c1_sources"));
    assert!(out.contains("    include/net.h\n    # @c1_headers"));
}

#[test]
fn register_module_twice_grows_both_lists() {
    let (once, _, _) = register_module(&s(DESC), &s("net"));
    let (twice, src_found, hdr_found) = register_module(&once, &s("net"));
    assert!(src_found && hdr_found);
    let out = text(&twice);
    // both entries, in call order, directly above the still-present markers
    assert!(out.contains("    src/net.c\n    src/net.c\n    # @c1_sources"));
    assert!(out.contains("    include/net.h\n    include/net.h\n    # @c1_headers"));
    // registration never consumes a marker
    assert_eq!(out.matches("# @c1_sources").count(), DESC.matches("# @c1_sources").count());
    assert_eq!(out.matches("# @c1_headers").count(), DESC.matches("# @c1_headers").count());
    let (_, f3, f4) = register_module(&twice, &s("more"));
    assert!(f3 && f4);
}

#[test]
fn register_module_works_on_fresh_descriptor() {
    let d = initial_descriptor(&s("demo"));
    let (r, src_found, hdr_found) = register_module(&d, &s("net"));
    assert!(src_found && hdr_found);
    let out = text(&r);
    assert!(out.contains("project(demo C)"));
    assert!(out.contains("    src/net.c\n    # @c1_sources"));
    assert!(out.contains("    include/net.h\n    # @c1_headers"));
}
