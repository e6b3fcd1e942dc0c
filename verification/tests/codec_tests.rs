use c1::codec::save;
use c1::codec::upsert_dependency;
use c1::loader::load;
use c1::manifest::DepSource;
use c1::manifest::DependencySpec;
use c1::scaffold::initial_manifest;
use c1::scaffold::initial_manifest_text;

fn s(x: &str) -> Vec<char> {
    x.chars().collect()
}

fn text(v: &Vec<char>) -> String {
    v.iter().collect()
}

fn dep(git: &str, branch: Option<&str>, tag: Option<&str>) -> DependencySpec {
    DependencySpec {
        git: s(git),
        branch: branch.map(s),
        tag: tag.map(|x| s(x)),
    }
}

const SMALL: &str = "[project]\nname = \"demo\"\n\n[dependencies]\na = { git = \"u1\" }\n\n[build]\ncompiler = \"gcc\"\n";

#[test]
fn upsert_new_appends_at_section_end() {
    let r = upsert_dependency(&s(SMALL), &s("b"), &dep("u2", None, None));
    let expected = "[project]\nname = \"demo\"\n\n[dependencies]\na = { git = \"u1\" }\n\nb = { git = \"u2\" }\n[build]\ncompiler = \"gcc\"\n";
    assert_eq!(text(&r), expected);
}

#[test]
fn upsert_new_grows_count_by_one() {
    let before = s(SMALL);
    let after = upsert_dependency(&before, &s("b"), &dep("u2", None, None));
    let count = |t: &str| t.lines().filter(|l| l.contains('=') && !l.trim().starts_with('[')).count();
    // one more entry line, nothing else reformatted
    assert_eq!(count(&text(&after)), count(SMALL) + 1);
}

#[test]
fn upsert_existing_replaces_in_place() {
    let r = upsert_dependency(&s(SMALL), &s("a"), &dep("u9", None, Some("v2")));
    let expected = "[project]\nname = \"demo\"\n\n[dependencies]\na = { git = \"u9\", tag = \"v2\" }\n\n[build]\ncompiler = \"gcc\"\n";
    assert_eq!(text(&r), expected);
}

#[test]
fn upsert_existing_is_idempotent_in_position_and_effect() {
    let once = upsert_dependency(&s(SMALL), &s("a"), &dep("u9", None, None));
    let twice = upsert_dependency(&once, &s("a"), &dep("u9", None, None));
    assert_eq!(text(&once), text(&twice));
}

#[test]
fn upsert_without_section_appends_one() {
    let t = "[project]\nname = \"demo\"";
    let r = upsert_dependency(&s(t), &s("a"), &dep("u1", None, None));
    let expected = "[project]\nname = \"demo\"\n\n[dependencies]\na = { git = \"u1\" }";
    assert_eq!(text(&r), expected);
}

#[test]
fn upsert_preserves_comments_verbatim() {
    let t = initial_manifest_text(&s("demo"));
    let r = upsert_dependency(&t, &s("arc"), &dep("https://example.com/arc.git", None, None));
    let out = text(&r);
    assert!(out.contains("# Add your dependencies here"));
    assert!(out.contains("# Example:"));
    // inserted after the comments, directly before the [build] section
    assert!(out.contains("\narc = { git = \"https://example.com/arc.git\" }\n[build]"));
}

#[test]
fn upsert_writes_branch_when_no_tag() {
    let r = upsert_dependency(&s(SMALL), &s("b"), &dep("u2", Some("dev"), None));
    assert!(text(&r).contains("b = { git = \"u2\", branch = \"dev\" }"));
}

#[test]
fn upsert_writes_tag_over_branch() {
    let r = upsert_dependency(&s(SMALL), &s("b"), &dep("u2", Some("dev"), Some("v1")));
    assert!(text(&r).contains("b = { git = \"u2\", tag = \"v1\" }"));
}

#[test]
fn upsert_keeps_crlf_line_endings_elsewhere() {
    let t = "[project]\r\nname = \"demo\"\r\n\r\n[dependencies]\r\na = { git = \"u1\" }\r\n\r\n[build]\r\n";
    let r = upsert_dependency(&s(t), &s("a"), &dep("u2", None, None));
    // the replaced entry line is rewritten without a carriage return; every
    // byte outside that line stays
    let expected = "[project]\r\nname = \"demo\"\r\n\r\n[dependencies]\r\na = { git = \"u2\" }\n\r\n[build]\r\n";
    assert_eq!(text(&r), expected);
}

#[test]
fn save_then_load_round_trips() {
    let mut m = initial_manifest(&s("demo"));
    m.dependencies.push(c1::manifest::DepEntry {
        name: s("arc"),
        source: DepSource::Git(dep("https://example.com/arc.git", None, Some("v1"))),
    });
    let out = text(&save(&m));
    let back = load(&out).expect("saved manifest loads");
    assert_eq!(text(&back.project.name), "demo");
    assert_eq!(text(&back.project.version), "0.1.0");
    assert_eq!(text(&back.project.edition), "c99");
    assert_eq!(back.dependencies.len(), 1);
    assert_eq!(text(&back.dependencies[0].name), "arc");
    match &back.dependencies[0].source {
        DepSource::Git(d) => {
            assert_eq!(text(&d.git), "https://example.com/arc.git");
            assert!(d.branch.is_none());
            assert_eq!(text(d.tag.as_ref().unwrap()), "v1");
        },
        DepSource::Invalid(_) => panic!("entry should be clonable"),
    }
    assert_eq!(text(&back.build.compiler), "gcc");
    assert_eq!(back.build.flags.len(), 2);
    assert_eq!(text(&back.build.flags[0]), "-O3");
    assert_eq!(text(&back.build.flags[1]), "-Wall");
}

#[test]
fn initial_manifest_text_loads_with_defaults() {
    let t = text(&initial_manifest_text(&s("demo")));
    let m = load(&t).expect("template loads");
    assert_eq!(text(&m.project.name), "demo");
    assert_eq!(m.dependencies.len(), 0);
    assert_eq!(text(&m.build.compiler), "gcc");
}
