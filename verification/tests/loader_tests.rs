use c1::loader::load;
use c1::manifest::DepProblem;
use c1::manifest::DepSource;
use c1::manifest::ParseError;

fn text(v: &Vec<char>) -> String {
    v.iter().collect()
}

#[test]
fn load_reads_all_sections() {
    let m = load(
        "[project]\nname = \"app\"\nversion = \"2.0\"\nedition = \"c11\"\ndescription = \"d\"\n\n[dependencies]\na = { git = \"u1\" }\nb = { git = \"u2\", tag = \"v1\" }\n\n[build]\ncompiler = \"clang\"\nflags = [\"-O2\"]\n",
    )
    .expect("well-formed manifest");
    assert_eq!(text(&m.project.name), "app");
    assert_eq!(text(&m.project.version), "2.0");
    assert_eq!(text(&m.project.edition), "c11");
    assert_eq!(text(&m.project.description), "d");
    assert_eq!(m.dependencies.len(), 2);
    assert_eq!(text(&m.dependencies[0].name), "a");
    assert_eq!(text(&m.dependencies[1].name), "b");
    match &m.dependencies[1].source {
        DepSource::Git(d) => {
            assert_eq!(text(&d.git), "u2");
            assert_eq!(text(d.tag.as_ref().unwrap()), "v1");
            assert!(d.branch.is_none());
        },
        DepSource::Invalid(_) => panic!("entry should be clonable"),
    }
    assert_eq!(text(&m.build.compiler), "clang");
    assert_eq!(m.build.flags.len(), 1);
    assert_eq!(text(&m.build.flags[0]), "-O2");
}

#[test]
fn load_applies_documented_defaults() {
    let m = load("[project]\nname = \"app\"\n").expect("minimal manifest");
    assert_eq!(text(&m.project.version), "0.1.0");
    assert_eq!(text(&m.project.edition), "99");
    assert_eq!(text(&m.project.description), "");
    assert_eq!(m.dependencies.len(), 0);
    assert_eq!(text(&m.build.compiler), "gcc");
    assert_eq!(m.build.flags.len(), 0);
}

#[test]
fn load_rejects_ill_formed_text() {
    assert!(matches!(load("not [ toml =\n=="), Err(ParseError::Malformed)));
}

#[test]
fn load_handles_non_table_document() {
    // the toml crate parses a document whose first key is its internal
    // datetime marker into a plain datetime value, not a table; such a
    // document has no project section
    let r = load("\"$__toml_private_datetime\" = \"1979-05-27T07:32:00Z\"");
    assert!(matches!(r, Err(ParseError::MissingName)));
}

#[test]
fn load_rejects_missing_name() {
    assert!(matches!(load("[project]\nversion = \"1\"\n"), Err(ParseError::MissingName)));
}

#[test]
fn load_rejects_missing_project_section() {
    assert!(matches!(load("[build]\ncompiler = \"gcc\"\n"), Err(ParseError::MissingName)));
}

#[test]
fn load_rejects_non_string_name() {
    assert!(matches!(load("[project]\nname = 3\n"), Err(ParseError::Malformed)));
}

#[test]
fn load_rejects_non_string_version() {
    assert!(matches!(load("[project]\nname = \"a\"\nversion = 3\n"), Err(ParseError::Malformed)));
}

#[test]
fn load_rejects_non_string_flag() {
    assert!(matches!(
        load("[project]\nname = \"a\"\n\n[build]\nflags = [1, 2]\n"),
        Err(ParseError::Malformed)
    ));
}

#[test]
fn load_marks_non_table_dependency_entry() {
    let m = load("[project]\nname = \"a\"\n\n[dependencies]\nbad = 5\n").expect("loads");
    assert_eq!(m.dependencies.len(), 1);
    assert!(matches!(m.dependencies[0].source, DepSource::Invalid(DepProblem::NotATable)));
}

#[test]
fn load_marks_entry_without_git_url() {
    let m = load("[project]\nname = \"a\"\n\n[dependencies]\nbad = { tag = \"v1\" }\n")
        .expect("loads");
    assert_eq!(m.dependencies.len(), 1);
    assert!(matches!(m.dependencies[0].source, DepSource::Invalid(DepProblem::MissingGit)));
}

#[test]
fn load_treats_non_string_ref_as_absent() {
    let m = load("[project]\nname = \"a\"\n\n[dependencies]\nd = { git = \"u\", branch = 7 }\n")
        .expect("loads");
    match &m.dependencies[0].source {
        DepSource::Git(d) => {
            assert!(d.branch.is_none());
            assert!(d.tag.is_none());
        },
        DepSource::Invalid(_) => panic!("entry should be clonable"),
    }
}

#[test]
fn load_keeps_dependency_table_order() {
    let m = load(
        "[project]\nname = \"a\"\n\n[dependencies]\nzeta = { git = \"u1\" }\nalpha = { git = \"u2\" }\n",
    )
    .expect("loads");
    assert_eq!(text(&m.dependencies[0].name), "zeta");
    assert_eq!(text(&m.dependencies[1].name), "alpha");
}
