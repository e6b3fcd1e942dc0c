use c1::buildtool::compile_args;
use c1::buildtool::configure_args;
use c1::buildtool::executable_path;
use c1::manifest::default_compiler;
use c1::manifest::default_edition;
use c1::manifest::default_version;
use c1::scaffold::initial_descriptor;
use c1::scaffold::initial_manifest;
use c1::scaffold::listing_is_empty;
use c1::scaffold::plan_module;
use c1::scaffold::ModuleError;

fn s(x: &str) -> Vec<char> {
    x.chars().collect()
}

fn text(v: &Vec<char>) -> String {
    v.iter().collect()
}

#[test]
fn defaults_match_documentation() {
    assert_eq!(text(&default_version()), "0.1.0");
    assert_eq!(text(&default_edition()), "99");
    assert_eq!(text(&default_compiler()), "gcc");
}

#[test]
fn plan_module_builds_paths_and_guard() {
    let p = plan_module(&s("net_utils"), false, false).expect("valid module");
    assert_eq!(text(&p.source_path), "src/net_utils.c");
    assert_eq!(text(&p.header_path), "include/net_utils.h");
    assert_eq!(text(&p.guard), "_NET_UTILS_H");
}

#[test]
fn plan_module_rejects_bad_name_first() {
    // validation comes before the existence check
    assert!(matches!(plan_module(&s("net-utils"), true, true), Err(ModuleError::InvalidName)));
}

#[test]
fn plan_module_rejects_existing_targets() {
    assert!(matches!(plan_module(&s("net"), true, false), Err(ModuleError::AlreadyExists)));
    assert!(matches!(plan_module(&s("net"), false, true), Err(ModuleError::AlreadyExists)));
}

#[test]
fn listing_with_only_hidden_names_is_empty() {
    assert!(listing_is_empty(&vec![s(".git"), s(".vscode")]));
    assert!(listing_is_empty(&Vec::new()));
    assert!(!listing_is_empty(&vec![s(".git"), s("main.c")]));
}

#[test]
fn initial_descriptor_holds_both_markers() {
    let d = text(&initial_descriptor(&s("demo")));
    assert!(d.contains("project(demo C)"));
    assert!(d.contains("    # @c1_sources\n"));
    assert!(d.contains("    # @c1_headers\n"));
}

#[test]
fn initial_manifest_carries_template_defaults() {
    let m = initial_manifest(&s("demo"));
    assert_eq!(text(&m.project.name), "demo");
    assert_eq!(text(&m.project.version), "0.1.0");
    assert_eq!(text(&m.project.edition), "c99");
    assert_eq!(m.dependencies.len(), 0);
    assert_eq!(text(&m.build.compiler), "gcc");
    assert_eq!(m.build.flags.len(), 2);
}

#[test]
fn configure_args_select_profile() {
    let debug: Vec<String> = configure_args(false).iter().map(|a| a.iter().collect()).collect();
    assert_eq!(debug, vec!["-B", "build", "-DCMAKE_BUILD_TYPE=Debug"]);
    let release: Vec<String> = configure_args(true).iter().map(|a| a.iter().collect()).collect();
    assert_eq!(release, vec!["-B", "build", "-DCMAKE_BUILD_TYPE=Release"]);
}

#[test]
fn compile_args_build_the_build_dir() {
    let a: Vec<String> = compile_args().iter().map(|x| x.iter().collect()).collect();
    assert_eq!(a, vec!["--build", "build"]);
}

#[test]
fn executable_path_joins_build_dir() {
    assert_eq!(text(&executable_path(&s("demo"))), "build/demo");
}
