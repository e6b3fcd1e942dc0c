use c1::manifest::DepEntry;
use c1::manifest::DepProblem;
use c1::manifest::DepSource;
use c1::manifest::DependencySpec;
use c1::sync::clone_args;
use c1::sync::plan_sync;
use c1::sync::sync_report;
use c1::sync::target_dir;
use c1::sync::CollabResult;
use c1::sync::Outcome;
use c1::sync::SyncReport;
use c1::sync::SyncStep;

fn s(x: &str) -> Vec<char> {
    x.chars().collect()
}

fn text(v: &Vec<char>) -> String {
    v.iter().collect()
}

fn args_text(args: &Vec<Vec<char>>) -> Vec<String> {
    args.iter().map(|a| a.iter().collect()).collect()
}

fn git_entry(name: &str, url: &str, branch: Option<&str>, tag: Option<&str>) -> DepEntry {
    DepEntry {
        name: s(name),
        source: DepSource::Git(DependencySpec {
            git: s(url),
            branch: branch.map(|b| b.chars().collect()),
            tag: tag.map(|t| t.chars().collect()),
        }),
    }
}

fn ok_result() -> Option<CollabResult> {
    Some(CollabResult { success: true, diagnostic: Vec::new() })
}

#[test]
fn target_dir_joins_root_and_name() {
    assert_eq!(text(&target_dir(&s("external"), &s("arc"))), "external/arc");
}

#[test]
fn clone_args_without_ref() {
    let d = DependencySpec { git: s("u1"), branch: None, tag: None };
    let a = clone_args(&d, &s("external/a"));
    assert_eq!(args_text(&a), vec!["clone", "u1", "external/a"]);
}

#[test]
fn clone_args_with_tag() {
    let d = DependencySpec { git: s("u2"), branch: None, tag: Some(s("v1")) };
    let a = clone_args(&d, &s("external/b"));
    assert_eq!(
        args_text(&a),
        vec!["clone", "u2", "external/b", "--branch", "v1", "--single-branch"]
    );
}

#[test]
fn clone_args_branch_takes_precedence() {
    let d = DependencySpec { git: s("u"), branch: Some(s("dev")), tag: Some(s("v1")) };
    let a = clone_args(&d, &s("external/c"));
    assert_eq!(
        args_text(&a),
        vec!["clone", "u", "external/c", "--branch", "dev", "--single-branch"]
    );
}

#[test]
fn sync_two_entries_both_cloned() {
    let deps = vec![
        git_entry("a", "u1", None, None),
        git_entry("b", "u2", None, Some("v1")),
    ];
    let plan = plan_sync(&deps, &s("external"));
    assert_eq!(plan.len(), 2);
    match &plan[0] {
        SyncStep::Clone(c) => {
            assert_eq!(text(&c.target_dir), "external/a");
            assert_eq!(args_text(&c.args), vec!["clone", "u1", "external/a"]);
        },
        SyncStep::Skip(_) => panic!("entry a should be cloned"),
    }
    match &plan[1] {
        SyncStep::Clone(c) => {
            assert_eq!(text(&c.target_dir), "external/b");
            assert_eq!(
                args_text(&c.args),
                vec!["clone", "u2", "external/b", "--branch", "v1", "--single-branch"]
            );
        },
        SyncStep::Skip(_) => panic!("entry b should be cloned"),
    }
    let report = sync_report(&deps, &vec![ok_result(), ok_result()]);
    match report {
        SyncReport::Outcomes(os) => {
            assert_eq!(os.len(), 2);
            assert_eq!(text(&os[0].name), "a");
            assert!(matches!(os[0].outcome, Outcome::Cloned));
            assert_eq!(text(&os[1].name), "b");
            assert!(matches!(os[1].outcome, Outcome::Cloned));
        },
        SyncReport::NothingToSync => panic!("two entries to sync"),
    }
}

#[test]
fn sync_twice_yields_same_report() {
    let deps = vec![git_entry("a", "u1", None, None), git_entry("b", "u2", None, Some("v1"))];
    let first = sync_report(&deps, &vec![ok_result(), ok_result()]);
    let second = sync_report(&deps, &vec![ok_result(), ok_result()]);
    match (first, second) {
        (SyncReport::Outcomes(a), SyncReport::Outcomes(b)) => {
            assert_eq!(a.len(), b.len());
            for (x, y) in a.iter().zip(b.iter()) {
                assert_eq!(text(&x.name), text(&y.name));
                assert!(matches!(x.outcome, Outcome::Cloned));
                assert!(matches!(y.outcome, Outcome::Cloned));
            }
        },
        _ => panic!("both runs report outcomes"),
    }
}

#[test]
fn one_failure_does_not_stop_the_batch() {
    let deps = vec![git_entry("a", "u1", None, None), git_entry("b", "u2", None, None)];
    let results = vec![
        Some(CollabResult { success: false, diagnostic: s("fatal: not found") }),
        ok_result(),
    ];
    match sync_report(&deps, &results) {
        SyncReport::Outcomes(os) => {
            assert_eq!(os.len(), 2);
            match &os[0].outcome {
                Outcome::Failed(msg) => assert_eq!(text(msg), "fatal: not found"),
                _ => panic!("first entry failed"),
            }
            assert!(matches!(os[1].outcome, Outcome::Cloned));
        },
        SyncReport::NothingToSync => panic!("two entries to sync"),
    }
}

#[test]
fn empty_table_short_circuits() {
    let report = sync_report(&Vec::new(), &Vec::new());
    assert!(matches!(report, SyncReport::NothingToSync));
}

#[test]
fn invalid_entry_is_skipped_with_reason() {
    let deps = vec![DepEntry {
        name: s("bad"),
        source: DepSource::Invalid(DepProblem::MissingGit),
    }];
    let plan = plan_sync(&deps, &s("external"));
    match &plan[0] {
        SyncStep::Skip(reason) => assert_eq!(text(reason), "no git URL specified"),
        SyncStep::Clone(_) => panic!("invalid entry must be skipped"),
    }
    match sync_report(&deps, &vec![None]) {
        SyncReport::Outcomes(os) => match &os[0].outcome {
            Outcome::Skipped(msg) => assert_eq!(text(msg), "no git URL specified"),
            _ => panic!("invalid entry is skipped"),
        },
        SyncReport::NothingToSync => panic!("one entry to report"),
    }
}
