//! Dependency synchronizer: plans one clone per manifest entry and folds
//! the collaborator results into a per-entry report. A failing entry never
//! stops the batch: each outcome depends only on that entry and its own
//! collaborator result.

use vstd::prelude::*;
use crate::manifest::DepEntry;
use crate::manifest::DepSource;
use crate::manifest::DepProblem;
use crate::manifest::DependencySpec;
use crate::text::chars_of;
use crate::text::copy_range;
use crate::text::push_all;
use crate::text::line_views;

verus! {

/// What one sync step asks of the VCS collaborator: the full argument list
/// of the clone invocation, and the checkout directory to clear first.
pub struct CloneRequest {
    pub args: Vec<Vec<char>>,
    pub target_dir: Vec<char>,
}

/// One step of a sync plan: clone a valid entry, or skip an invalid one
/// with the reason.
pub enum SyncStep {
    Clone(CloneRequest),
    Skip(Vec<char>),
}

/// Result of one collaborator invocation: its exit status and captured
/// diagnostic output.
pub struct CollabResult {
    pub success: bool,
    pub diagnostic: Vec<char>,
}

/// One entry's outcome in a sync report.
pub enum Outcome {
    Cloned,
    Skipped(Vec<char>),
    Failed(Vec<char>),
}

/// One line of the sync report.
pub struct ReportEntry {
    pub name: Vec<char>,
    pub outcome: Outcome,
}

/// The sync report: an empty dependency table short-circuits and touches
/// nothing.
pub enum SyncReport {
    NothingToSync,
    Outcomes(Vec<ReportEntry>),
}

/// The local checkout directory of a dependency: `root/name`.
pub open spec fn spec_target_dir(root: Seq<char>, name: Seq<char>) -> Seq<char> {
    root + seq!['/'] + name
}

/// Build the checkout directory path of a dependency.
pub fn target_dir(root: &Vec<char>, name: &Vec<char>) -> (r: Vec<char>)
    ensures
        r@ == spec_target_dir(root@, name@),
{
    let mut r = copy_range(root, 0, root.len());
    r.push('/');
    push_all(&mut r, name);
    assert(r@ =~= spec_target_dir(root@, name@));
    r
}

/// The clone argument list: `clone <url> <target>`, then `--branch <v>
/// --single-branch` for the branch if one is set, else for the tag if one
/// is set, else nothing (the collaborator's default branch).
pub open spec fn spec_clone_args(d: DependencySpec, target: Seq<char>) -> Seq<Seq<char>> {
    let base = seq!["clone"@, d.git@, target];
    match d.branch {
        Some(b) => base + seq!["--branch"@, b@, "--single-branch"@],
        None => match d.tag {
            Some(tg) => base + seq!["--branch"@, tg@, "--single-branch"@],
            None => base,
        },
    }
}

/// Build the clone argument list for one dependency.
pub fn clone_args(d: &DependencySpec, target: &Vec<char>) -> (r: Vec<Vec<char>>)
    ensures
        line_views(r@) == spec_clone_args(*d, target@),
{
    let mut r: Vec<Vec<char>> = Vec::new();
    r.push(chars_of("clone"));
    let git = copy_range(&d.git, 0, d.git.len());
    assert(git@ =~= d.git@);
    r.push(git);
    let td = copy_range(target, 0, target.len());
    assert(td@ =~= target@);
    r.push(td);
    match &d.branch {
        Some(b) => {
            r.push(chars_of("--branch"));
            let v = copy_range(b, 0, b.len());
            assert(v@ =~= b@);
            r.push(v);
            r.push(chars_of("--single-branch"));
            assert(line_views(r@) =~= spec_clone_args(*d, target@));
        },
        None => {
            match &d.tag {
                Some(tg) => {
                    r.push(chars_of("--branch"));
                    let v = copy_range(tg, 0, tg.len());
                    assert(v@ =~= tg@);
                    r.push(v);
                    r.push(chars_of("--single-branch"));
                    assert(line_views(r@) =~= spec_clone_args(*d, target@));
                },
                None => {
                    assert(line_views(r@) =~= spec_clone_args(*d, target@));
                },
            }
        },
    }
    r
}

/// The reason an invalid manifest entry is skipped.
pub open spec fn spec_skip_reason(p: DepProblem) -> Seq<char> {
    match p {
        DepProblem::NotATable => "invalid dependency format"@,
        DepProblem::MissingGit => "no git URL specified"@,
    }
}

fn skip_reason(p: &DepProblem) -> (r: Vec<char>)
    ensures
        r@ == spec_skip_reason(*p),
{
    match p {
        DepProblem::NotATable => chars_of("invalid dependency format"),
        DepProblem::MissingGit => chars_of("no git URL specified"),
    }
}

/// Whether a plan step is the right one for a manifest entry.
pub open spec fn step_matches(s: SyncStep, e: DepEntry, root: Seq<char>) -> bool {
    match e.source {
        DepSource::Git(d) => s matches SyncStep::Clone(c) && c.target_dir@ == spec_target_dir(
            root,
            e.name@,
        ) && line_views(c.args@) == spec_clone_args(d, spec_target_dir(root, e.name@)),
        DepSource::Invalid(p) => s matches SyncStep::Skip(reason) && reason@ == spec_skip_reason(
            p,
        ),
    }
}

/// Plan the sync of a dependency table: one step per entry, in table order.
/// Valid entries get a clone request whose checkout directory is
/// `root/name`; invalid entries are marked to be skipped.
pub fn plan_sync(deps: &Vec<DepEntry>, root: &Vec<char>) -> (r: Vec<SyncStep>)
    ensures
        r@.len() == deps@.len(),
        forall|i: int| 0 <= i < deps@.len() ==> step_matches(#[trigger] r@[i], deps@[i], root@),
{
    let mut r: Vec<SyncStep> = Vec::new();
    let mut i: usize = 0;
    while i < deps.len()
        invariant
            i <= deps@.len(),
            r@.len() == i,
            forall|j: int| 0 <= j < i ==> step_matches(#[trigger] r@[j], deps@[j], root@),
        decreases deps@.len() - i,
    {
        match &deps[i].source {
            DepSource::Git(d) => {
                let td = target_dir(root, &deps[i].name);
                let args = clone_args(d, &td);
                r.push(SyncStep::Clone(CloneRequest { args, target_dir: td }));
            },
            DepSource::Invalid(p) => {
                r.push(SyncStep::Skip(skip_reason(p)));
            },
        }
        i += 1;
    }
    r
}

/// Whether `o` is the right outcome for entry `e` given that entry's own
/// collaborator result: a skipped invalid entry, a clone on success, or a
/// failure carrying the collaborator's diagnostic.
pub open spec fn outcome_matches(o: Outcome, e: DepEntry, res: Option<CollabResult>) -> bool {
    match e.source {
        DepSource::Git(_) => match res {
            Some(cr) => if cr.success {
                o is Cloned
            } else {
                o matches Outcome::Failed(msg) && msg@ == cr.diagnostic@
            },
            None => false,
        },
        DepSource::Invalid(p) => o matches Outcome::Skipped(msg) && msg@ == spec_skip_reason(p),
    }
}

/// Fold the collaborator results into the sync report. The report carries
/// one outcome per entry, in table order; a failed collaborator call marks
/// only its own entry `Failed` and the remaining entries are still
/// reported, and an empty table yields `NothingToSync`.
pub fn sync_report(deps: &Vec<DepEntry>, results: &Vec<Option<CollabResult>>) -> (r: SyncReport)
    requires
        results@.len() == deps@.len(),
        forall|i: int|
            0 <= i < deps@.len() ==> ((#[trigger] deps@[i].source) is Git <==> results@[i]
                is Some),
    ensures
        (deps@.len() == 0) <==> (r is NothingToSync),
        r matches SyncReport::Outcomes(os) ==> os@.len() == deps@.len() && forall|i: int|
            0 <= i < os@.len() ==> (#[trigger] os@[i]).name@ == deps@[i].name@ && outcome_matches(
                os@[i].outcome,
                deps@[i],
                results@[i],
            ),
{
    if deps.len() == 0 {
        return SyncReport::NothingToSync;
    }
    let mut os: Vec<ReportEntry> = Vec::new();
    let mut i: usize = 0;
    while i < deps.len()
        invariant
            i <= deps@.len(),
            results@.len() == deps@.len(),
            os@.len() == i,
            forall|k: int|
                0 <= k < deps@.len() ==> ((#[trigger] deps@[k].source) is Git <==> results@[k]
                    is Some),
            forall|j: int|
                0 <= j < i ==> (#[trigger] os@[j]).name@ == deps@[j].name@ && outcome_matches(
                    os@[j].outcome,
                    deps@[j],
                    results@[j],
                ),
        decreases deps@.len() - i,
    {
        let name = copy_range(&deps[i].name, 0, deps[i].name.len());
        assert(name@ =~= deps@[i as int].name@);
        let outcome: Outcome = match &deps[i].source {
            DepSource::Git(_) => {
                match &results[i] {
                    Some(cr) => {
                        if cr.success {
                            Outcome::Cloned
                        } else {
                            let ds = copy_range(&cr.diagnostic, 0, cr.diagnostic.len());
                            assert(ds@ =~= cr.diagnostic@);
                            Outcome::Failed(ds)
                        }
                    },
                    None => {
                        assert(false);
                        Outcome::Cloned
                    },
                }
            },
            DepSource::Invalid(p) => Outcome::Skipped(skip_reason(p)),
        };
        assert(outcome_matches(outcome, deps@[i as int], results@[i as int]));
        os.push(ReportEntry { name, outcome });
        assert(os@[i as int].name@ == deps@[i as int].name@);
        assert(outcome_matches(os@[i as int].outcome, deps@[i as int], results@[i as int]));
        i += 1;
    }
    SyncReport::Outcomes(os)
}

} // verus!
