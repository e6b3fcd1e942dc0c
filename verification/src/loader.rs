//! Loading the manifest from its text: the text is parsed by the `toml`
//! crate behind the trusted interface, and everything the manifest model
//! takes from the parsed document — mandatory name, defaulted fields, the
//! dependency table, build settings — is decided here and verified against
//! the document model.

use vstd::prelude::*;
use crate::manifest::Manifest;
use crate::manifest::Project;
use crate::manifest::BuildConfig;
use crate::manifest::DependencySpec;
use crate::manifest::DepEntry;
use crate::manifest::DepSource;
use crate::manifest::DepProblem;
use crate::manifest::ParseError;
use crate::manifest::default_version;
use crate::manifest::default_edition;
use crate::manifest::default_compiler;
use crate::text::chars_of;
use crate::text::line_views;
use crate::toml_api::toml_src_wf;
use crate::toml_api::doc_of;
use crate::toml_api::value_keys;
use crate::toml_api::value_at;
use crate::toml_api::value_str;
use crate::toml_api::value_items;
use crate::toml_api::parse_toml;
use crate::toml_api::toml_get;
use crate::toml_api::toml_is_table;
use crate::toml_api::toml_str;
use crate::toml_api::toml_keys;
use crate::toml_api::toml_items;

verus! {

/// The entry of a table-shaped document value at `key`: `None` when the
/// value is not a table or lacks the key.
pub open spec fn doc_get(v: toml::Value, key: Seq<char>) -> Option<toml::Value> {
    match value_keys(v) {
        Some(ks) => if ks.contains(key) {
            Some(value_at(v, key))
        } else {
            None
        },
        None => None,
    }
}

/// The string at `key` of a table-shaped value: `None` when absent or not
/// a string.
pub open spec fn doc_str(v: toml::Value, key: Seq<char>) -> Option<Seq<char>> {
    match doc_get(v, key) {
        Some(w) => value_str(w),
        None => None,
    }
}

/// Whether the field at `key`, if present, is a string.
pub open spec fn field_str_ok(v: toml::Value, key: Seq<char>) -> bool {
    match doc_get(v, key) {
        Some(w) => value_str(w) is Some,
        None => true,
    }
}

/// The string at `key`, with `dflt` for an absent field.
pub open spec fn str_or(v: toml::Value, key: Seq<char>, dflt: Seq<char>) -> Seq<char> {
    match doc_str(v, key) {
        Some(s) => s,
        None => dflt,
    }
}

/// What one dependency entry of the document describes.
#[verifier::ext_equal]
pub ghost enum DepSourceModel {
    Git { git: Seq<char>, branch: Option<Seq<char>>, tag: Option<Seq<char>> },
    Invalid(DepProblem),
}

/// One dependency of the document, in table order.
#[verifier::ext_equal]
pub ghost struct DepModel {
    pub name: Seq<char>,
    pub source: DepSourceModel,
}

/// Everything the manifest takes from the document.
#[verifier::ext_equal]
pub ghost struct ManifestModel {
    pub name: Seq<char>,
    pub version: Seq<char>,
    pub edition: Seq<char>,
    pub description: Seq<char>,
    pub deps: Seq<DepModel>,
    pub compiler: Seq<char>,
    pub flags: Seq<Seq<char>>,
}

/// What the dependency entry at `k` of the dependency table describes: a
/// git source with optional branch and tag (a non-string ref selector
/// counts as absent), or why the entry cannot be cloned.
pub open spec fn dep_model_of(dv: toml::Value, k: Seq<char>) -> DepSourceModel {
    let w = value_at(dv, k);
    match value_keys(w) {
        None => DepSourceModel::Invalid(DepProblem::NotATable),
        Some(_) => match doc_str(w, "git"@) {
            None => DepSourceModel::Invalid(DepProblem::MissingGit),
            Some(g) => DepSourceModel::Git {
                git: g,
                branch: doc_str(w, "branch"@),
                tag: doc_str(w, "tag"@),
            },
        },
    }
}

/// The dependency table of the document: empty when absent, one model per
/// key when a table, `None` (malformed) otherwise.
pub open spec fn deps_model(doc: toml::Value) -> Option<Seq<DepModel>> {
    match doc_get(doc, "dependencies"@) {
        None => Some(Seq::empty()),
        Some(dv) => match value_keys(dv) {
            None => None,
            Some(ks) => Some(
                Seq::new(ks.len(), |i: int| DepModel { name: ks[i], source: dep_model_of(dv, ks[i]) }),
            ),
        },
    }
}

/// The flags list of the build section: empty when absent, the strings of
/// the array when every item is a string, `None` (malformed) otherwise.
pub open spec fn flags_model(bv: toml::Value) -> Option<Seq<Seq<char>>> {
    match doc_get(bv, "flags"@) {
        None => Some(Seq::empty()),
        Some(fv) => match value_items(fv) {
            None => None,
            Some(items) => if forall|i: int|
                0 <= i < items.len() ==> (#[trigger] value_str(items[i])) is Some {
                Some(Seq::new(items.len(), |i: int| value_str(items[i]).unwrap()))
            } else {
                None
            },
        },
    }
}

/// The build section of the document: defaults when absent, compiler and
/// flags when a table, `None` (malformed) otherwise.
pub open spec fn build_model(doc: toml::Value) -> Option<(Seq<char>, Seq<Seq<char>>)> {
    match doc_get(doc, "build"@) {
        None => Some(("gcc"@, Seq::empty())),
        Some(bv) => match value_keys(bv) {
            None => None,
            Some(_) => if !field_str_ok(bv, "compiler"@) {
                None
            } else {
                match flags_model(bv) {
                    None => None,
                    Some(fl) => Some((str_or(bv, "compiler"@, "gcc"@), fl)),
                }
            },
        },
    }
}

/// What loading the parsed document yields: the manifest model, or the
/// first error in document order — a missing project section or name field
/// is `MissingName`; a section or field of the wrong shape is `Malformed`.
pub open spec fn spec_load_doc(doc: toml::Value) -> Result<ManifestModel, ParseError> {
    match doc_get(doc, "project"@) {
        None => Err(ParseError::MissingName),
        Some(pv) => if value_keys(pv) is None {
            Err(ParseError::Malformed)
        } else {
            match doc_get(pv, "name"@) {
                None => Err(ParseError::MissingName),
                Some(nv) => match value_str(nv) {
                    None => Err(ParseError::Malformed),
                    Some(nm) => if !field_str_ok(pv, "version"@) || !field_str_ok(pv, "edition"@)
                        || !field_str_ok(pv, "description"@) {
                        Err(ParseError::Malformed)
                    } else {
                        match deps_model(doc) {
                            None => Err(ParseError::Malformed),
                            Some(ds) => match build_model(doc) {
                                None => Err(ParseError::Malformed),
                                Some(bm) => Ok(
                                    ManifestModel {
                                        name: nm,
                                        version: str_or(pv, "version"@, "0.1.0"@),
                                        edition: str_or(pv, "edition"@, "99"@),
                                        description: str_or(pv, "description"@, Seq::empty()),
                                        deps: ds,
                                        compiler: bm.0,
                                        flags: bm.1,
                                    },
                                ),
                            },
                        }
                    },
                },
            }
        },
    }
}

/// The model a manifest value carries.
pub open spec fn dep_source_model(s: DepSource) -> DepSourceModel {
    match s {
        DepSource::Git(d) => DepSourceModel::Git {
            git: d.git@,
            branch: match d.branch {
                Some(b) => Some(b@),
                None => None,
            },
            tag: match d.tag {
                Some(t) => Some(t@),
                None => None,
            },
        },
        DepSource::Invalid(p) => DepSourceModel::Invalid(p),
    }
}

/// The model a manifest value carries.
pub open spec fn manifest_model(m: Manifest) -> ManifestModel {
    ManifestModel {
        name: m.project.name@,
        version: m.project.version@,
        edition: m.project.edition@,
        description: m.project.description@,
        deps: Seq::new(
            m.dependencies@.len(),
            |i: int|
                DepModel {
                    name: m.dependencies@[i].name@,
                    source: dep_source_model(m.dependencies@[i].source),
                },
        ),
        compiler: m.build.compiler@,
        flags: line_views(m.build.flags@),
    }
}

/// The string field at `key`, defaulted when absent, rejected when not a
/// string.
fn field_str(v: &toml::Value, key: &str, dflt: Vec<char>) -> (r: Result<Vec<char>, ParseError>)
    ensures
        match r {
            Ok(s) => field_str_ok(*v, key@) && s@ == str_or(*v, key@, dflt@),
            Err(e) => !field_str_ok(*v, key@) && e == ParseError::Malformed,
        },
{
    match toml_get(v, key) {
        Some(w) => match toml_str(w) {
            Some(s) => Ok(chars_of(s)),
            None => Err(ParseError::Malformed),
        },
        None => Ok(dflt),
    }
}

/// The optional string field at `key`; a missing key or a non-string value
/// counts as absent.
fn opt_str(v: &toml::Value, key: &str) -> (r: Option<Vec<char>>)
    ensures
        match r {
            Some(s) => doc_str(*v, key@) == Some(s@),
            None => doc_str(*v, key@) is None,
        },
{
    match toml_get(v, key) {
        Some(w) => match toml_str(w) {
            Some(s) => Some(chars_of(s)),
            None => None,
        },
        None => None,
    }
}

/// Build the manifest from a parsed document, deciding defaults, the
/// mandatory name, and the validity of each dependency entry exactly as
/// [`spec_load_doc`] describes.
#[verifier::loop_isolation(false)]
pub fn build_manifest(doc: &toml::Value) -> (r: Result<Manifest, ParseError>)
    ensures
        match r {
            Ok(m) => spec_load_doc(*doc) == Ok::<ManifestModel, ParseError>(manifest_model(m)),
            Err(e) => spec_load_doc(*doc) == Err::<ManifestModel, ParseError>(e),
        },
{
    let pv = match toml_get(doc, "project") {
        Some(pv) => pv,
        None => {
            return Err(ParseError::MissingName);
        },
    };
    if !toml_is_table(pv) {
        return Err(ParseError::Malformed);
    }
    let nv = match toml_get(pv, "name") {
        Some(nv) => nv,
        None => {
            return Err(ParseError::MissingName);
        },
    };
    let name = match toml_str(nv) {
        Some(s) => chars_of(s),
        None => {
            return Err(ParseError::Malformed);
        },
    };
    let version = match field_str(pv, "version", default_version()) {
        Ok(s) => s,
        Err(e) => {
            return Err(e);
        },
    };
    let edition = match field_str(pv, "edition", default_edition()) {
        Ok(s) => s,
        Err(e) => {
            return Err(e);
        },
    };
    let description = match field_str(pv, "description", Vec::new()) {
        Ok(s) => s,
        Err(e) => {
            return Err(e);
        },
    };
    let deps: Vec<DepEntry> = match toml_get(doc, "dependencies") {
        None => Vec::new(),
        Some(dv) => {
            if !toml_is_table(dv) {
                return Err(ParseError::Malformed);
            }
            let keys = toml_keys(dv);
            let ghost ks = value_keys(*dv).unwrap();
            let mut deps: Vec<DepEntry> = Vec::new();
            let mut i: usize = 0;
            while i < keys.len()
                invariant
                    i <= keys@.len(),
                    keys.deep_view() == ks,
                    value_keys(*dv) == Some(ks),
                    deps@.len() == i,
                    forall|j: int|
                        0 <= j < i ==> (#[trigger] deps@[j]).name@ == ks[j] && dep_source_model(
                            deps@[j].source,
                        ) == dep_model_of(*dv, ks[j]),
                decreases keys@.len() - i,
            {
                let k = &keys[i];
                assert(k@ == ks[i as int]) by {
                    assert(keys.deep_view()[i as int] == keys@[i as int]@);
                }
                assert(ks.contains(ks[i as int])) by {
                    assert(0 <= i < ks.len() && ks[i as int] == ks[i as int]);
                }
                let w = match toml_get(dv, k.as_str()) {
                    Some(w) => w,
                    None => {
                        assert(false);
                        return Err(ParseError::Malformed);
                    },
                };
                let source: DepSource = if !toml_is_table(w) {
                    DepSource::Invalid(DepProblem::NotATable)
                } else {
                    match toml_get(w, "git") {
                        None => DepSource::Invalid(DepProblem::MissingGit),
                        Some(gv) => match toml_str(gv) {
                            None => DepSource::Invalid(DepProblem::MissingGit),
                            Some(g) => {
                                let git = chars_of(g);
                                let branch = opt_str(w, "branch");
                                let tag = opt_str(w, "tag");
                                DepSource::Git(DependencySpec { git, branch, tag })
                            },
                        },
                    }
                };
                assert(dep_source_model(source) =~= dep_model_of(*dv, ks[i as int]));
                let ename = chars_of(k.as_str());
                deps.push(DepEntry { name: ename, source });
                i += 1;
            }
            deps
        },
    };
    let (compiler, flags): (Vec<char>, Vec<Vec<char>>) = match toml_get(doc, "build") {
        None => (default_compiler(), Vec::new()),
        Some(bv) => {
            if !toml_is_table(bv) {
                return Err(ParseError::Malformed);
            }
            let compiler = match field_str(bv, "compiler", default_compiler()) {
                Ok(c) => c,
                Err(e) => {
                    return Err(e);
                },
            };
            let flags: Vec<Vec<char>> = match toml_get(bv, "flags") {
                None => Vec::new(),
                Some(fv) => match toml_items(fv) {
                    None => {
                        return Err(ParseError::Malformed);
                    },
                    Some(items) => {
                        let ghost its = value_items(*fv).unwrap();
                        proof {
                            assert(doc_get(*bv, "flags"@) == Some(*fv));
                            assert(value_items(*fv) == Some(its));
                        }
                        let mut flags: Vec<Vec<char>> = Vec::new();
                        let n = items.len();
                        let mut j: usize = 0;
                        while j < n
                            invariant
                                j <= n,
                                n == its.len(),
                                items@ == its,
                                doc_get(*bv, "flags"@) == Some(*fv),
                                value_items(*fv) == Some(its),
                                flags@.len() == j,
                                forall|l: int|
                                    0 <= l < j ==> value_str(#[trigger] its[l]) == Some(
                                        flags@[l]@,
                                    ),
                            decreases n - j,
                        {
                            match toml_str(&items[j]) {
                                Some(s) => {
                                    let f = chars_of(s);
                                    flags.push(f);
                                    assert(value_str(its[j as int]) == Some(flags@[j as int]@));
                                },
                                None => {
                                    assert(exists|l: int|
                                        0 <= l < its.len() && !(value_str(#[trigger] its[l])
                                            is Some)) by {
                                        assert(0 <= j < its.len());
                                        assert(!(value_str(its[j as int]) is Some));
                                    }
                                    assert(flags_model(*bv) is None);
                                    assert(doc_get(*doc, "build"@) == Some(*bv));
                                    assert(build_model(*doc) is None);
                                    assert(deps_model(*doc) is Some);
                                    assert(spec_load_doc(*doc) == Err::<
                                        ManifestModel,
                                        ParseError,
                                    >(ParseError::Malformed));
                                    return Err(ParseError::Malformed);
                                },
                            }
                            j += 1;
                        }
                        assert forall|l: int| 0 <= l < its.len() implies (value_str(
                            #[trigger] its[l],
                        )) is Some by {
                            assert(value_str(its[l]) == Some(flags@[l]@));
                        }
                        proof {
                            let fl = flags_model(*bv).unwrap();
                            assert(line_views(flags@) =~= fl);
                        }
                        flags
                    },
                },
            };
            (compiler, flags)
        },
    };
    let m = Manifest {
        project: Project { name, version, edition, description },
        dependencies: deps,
        build: BuildConfig { compiler, flags },
    };
    proof {
        let sm = spec_load_doc(*doc);
        assert(deps_model(*doc) matches Some(ds) && manifest_model(m).deps =~= ds);
        assert(build_model(*doc) matches Some(bm) && manifest_model(m).compiler == bm.0
            && manifest_model(m).flags =~= bm.1);
        assert(sm matches Ok(mm) && mm =~= manifest_model(m));
    }
    Ok(m)
}

/// Load the manifest from its text. Ill-formed text is rejected as
/// `Malformed`; on well-formed text the result is exactly what
/// [`spec_load_doc`] yields for the parsed document, mandatory name and
/// documented defaults included.
pub fn load(text: &str) -> (r: Result<Manifest, ParseError>)
    ensures
        !toml_src_wf(text@) ==> r == Err::<Manifest, ParseError>(ParseError::Malformed),
        r is Ok ==> toml_src_wf(text@),
        toml_src_wf(text@) ==> match r {
            Ok(m) => spec_load_doc(doc_of(text@)) == Ok::<ManifestModel, ParseError>(
                manifest_model(m),
            ),
            Err(e) => spec_load_doc(doc_of(text@)) == Err::<ManifestModel, ParseError>(e),
        },
{
    match parse_toml(text) {
        Some(v) => build_manifest(&v),
        None => Err(ParseError::Malformed),
    }
}

} // verus!
