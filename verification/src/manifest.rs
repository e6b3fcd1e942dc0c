//! The in-memory model of the project configuration: identity, build
//! settings, and an insertion-ordered dependency table.

use vstd::prelude::*;
use crate::text::chars_of;

verus! {

/// One git-sourced dependency: required source URL and optional ref
/// selectors. When both a branch and a tag are given, cloning prefers the
/// branch; with neither, the collaborator's default branch is cloned.
pub struct DependencySpec {
    pub git: Vec<char>,
    pub branch: Option<Vec<char>>,
    pub tag: Option<Vec<char>>,
}

/// Why a manifest dependency entry cannot be handed to the clone
/// collaborator.
pub enum DepProblem {
    /// The entry's value is not a table of keys.
    NotATable,
    /// The entry's table has no `git` string.
    MissingGit,
}

/// What one dependency entry of the manifest holds.
pub enum DepSource {
    Git(DependencySpec),
    Invalid(DepProblem),
}

/// One entry of the manifest's dependency table, in table order.
pub struct DepEntry {
    pub name: Vec<char>,
    pub source: DepSource,
}

/// Identity fields of the manifest.
pub struct Project {
    pub name: Vec<char>,
    pub version: Vec<char>,
    pub edition: Vec<char>,
    pub description: Vec<char>,
}

/// Build settings of the manifest.
pub struct BuildConfig {
    pub compiler: Vec<char>,
    pub flags: Vec<Vec<char>>,
}

/// The project manifest.
pub struct Manifest {
    pub project: Project,
    pub dependencies: Vec<DepEntry>,
    pub build: BuildConfig,
}

/// Loading a manifest fails in exactly these ways.
#[derive(Debug)]
pub enum ParseError {
    /// The text is not well-formed structured configuration.
    Malformed,
    /// The identity's mandatory name field is absent or not a string.
    MissingName,
}

/// The version a manifest starts with when none is given.
pub fn default_version() -> (r: Vec<char>)
    ensures
        r@ == "0.1.0"@,
{
    chars_of("0.1.0")
}

/// The language edition a manifest starts with when none is given.
pub fn default_edition() -> (r: Vec<char>)
    ensures
        r@ == "99"@,
{
    chars_of("99")
}

/// The compiler a manifest starts with when none is given.
pub fn default_compiler() -> (r: Vec<char>)
    ensures
        r@ == "gcc"@,
{
    chars_of("gcc")
}

} // verus!
