//! Argument derivation for the external build tool: the configure and
//! compile invocations, and the path of the generated executable.

use vstd::prelude::*;
use crate::text::chars_of;
use crate::text::push_all;
use crate::text::line_views;

verus! {

/// The build profile the configure step selects.
pub open spec fn spec_build_profile(release: bool) -> Seq<char> {
    if release {
        "Release"@
    } else {
        "Debug"@
    }
}

/// The build profile name for a release or debug build.
pub fn build_profile(release: bool) -> (r: Vec<char>)
    ensures
        r@ == spec_build_profile(release),
{
    if release {
        chars_of("Release")
    } else {
        chars_of("Debug")
    }
}

/// Arguments of the configure invocation: `-B build
/// -DCMAKE_BUILD_TYPE=<profile>`.
pub open spec fn spec_configure_args(release: bool) -> Seq<Seq<char>> {
    seq!["-B"@, "build"@, "-DCMAKE_BUILD_TYPE="@ + spec_build_profile(release)]
}

/// Build the configure argument list.
pub fn configure_args(release: bool) -> (r: Vec<Vec<char>>)
    ensures
        line_views(r@) == spec_configure_args(release),
{
    let mut r: Vec<Vec<char>> = Vec::new();
    r.push(chars_of("-B"));
    r.push(chars_of("build"));
    let mut ty = chars_of("-DCMAKE_BUILD_TYPE=");
    let profile = build_profile(release);
    push_all(&mut ty, &profile);
    r.push(ty);
    assert(line_views(r@) =~= spec_configure_args(release));
    r
}

/// Arguments of the compile invocation: `--build build`.
pub open spec fn spec_compile_args() -> Seq<Seq<char>> {
    seq!["--build"@, "build"@]
}

/// Build the compile argument list.
pub fn compile_args() -> (r: Vec<Vec<char>>)
    ensures
        line_views(r@) == spec_compile_args(),
{
    let mut r: Vec<Vec<char>> = Vec::new();
    r.push(chars_of("--build"));
    r.push(chars_of("build"));
    assert(line_views(r@) =~= spec_compile_args());
    r
}

/// The path of the generated executable: `build/<project name>`.
pub open spec fn spec_executable_path(name: Seq<char>) -> Seq<char> {
    "build/"@ + name
}

/// Build the generated executable's path.
pub fn executable_path(name: &Vec<char>) -> (r: Vec<char>)
    ensures
        r@ == spec_executable_path(name@),
{
    let mut r = chars_of("build/");
    push_all(&mut r, name);
    r
}

} // verus!
