//! Project and module scaffolding decisions: the initial manifest and
//! build descriptor of a fresh project, module-creation planning, and the
//! empty-directory rule for in-place initialization.

use vstd::prelude::*;
use crate::manifest::Manifest;
use crate::manifest::Project;
use crate::manifest::BuildConfig;
use crate::naming::spec_valid_module_name;
use crate::naming::spec_module_source_path;
use crate::naming::spec_module_header_path;
use crate::naming::spec_header_guard;
use crate::naming::validate_module_name;
use crate::naming::module_source_path;
use crate::naming::module_header_path;
use crate::naming::header_guard;
use crate::text::chars_of;
use crate::text::push_all;
use crate::text::line_views;

verus! {

/// Module creation fails in exactly these ways.
#[derive(Debug)]
pub enum ModuleError {
    /// The module name is not made of word characters.
    InvalidName,
    /// A target file already exists; nothing is overwritten.
    AlreadyExists,
}

/// The file paths and header guard of a module to create.
pub struct ModulePlan {
    pub source_path: Vec<char>,
    pub header_path: Vec<char>,
    pub guard: Vec<char>,
}

/// Decide module creation: the name must be valid and neither target file
/// may exist yet; the validity check comes first.
pub fn plan_module(name: &Vec<char>, source_exists: bool, header_exists: bool) -> (r: Result<
    ModulePlan,
    ModuleError,
>)
    ensures
        (r == Err::<ModulePlan, ModuleError>(ModuleError::InvalidName)) <==> !spec_valid_module_name(name@),
        (r == Err::<ModulePlan, ModuleError>(ModuleError::AlreadyExists)) <==> (
        spec_valid_module_name(name@) && (source_exists || header_exists)),
        r matches Ok(p) ==> spec_valid_module_name(name@) && !source_exists && !header_exists
            && p.source_path@ == spec_module_source_path(name@) && p.header_path@
            == spec_module_header_path(name@) && p.guard@ == spec_header_guard(name@),
{
    if !validate_module_name(name) {
        return Err(ModuleError::InvalidName);
    }
    if source_exists || header_exists {
        return Err(ModuleError::AlreadyExists);
    }
    Ok(
        ModulePlan {
            source_path: module_source_path(name),
            header_path: module_header_path(name),
            guard: header_guard(name),
        },
    )
}

/// Whether a directory listing counts as empty for in-place
/// initialization: every name is hidden, that is, starts with `.`.
pub open spec fn spec_only_hidden(names: Seq<Seq<char>>) -> bool {
    forall|i: int| 0 <= i < names.len() ==> (#[trigger] names[i]).len() > 0 && names[i][0] == '.'
}

/// Decide whether a directory with these entry names counts as empty.
pub fn listing_is_empty(names: &Vec<Vec<char>>) -> (r: bool)
    ensures
        r == spec_only_hidden(line_views(names@)),
{
    let mut i: usize = 0;
    while i < names.len()
        invariant
            i <= names@.len(),
            forall|j: int|
                0 <= j < i ==> (#[trigger] line_views(names@)[j]).len() > 0 && line_views(
                    names@,
                )[j][0] == '.',
        decreases names@.len() - i,
    {
        if names[i].len() == 0 || names[i][0] != '.' {
            assert(!(line_views(names@)[i as int].len() > 0 && line_views(names@)[i as int][0]
                == '.'));
            return false;
        }
        assert(line_views(names@)[i as int].len() > 0 && line_views(names@)[i as int][0] == '.');
        i += 1;
    }
    true
}

/// The manifest a fresh project starts with.
pub fn initial_manifest(name: &Vec<char>) -> (m: Manifest)
    ensures
        m.project.name@ == name@,
        m.project.version@ == "0.1.0"@,
        m.project.edition@ == "c99"@,
        m.project.description@ == "A C project created with c1"@,
        m.dependencies@.len() == 0,
        m.build.compiler@ == "gcc"@,
        line_views(m.build.flags@) =~= seq!["-O3"@, "-Wall"@],
{
    let mut flags: Vec<Vec<char>> = Vec::new();
    flags.push(chars_of("-O3"));
    flags.push(chars_of("-Wall"));
    let mut n: Vec<char> = Vec::new();
    push_all(&mut n, name);
    assert(n@ =~= name@);
    Manifest {
        project: Project {
            name: n,
            version: chars_of("0.1.0"),
            edition: chars_of("c99"),
            description: chars_of("A C project created with c1"),
        },
        dependencies: Vec::new(),
        build: BuildConfig { compiler: chars_of("gcc"), flags },
    }
}

/// The manifest text a fresh project starts with: identity, a commented
/// dependency section, and the default build settings.
pub open spec fn spec_initial_manifest_text(name: Seq<char>) -> Seq<char> {
    "[project]\nname = \""@ + name
        + "\"\nversion = \"0.1.0\"\nedition = \"c99\"\ndescription = \"A C project created with c1\"\n\n[dependencies]\n# Add your dependencies here\n# Example:\n# arc-c = { git = \"https://github.com/weynechen/arc-c.git\", tag = \"v0.5.0\" }\n\n[build]\ncompiler = \"gcc\"\nflags = [\"-O3\", \"-Wall\"]\n"@
}

/// Render the manifest text of a fresh project.
pub fn initial_manifest_text(name: &Vec<char>) -> (r: Vec<char>)
    ensures
        r@ == spec_initial_manifest_text(name@),
{
    let mut r = chars_of("[project]\nname = \"");
    push_all(&mut r, name);
    let tail = chars_of(
        "\"\nversion = \"0.1.0\"\nedition = \"c99\"\ndescription = \"A C project created with c1\"\n\n[dependencies]\n# Add your dependencies here\n# Example:\n# arc-c = { git = \"https://github.com/weynechen/arc-c.git\", tag = \"v0.5.0\" }\n\n[build]\ncompiler = \"gcc\"\nflags = [\"-O3\", \"-Wall\"]\n",
    );
    push_all(&mut r, &tail);
    r
}

/// The build descriptor a fresh project starts with: it holds both marker
/// lines, so module registration keeps working on it.
pub open spec fn spec_initial_descriptor(name: Seq<char>) -> Seq<char> {
    "cmake_minimum_required(VERSION 3.16)\nproject("@ + name
        + " C)\n\nset(CMAKE_C_STANDARD 99)\nset(CMAKE_C_STANDARD_REQUIRED ON)\nset(CMAKE_EXPORT_COMPILE_COMMANDS ON)\n\n# Source files list\nset(SOURCES\n    main.c\n    # @c1_sources\n)\n\n# Header files list\nset(HEADERS\n    # @c1_headers\n)\n\nadd_executable(${PROJECT_NAME} ${SOURCES} ${HEADERS})\n\n# Include directories: following Pitchfork convention, headers in include/\ntarget_include_directories(${PROJECT_NAME} PRIVATE \n    ${CMAKE_CURRENT_SOURCE_DIR}/include\n)\n\n# Default linked libraries (reserved example)\n# target_link_libraries(${PROJECT_NAME} PRIVATE m)\n"@
}

/// Render the build descriptor of a fresh project.
pub fn initial_descriptor(name: &Vec<char>) -> (r: Vec<char>)
    ensures
        r@ == spec_initial_descriptor(name@),
{
    let mut r = chars_of("cmake_minimum_required(VERSION 3.16)\nproject(");
    push_all(&mut r, name);
    let tail = chars_of(
        " C)\n\nset(CMAKE_C_STANDARD 99)\nset(CMAKE_C_STANDARD_REQUIRED ON)\nset(CMAKE_EXPORT_COMPILE_COMMANDS ON)\n\n# Source files list\nset(SOURCES\n    main.c\n    # @c1_sources\n)\n\n# Header files list\nset(HEADERS\n    # @c1_headers\n)\n\nadd_executable(${PROJECT_NAME} ${SOURCES} ${HEADERS})\n\n# Include directories: following Pitchfork convention, headers in include/\ntarget_include_directories(${PROJECT_NAME} PRIVATE \n    ${CMAKE_CURRENT_SOURCE_DIR}/include\n)\n\n# Default linked libraries (reserved example)\n# target_link_libraries(${PROJECT_NAME} PRIVATE m)\n",
    );
    push_all(&mut r, &tail);
    r
}

} // verus!
