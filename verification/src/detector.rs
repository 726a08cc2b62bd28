//! Project type auto-detection from filesystem markers.
//!
//! Decides, from the marker files present in a project root, which build
//! systems the project uses, and generates a [`Config`] with appropriate
//! targets and defaults.

use vstd::prelude::*;
use vstd::string::*;
use crate::config::{
    Config, NotificationConfig, TargetConfig, default_global_excludes, default_global_excludes_spec,
};
use crate::text::{ends_with, seq_has, str_ends_with, vec_has};

verus! {

/// A detected project type with its configuration defaults.
#[derive(Debug)]
pub struct DetectedProject {
    pub project_type: String,
    pub name: String,
    pub build_command: String,
    pub output_path: Option<String>,
    pub watch_extensions: Vec<String>,
    pub exclude_paths: Vec<String>,
}

/// The mathematical value of a [`DetectedProject`].
pub struct DetectedView {
    pub project_type: Seq<char>,
    pub name: Seq<char>,
    pub build_command: Seq<char>,
    pub output_path: Option<Seq<char>>,
    pub watch_extensions: Seq<Seq<char>>,
    pub exclude_paths: Seq<Seq<char>>,
}

impl View for DetectedProject {
    type V = DetectedView;

    open spec fn view(&self) -> DetectedView {
        DetectedView {
            project_type: self.project_type@,
            name: self.name@,
            build_command: self.build_command@,
            output_path: self.output_path.deep_view(),
            watch_extensions: self.watch_extensions.deep_view(),
            exclude_paths: self.exclude_paths.deep_view(),
        }
    }
}

// --- The detection table ---

/// The marker files whose presence in the project root decides detection.
pub open spec fn marker_files_spec() -> Seq<Seq<char>> {
    seq![
        "Cargo.toml"@,
        "go.mod"@,
        "Package.swift"@,
        "package.json"@,
        "tsconfig.json"@,
        "CMakeLists.txt"@,
        "Makefile"@,
        "makefile"@,
        "Dockerfile"@,
        "pyproject.toml"@,
        "setup.py"@,
    ]
}

/// The project's name: its directory name, or "project" when it has none.
pub open spec fn project_name(dir_name: Option<Seq<char>>) -> Seq<char> {
    match dir_name {
        Some(n) => n,
        None => "project"@,
    }
}

pub open spec fn rust_project(dir: Seq<char>) -> DetectedView {
    DetectedView {
        project_type: "rust"@,
        name: dir,
        build_command: "cargo build"@,
        output_path: Some("target/debug/"@ + dir),
        watch_extensions: seq![".rs"@, ".toml"@],
        exclude_paths: seq!["target/"@],
    }
}

pub open spec fn go_project(dir: Seq<char>) -> DetectedView {
    DetectedView {
        project_type: "go"@,
        name: dir,
        build_command: "go build -o bin/"@ + dir + " ./cmd/"@ + dir,
        output_path: Some("bin/"@ + dir),
        watch_extensions: seq![".go"@, ".mod"@, ".sum"@],
        exclude_paths: seq!["vendor/"@, "bin/"@],
    }
}

pub open spec fn swift_project(dir: Seq<char>) -> DetectedView {
    DetectedView {
        project_type: "swift"@,
        name: dir,
        build_command: "swift build"@,
        output_path: Some(".build/debug/"@ + dir),
        watch_extensions: seq![".swift"@],
        exclude_paths: seq![".build/"@],
    }
}

pub open spec fn typescript_project(dir: Seq<char>) -> DetectedView {
    DetectedView {
        project_type: "typescript"@,
        name: dir,
        build_command: "npm run build"@,
        output_path: Some("dist/"@),
        watch_extensions: seq![".ts"@, ".tsx"@, ".js"@, ".jsx"@],
        exclude_paths: seq!["node_modules/"@, "dist/"@],
    }
}

pub open spec fn cmake_project(dir: Seq<char>) -> DetectedView {
    DetectedView {
        project_type: "cmake"@,
        name: dir,
        build_command: "cmake --build build"@,
        output_path: None,
        watch_extensions: seq![".c"@, ".cpp"@, ".h"@, ".hpp"@, ".cmake"@],
        exclude_paths: seq!["build/"@],
    }
}

pub open spec fn make_project(dir: Seq<char>) -> DetectedView {
    DetectedView {
        project_type: "make"@,
        name: dir,
        build_command: "make"@,
        output_path: None,
        watch_extensions: Seq::empty(),
        exclude_paths: Seq::empty(),
    }
}

pub open spec fn docker_project(dir: Seq<char>) -> DetectedView {
    DetectedView {
        project_type: "docker"@,
        name: dir + "-docker"@,
        build_command: "docker build ."@,
        output_path: None,
        watch_extensions: seq!["Dockerfile"@],
        exclude_paths: seq![".git/"@],
    }
}

pub open spec fn dotnet_project(dir: Seq<char>) -> DetectedView {
    DetectedView {
        project_type: "dotnet"@,
        name: dir,
        build_command: "dotnet build"@,
        output_path: None,
        watch_extensions: seq![".cs"@, ".csproj"@, ".sln"@],
        exclude_paths: seq!["bin/"@, "obj/"@],
    }
}

pub open spec fn python_project(dir: Seq<char>) -> DetectedView {
    DetectedView {
        project_type: "python"@,
        name: dir,
        build_command: "echo 'Python: no build step'"@,
        output_path: None,
        watch_extensions: seq![".py"@],
        exclude_paths: seq!["__pycache__/"@, ".venv/"@, "venv/"@],
    }
}

/// `x` alone when `cond` holds, else nothing.
pub open spec fn when(cond: bool, x: DetectedView) -> Seq<DetectedView> {
    if cond {
        seq![x]
    } else {
        Seq::empty()
    }
}

/// A directory entry names a .NET project or solution file.
pub open spec fn is_dotnet_file(name: Seq<char>) -> bool {
    ends_with(name, ".csproj"@) || ends_with(name, ".sln"@)
}

/// The build systems detected, in order: Rust, Go, Swift, TypeScript (both
/// package.json and tsconfig.json), CMake, Make (only when none of those
/// was found), Docker, .NET (an entry ending in .csproj or .sln), Python.
pub open spec fn detect_spec(
    dir_name: Option<Seq<char>>,
    present: Seq<Seq<char>>,
    entries: Seq<Seq<char>>,
) -> Seq<DetectedView> {
    let dir = project_name(dir_name);
    let first = when(seq_has(present, "Cargo.toml"@), rust_project(dir)) + when(
        seq_has(present, "go.mod"@),
        go_project(dir),
    ) + when(seq_has(present, "Package.swift"@), swift_project(dir)) + when(
        seq_has(present, "package.json"@) && seq_has(present, "tsconfig.json"@),
        typescript_project(dir),
    ) + when(seq_has(present, "CMakeLists.txt"@), cmake_project(dir));
    let with_make = first + when(
        (seq_has(present, "Makefile"@) || seq_has(present, "makefile"@)) && first.len() == 0,
        make_project(dir),
    );
    with_make + when(seq_has(present, "Dockerfile"@), docker_project(dir)) + when(
        exists|i: int| 0 <= i < entries.len() && #[trigger] is_dotnet_file(entries[i]),
        dotnet_project(dir),
    ) + when(seq_has(present, "pyproject.toml"@) || seq_has(present, "setup.py"@), python_project(dir))
}

// --- Detection ---

/// The views of a list of detected projects.
pub open spec fn detected_views(v: Seq<DetectedProject>) -> Seq<DetectedView> {
    Seq::new(v.len(), |i: int| v[i]@)
}

fn concat2(a: &str, b: &str) -> (res: String)
    ensures
        res@ == a@ + b@,
{
    let mut res = String::from_str(a);
    res.append(b);
    res
}

fn go_build_command(dir: &str) -> (res: String)
    ensures
        res@ == "go build -o bin/"@ + dir@ + " ./cmd/"@ + dir@,
{
    let mut res = String::from_str("go build -o bin/");
    res.append(dir);
    res.append(" ./cmd/");
    res.append(dir);
    res
}

/// Returns whether the literal `name` is one of `present`.
fn has_marker(present: &Vec<String>, name: &str) -> (res: bool)
    ensures
        res == seq_has(present.deep_view(), name@),
{
    let n = String::from_str(name);
    vec_has(present, &n)
}

fn detected_rust(dir: &str) -> (res: DetectedProject)
    ensures
        res@ == rust_project(dir@),
{
    let res = DetectedProject {
        project_type: String::from_str("rust"),
        name: String::from_str(dir),
        build_command: String::from_str("cargo build"),
        output_path: Some(concat2("target/debug/", dir)),
        watch_extensions: vec![String::from_str(".rs"), String::from_str(".toml")],
        exclude_paths: vec![String::from_str("target/")],
    };
    assert(res.watch_extensions.deep_view() =~= rust_project(dir@).watch_extensions);
    assert(res.exclude_paths.deep_view() =~= rust_project(dir@).exclude_paths);
    res
}

fn detected_go(dir: &str) -> (res: DetectedProject)
    ensures
        res@ == go_project(dir@),
{
    let res = DetectedProject {
        project_type: String::from_str("go"),
        name: String::from_str(dir),
        build_command: go_build_command(dir),
        output_path: Some(concat2("bin/", dir)),
        watch_extensions: vec![String::from_str(".go"), String::from_str(".mod"), String::from_str(".sum")],
        exclude_paths: vec![String::from_str("vendor/"), String::from_str("bin/")],
    };
    assert(res.watch_extensions.deep_view() =~= go_project(dir@).watch_extensions);
    assert(res.exclude_paths.deep_view() =~= go_project(dir@).exclude_paths);
    res
}

fn detected_swift(dir: &str) -> (res: DetectedProject)
    ensures
        res@ == swift_project(dir@),
{
    let res = DetectedProject {
        project_type: String::from_str("swift"),
        name: String::from_str(dir),
        build_command: String::from_str("swift build"),
        output_path: Some(concat2(".build/debug/", dir)),
        watch_extensions: vec![String::from_str(".swift")],
        exclude_paths: vec![String::from_str(".build/")],
    };
    assert(res.watch_extensions.deep_view() =~= swift_project(dir@).watch_extensions);
    assert(res.exclude_paths.deep_view() =~= swift_project(dir@).exclude_paths);
    res
}

fn detected_typescript(dir: &str) -> (res: DetectedProject)
    ensures
        res@ == typescript_project(dir@),
{
    let res = DetectedProject {
        project_type: String::from_str("typescript"),
        name: String::from_str(dir),
        build_command: String::from_str("npm run build"),
        output_path: Some(String::from_str("dist/")),
        watch_extensions: vec![
            String::from_str(".ts"),
            String::from_str(".tsx"),
            String::from_str(".js"),
            String::from_str(".jsx"),
        ],
        exclude_paths: vec![String::from_str("node_modules/"), String::from_str("dist/")],
    };
    assert(res.watch_extensions.deep_view() =~= typescript_project(dir@).watch_extensions);
    assert(res.exclude_paths.deep_view() =~= typescript_project(dir@).exclude_paths);
    res
}

fn detected_cmake(dir: &str) -> (res: DetectedProject)
    ensures
        res@ == cmake_project(dir@),
{
    let res = DetectedProject {
        project_type: String::from_str("cmake"),
        name: String::from_str(dir),
        build_command: String::from_str("cmake --build build"),
        output_path: None,
        watch_extensions: vec![
            String::from_str(".c"),
            String::from_str(".cpp"),
            String::from_str(".h"),
            String::from_str(".hpp"),
            String::from_str(".cmake"),
        ],
        exclude_paths: vec![String::from_str("build/")],
    };
    assert(res.watch_extensions.deep_view() =~= cmake_project(dir@).watch_extensions);
    assert(res.exclude_paths.deep_view() =~= cmake_project(dir@).exclude_paths);
    res
}

fn detected_make(dir: &str) -> (res: DetectedProject)
    ensures
        res@ == make_project(dir@),
{
    let res = DetectedProject {
        project_type: String::from_str("make"),
        name: String::from_str(dir),
        build_command: String::from_str("make"),
        output_path: None,
        watch_extensions: Vec::new(),
        exclude_paths: Vec::new(),
    };
    assert(res.watch_extensions.deep_view() =~= make_project(dir@).watch_extensions);
    assert(res.exclude_paths.deep_view() =~= make_project(dir@).exclude_paths);
    res
}

fn detected_docker(dir: &str) -> (res: DetectedProject)
    ensures
        res@ == docker_project(dir@),
{
    let res = DetectedProject {
        project_type: String::from_str("docker"),
        name: concat2(dir, "-docker"),
        build_command: String::from_str("docker build ."),
        output_path: None,
        watch_extensions: vec![String::from_str("Dockerfile")],
        exclude_paths: vec![String::from_str(".git/")],
    };
    assert(res.watch_extensions.deep_view() =~= docker_project(dir@).watch_extensions);
    assert(res.exclude_paths.deep_view() =~= docker_project(dir@).exclude_paths);
    res
}

fn detected_dotnet(dir: &str) -> (res: DetectedProject)
    ensures
        res@ == dotnet_project(dir@),
{
    let res = DetectedProject {
        project_type: String::from_str("dotnet"),
        name: String::from_str(dir),
        build_command: String::from_str("dotnet build"),
        output_path: None,
        watch_extensions: vec![String::from_str(".cs"), String::from_str(".csproj"), String::from_str(".sln")],
        exclude_paths: vec![String::from_str("bin/"), String::from_str("obj/")],
    };
    assert(res.watch_extensions.deep_view() =~= dotnet_project(dir@).watch_extensions);
    assert(res.exclude_paths.deep_view() =~= dotnet_project(dir@).exclude_paths);
    res
}

fn detected_python(dir: &str) -> (res: DetectedProject)
    ensures
        res@ == python_project(dir@),
{
    let res = DetectedProject {
        project_type: String::from_str("python"),
        name: String::from_str(dir),
        build_command: String::from_str("echo 'Python: no build step'"),
        output_path: None,
        watch_extensions: vec![String::from_str(".py")],
        exclude_paths: vec![String::from_str("__pycache__/"), String::from_str(".venv/"), String::from_str("venv/")],
    };
    assert(res.watch_extensions.deep_view() =~= python_project(dir@).watch_extensions);
    assert(res.exclude_paths.deep_view() =~= python_project(dir@).exclude_paths);
    res
}

/// Returns whether one of `entries` names a .NET project or solution file.
fn has_dotnet_file(entries: &Vec<String>) -> (res: bool)
    ensures
        res == exists|i: int| 0 <= i < entries.deep_view().len() && #[trigger] is_dotnet_file(entries.deep_view()[i]),
{
    let mut i: usize = 0;
    while i < entries.len()
        invariant
            i <= entries.len(),
            forall|k: int| 0 <= k < i ==> !#[trigger] is_dotnet_file(entries.deep_view()[k]),
        decreases entries.len() - i,
    {
        let e = entries[i].as_str();
        if str_ends_with(e, ".csproj") || str_ends_with(e, ".sln") {
            assert(is_dotnet_file(entries.deep_view()[i as int]));
            return true;
        }
        i = i + 1;
    }
    false
}

/// The marker files that the caller looks up in the project root; their
/// presence is what [`detect_project`] decides on.
pub fn marker_files() -> (res: Vec<String>)
    ensures
        res.deep_view() == marker_files_spec(),
{
    let res = vec![
        String::from_str("Cargo.toml"),
        String::from_str("go.mod"),
        String::from_str("Package.swift"),
        String::from_str("package.json"),
        String::from_str("tsconfig.json"),
        String::from_str("CMakeLists.txt"),
        String::from_str("Makefile"),
        String::from_str("makefile"),
        String::from_str("Dockerfile"),
        String::from_str("pyproject.toml"),
        String::from_str("setup.py"),
    ];
    assert(res.deep_view() =~= marker_files_spec());
    res
}

/// Appends `p` to `v` when `cond` holds.
fn push_when(v: &mut Vec<DetectedProject>, cond: bool, p: DetectedProject)
    ensures
        detected_views(final(v)@) == detected_views(old(v)@) + when(cond, p@),
{
    let ghost before = detected_views(v@);
    let ghost pv = p@;
    if cond {
        v.push(p);
    }
    assert(detected_views(v@) =~= before + when(cond, pv));
}

/// Detect all project types present in a project root, given the root's
/// directory name, the marker files that exist in it, and the names of
/// its entries.
pub fn detect_project(dir_name: Option<String>, present: &Vec<String>, entries: &Vec<String>) -> (res: Vec<DetectedProject>)
    ensures
        detected_views(res@) == detect_spec(dir_name.deep_view(), present.deep_view(), entries.deep_view()),
{
    let ghost dn = dir_name.deep_view();
    let dir = match dir_name {
        Some(n) => n,
        None => String::from_str("project"),
    };
    let d = dir.as_str();
    let ghost dv = project_name(dn);
    assert(d@ == dv);
    let mut detected: Vec<DetectedProject> = Vec::new();
    assert(detected_views(detected@) =~= Seq::<DetectedView>::empty());
    let c1 = has_marker(present, "Cargo.toml");
    push_when(&mut detected, c1, detected_rust(d));
    let c2 = has_marker(present, "go.mod");
    push_when(&mut detected, c2, detected_go(d));
    let c3 = has_marker(present, "Package.swift");
    push_when(&mut detected, c3, detected_swift(d));
    let c4 = has_marker(present, "package.json") && has_marker(present, "tsconfig.json");
    push_when(&mut detected, c4, detected_typescript(d));
    let c5 = has_marker(present, "CMakeLists.txt");
    push_when(&mut detected, c5, detected_cmake(d));
    let ghost first = detected_views(detected@);
    // Make only when no more specific build system was detected
    let c6 = (has_marker(present, "Makefile") || has_marker(present, "makefile")) && detected.len() == 0;
    push_when(&mut detected, c6, detected_make(d));
    let c7 = has_marker(present, "Dockerfile");
    push_when(&mut detected, c7, detected_docker(d));
    let c8 = has_dotnet_file(entries);
    push_when(&mut detected, c8, detected_dotnet(d));
    let c9 = has_marker(present, "pyproject.toml") || has_marker(present, "setup.py");
    push_when(&mut detected, c9, detected_python(d));
    proof {
        let pv = present.deep_view();
        let f = when(seq_has(pv, "Cargo.toml"@), rust_project(dv)) + when(seq_has(pv, "go.mod"@), go_project(dv))
            + when(seq_has(pv, "Package.swift"@), swift_project(dv)) + when(
            seq_has(pv, "package.json"@) && seq_has(pv, "tsconfig.json"@),
            typescript_project(dv),
        ) + when(seq_has(pv, "CMakeLists.txt"@), cmake_project(dv));
        assert(first =~= f);
        assert(detected_views(detected@) =~= detect_spec(dn, pv, entries.deep_view()));
    }
    detected
}

// --- Configuration generation ---

/// The detected projects, in order, of type `project_type` (all of them
/// when no type is given).
pub open spec fn keep_type(ds: Seq<DetectedProject>, project_type: Option<Seq<char>>) -> Seq<DetectedProject>
    decreases ds.len(),
{
    if ds.len() == 0 {
        Seq::empty()
    } else {
        let k = keep_type(ds.drop_last(), project_type);
        match project_type {
            Some(t) => if ds.last().project_type@ == t {
                k.push(ds.last())
            } else {
                k
            },
            None => k.push(ds.last()),
        }
    }
}

/// `t` is the build target generated for the detected project `d`: its
/// name, command, output, extensions and excludes, working in ".", watching
/// every path, with no environment, priority 5, enabled, no post-build
/// command and no auto-restart.
pub open spec fn target_from(t: TargetConfig, d: DetectedProject) -> bool {
    &&& t.name == d.name
    &&& t.build_command == d.build_command
    &&& t.output_path == d.output_path
    &&& t.working_directory@ == "."@
    &&& t.watch_extensions == d.watch_extensions
    &&& t.watch_paths@.len() == 0
    &&& t.exclude_paths == d.exclude_paths
    &&& t.environment@.len() == 0
    &&& t.priority == 5
    &&& t.enabled
    &&& t.post_build.is_none()
    &&& !t.auto_restart
}

/// Generate a Config from detected projects, with optional type override:
/// one target per detected project of the given type (of every type when
/// none is given), and the default settings.
pub fn generate_config(detected: Vec<DetectedProject>, type_override: Option<String>) -> (res: Config)
    ensures
        res.version == 1,
        res.settling_delay_ms == 200,
        res.build_timeout_seconds == 300,
        res.notifications.enabled && res.notifications.on_success && res.notifications.on_failure
            && res.notifications.sound,
        res.global_excludes.deep_view() == default_global_excludes_spec(),
        res.targets@.len() == keep_type(detected@, type_override.deep_view()).len(),
        forall|i: int|
            0 <= i < res.targets@.len() ==> target_from(
                #[trigger] res.targets@[i],
                keep_type(detected@, type_override.deep_view())[i],
            ),
{
    let ghost orig = detected@;
    let ghost ov = type_override.deep_view();
    let mut rest = detected;
    let mut targets: Vec<TargetConfig> = Vec::new();
    let ghost mut done: int = 0;
    while rest.len() > 0
        invariant
            0 <= done <= orig.len(),
            rest@ == orig.skip(done),
            ov == type_override.deep_view(),
            targets@.len() == keep_type(orig.take(done), ov).len(),
            forall|i: int| 0 <= i < targets@.len() ==> target_from(#[trigger] targets@[i], keep_type(orig.take(done), ov)[i]),
        decreases rest.len(),
    {
        let d = rest.remove(0);
        proof {
            assert(d == orig[done]);
            let tk = orig.take(done + 1);
            assert(tk.drop_last() =~= orig.take(done));
            assert(tk.last() == orig[done]);
            assert(rest@ =~= orig.skip(done + 1));
        }
        let keep = match &type_override {
            Some(t) => d.project_type == *t,
            None => true,
        };
        if keep {
            let ghost dd = d;
            let t = TargetConfig {
                name: d.name,
                build_command: d.build_command,
                output_path: d.output_path,
                working_directory: String::from_str("."),
                watch_extensions: d.watch_extensions,
                watch_paths: Vec::new(),
                exclude_paths: d.exclude_paths,
                environment: Vec::new(),
                priority: 5,
                enabled: true,
                post_build: None,
                auto_restart: false,
            };
            assert(target_from(t, dd));
            targets.push(t);
        }
        proof {
            done = done + 1;
        }
    }
    proof {
        assert(orig.take(done) =~= orig);
    }
    Config {
        version: 1,
        settling_delay_ms: 200,
        build_timeout_seconds: 300,
        notifications: NotificationConfig::default(),
        targets,
        global_excludes: default_global_excludes(),
    }
}

// --- Laws ---

/// No entry of `v` is a plain Makefile project.
pub open spec fn no_make(v: Seq<DetectedView>) -> bool {
    forall|i: int| 0 <= i < v.len() ==> #[trigger] v[i].project_type != "make"@
}

proof fn lemma_specific_types(dir: Seq<char>)
    ensures
        rust_project(dir).project_type != "make"@,
        go_project(dir).project_type != "make"@,
        swift_project(dir).project_type != "make"@,
        typescript_project(dir).project_type != "make"@,
        cmake_project(dir).project_type != "make"@,
        docker_project(dir).project_type != "make"@,
        dotnet_project(dir).project_type != "make"@,
        python_project(dir).project_type != "make"@,
{
    reveal_strlit("make");
    reveal_strlit("rust");
    reveal_strlit("go");
    reveal_strlit("swift");
    reveal_strlit("typescript");
    reveal_strlit("cmake");
    reveal_strlit("docker");
    reveal_strlit("dotnet");
    reveal_strlit("python");
    assert("make"@[0] == 'm');
    assert("rust"@[0] != 'm');
    assert("go"@[0] != 'm');
    assert("swift"@[0] != 'm');
    assert("typescript"@[0] != 'm');
    assert("cmake"@[0] != 'm');
    assert("docker"@[0] != 'm');
    assert("dotnet"@[0] != 'm');
    assert("python"@[0] != 'm');
}

proof fn lemma_when_no_make(c: bool, x: DetectedView)
    requires
        x.project_type != "make"@,
    ensures
        no_make(when(c, x)),
{
}

proof fn lemma_concat_no_make(a: Seq<DetectedView>, b: Seq<DetectedView>)
    requires
        no_make(a),
        no_make(b),
    ensures
        no_make(a + b),
{
    assert forall|i: int| 0 <= i < (a + b).len() implies #[trigger] (a + b)[i].project_type != "make"@ by {
        if i < a.len() {
            assert((a + b)[i] == a[i]);
        } else {
            assert((a + b)[i] == b[i - a.len()]);
        }
    }
}

/// A plain Makefile project is detected only when no more specific build
/// system (Rust, Go, Swift, TypeScript, CMake) is.
pub proof fn law_make_only_without_specific_system(
    dir_name: Option<Seq<char>>,
    present: Seq<Seq<char>>,
    entries: Seq<Seq<char>>,
)
    ensures
        !no_make(detect_spec(dir_name, present, entries)) ==> {
            &&& !seq_has(present, "Cargo.toml"@)
            &&& !seq_has(present, "go.mod"@)
            &&& !seq_has(present, "Package.swift"@)
            &&& !(seq_has(present, "package.json"@) && seq_has(present, "tsconfig.json"@))
            &&& !seq_has(present, "CMakeLists.txt"@)
        },
{
    let dir = project_name(dir_name);
    lemma_specific_types(dir);
    let a1 = when(seq_has(present, "Cargo.toml"@), rust_project(dir));
    let a2 = when(seq_has(present, "go.mod"@), go_project(dir));
    let a3 = when(seq_has(present, "Package.swift"@), swift_project(dir));
    let a4 = when(seq_has(present, "package.json"@) && seq_has(present, "tsconfig.json"@), typescript_project(dir));
    let a5 = when(seq_has(present, "CMakeLists.txt"@), cmake_project(dir));
    let b1 = when(seq_has(present, "Dockerfile"@), docker_project(dir));
    let b2 = when(exists|i: int| 0 <= i < entries.len() && #[trigger] is_dotnet_file(entries[i]), dotnet_project(dir));
    let b3 = when(seq_has(present, "pyproject.toml"@) || seq_has(present, "setup.py"@), python_project(dir));
    lemma_when_no_make(seq_has(present, "Cargo.toml"@), rust_project(dir));
    lemma_when_no_make(seq_has(present, "go.mod"@), go_project(dir));
    lemma_when_no_make(seq_has(present, "Package.swift"@), swift_project(dir));
    lemma_when_no_make(seq_has(present, "package.json"@) && seq_has(present, "tsconfig.json"@), typescript_project(dir));
    lemma_when_no_make(seq_has(present, "CMakeLists.txt"@), cmake_project(dir));
    lemma_when_no_make(seq_has(present, "Dockerfile"@), docker_project(dir));
    lemma_when_no_make(exists|i: int| 0 <= i < entries.len() && #[trigger] is_dotnet_file(entries[i]), dotnet_project(dir));
    lemma_when_no_make(seq_has(present, "pyproject.toml"@) || seq_has(present, "setup.py"@), python_project(dir));
    lemma_concat_no_make(a1, a2);
    lemma_concat_no_make(a1 + a2, a3);
    lemma_concat_no_make(a1 + a2 + a3, a4);
    lemma_concat_no_make(a1 + a2 + a3 + a4, a5);
    let first = a1 + a2 + a3 + a4 + a5;
    if first.len() > 0 {
        let m = when(
            (seq_has(present, "Makefile"@) || seq_has(present, "makefile"@)) && first.len() == 0,
            make_project(dir),
        );
        assert(m.len() == 0);
        assert(no_make(m));
        lemma_concat_no_make(first, m);
        lemma_concat_no_make(first + m, b1);
        lemma_concat_no_make(first + m + b1, b2);
        lemma_concat_no_make(first + m + b1 + b2, b3);
        assert(detect_spec(dir_name, present, entries) == first + m + b1 + b2 + b3);
    }
}


/// A project whose only build markers are a Makefile (`Makefile` or
/// `makefile`) and no more specific build system (Rust, Go, Swift,
/// TypeScript, CMake) is detected as a Make project named after its
/// directory, built with `make`.
pub proof fn law_make_detected_alone(
    dir_name: Option<Seq<char>>,
    present: Seq<Seq<char>>,
    entries: Seq<Seq<char>>,
)
    requires
        present.contains("Makefile"@) || present.contains("makefile"@),
        !present.contains("Cargo.toml"@),
        !present.contains("go.mod"@),
        !present.contains("Package.swift"@),
        !(present.contains("package.json"@) && present.contains("tsconfig.json"@)),
        !present.contains("CMakeLists.txt"@),
    ensures
        exists|i: int|
            0 <= i < detect_spec(dir_name, present, entries).len() && #[trigger] detect_spec(
                dir_name,
                present,
                entries,
            )[i] == (DetectedView {
                project_type: "make"@,
                name: match dir_name {
                    Some(n) => n,
                    None => "project"@,
                },
                build_command: "make"@,
                output_path: None,
                watch_extensions: Seq::empty(),
                exclude_paths: Seq::empty(),
            }),
{
    let d = detect_spec(dir_name, present, entries);
    let dir = project_name(dir_name);
    assert(seq_has(present, "Makefile"@) || seq_has(present, "makefile"@));
    assert(!seq_has(present, "Cargo.toml"@));
    assert(!seq_has(present, "go.mod"@));
    assert(!seq_has(present, "Package.swift"@));
    assert(!(seq_has(present, "package.json"@) && seq_has(present, "tsconfig.json"@)));
    assert(!seq_has(present, "CMakeLists.txt"@));
    assert(d[0] == make_project(dir));
}

} // verus!
