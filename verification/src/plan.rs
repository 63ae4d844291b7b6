use crate::cli::{Args, ArgsView};
use vstd::prelude::*;
use vstd::string::*;

verus! {

/// The subcommand of the compiler that builds a unit.
pub const BUILD: &'static str = "build";

/// The target that the compiler builds for.
pub const TARGET: &'static str = "wasm32-unknown-unknown";

/// Where the compiler puts what it builds, below the workspace root. It is a
/// tree of its own, so that a build for the web and a native build do not
/// undo each other's work.
pub const TARGET_DIR: &'static str = "target/wasm-examples-target";

/// Where the sites are staged, below the workspace root.
pub const SITE_DIR: &'static str = "target/wasm-examples";

/// What the compiler is to be called with, what it will then have written, and
/// where the site is to be staged.
pub struct BuildPlanView {
    pub compiler_args: Seq<Seq<char>>,
    pub artifact_path: Seq<char>,
    pub staging_dir: Seq<char>,
}

/// The directory of the compiler's output tree that belongs to the profile.
pub open spec fn profile_dir(release: bool) -> Seq<char> {
    if release {
        "release"@
    } else {
        "debug"@
    }
}

/// The flag that selects the unit: an example, or a package.
pub open spec fn unit_flag(example: bool) -> Seq<char> {
    if example {
        "--example"@
    } else {
        "--package"@
    }
}

/// The arguments of the compiler: the subcommand, the target, the output tree,
/// the unit, then the feature list and the release flag where they are asked
/// for.
pub open spec fn compiler_args(args: ArgsView) -> Seq<Seq<char>> {
    seq![
        BUILD@,
        "--target"@,
        TARGET@,
        "--target-dir"@,
        TARGET_DIR@,
        unit_flag(args.example),
        args.name,
    ] + (match args.features {
        Some(list) => seq!["--features"@, list],
        None => Seq::empty(),
    }) + (if args.release {
        seq!["--release"@]
    } else {
        Seq::empty()
    })
}

/// The directory in which the compiler leaves the binary of a unit.
pub open spec fn artifact_dir(root: Seq<char>, args: ArgsView) -> Seq<char> {
    let profile = root + "/"@ + TARGET_DIR@ + "/"@ + TARGET@ + "/"@ + profile_dir(args.release);
    if args.example {
        profile + "/examples"@
    } else {
        profile
    }
}

/// The file in which the compiler leaves the binary of a unit.
pub open spec fn artifact_path(root: Seq<char>, args: ArgsView) -> Seq<char> {
    artifact_dir(root, args) + "/"@ + args.name + ".wasm"@
}

/// The directory in which the site of a unit is staged.
pub open spec fn staging_dir(root: Seq<char>, args: ArgsView) -> Seq<char> {
    root + "/"@ + SITE_DIR@ + "/"@ + args.name
}

/// The plan for a configuration in a workspace.
pub open spec fn build_plan(root: Seq<char>, args: ArgsView) -> BuildPlanView {
    BuildPlanView {
        compiler_args: compiler_args(args),
        artifact_path: artifact_path(root, args),
        staging_dir: staging_dir(root, args),
    }
}

/// The plan of one run.
#[derive(Clone, Debug, PartialEq, Eq)]
pub struct BuildPlan {
    compiler_args: Vec<String>,
    artifact_path: String,
    staging_dir: String,
}

impl View for BuildPlan {
    type V = BuildPlanView;

    closed spec fn view(&self) -> BuildPlanView {
        BuildPlanView {
            compiler_args: self.compiler_args.deep_view(),
            artifact_path: self.artifact_path@,
            staging_dir: self.staging_dir@,
        }
    }
}

/// The arguments of the compiler for `args`.
fn plan_compiler_args(args: &Args) -> (list: Vec<String>)
    ensures
        list.deep_view() == compiler_args(args@),
{
    let mut list: Vec<String> = Vec::new();
    list.push(String::from_str(BUILD));
    list.push(String::from_str("--target"));
    list.push(String::from_str(TARGET));
    list.push(String::from_str("--target-dir"));
    list.push(String::from_str(TARGET_DIR));
    if args.example() {
        list.push(String::from_str("--example"));
    } else {
        list.push(String::from_str("--package"));
    }
    list.push(String::from_str(args.name()));
    let ghost base = list.deep_view();
    assert(base =~= seq![
        BUILD@,
        "--target"@,
        TARGET@,
        "--target-dir"@,
        TARGET_DIR@,
        unit_flag(args@.example),
        args@.name,
    ]);
    match args.features() {
        Some(features) => {
            list.push(String::from_str("--features"));
            list.push(String::from_str(features));
            assert(list.deep_view() =~= base + seq!["--features"@, features@]);
        },
        None => {
            assert(list.deep_view() =~= base + Seq::<Seq<char>>::empty());
        },
    }
    let ghost with_features = list.deep_view();
    if args.release() {
        list.push(String::from_str("--release"));
        assert(list.deep_view() =~= with_features + seq!["--release"@]);
    } else {
        assert(list.deep_view() =~= with_features + Seq::<Seq<char>>::empty());
    }
    list
}

/// Plans the run of `args` in the workspace at `workspace_root`: nothing is
/// read and nothing is written.
pub fn plan(workspace_root: &str, args: &Args) -> (plan: BuildPlan)
    ensures
        plan@ == build_plan(workspace_root@, args@),
{
    let compiler_args = plan_compiler_args(args);
    let mut artifact_path = String::from_str(workspace_root);
    artifact_path.append("/");
    artifact_path.append(TARGET_DIR);
    artifact_path.append("/");
    artifact_path.append(TARGET);
    artifact_path.append("/");
    if args.release() {
        artifact_path.append("release");
    } else {
        artifact_path.append("debug");
    }
    if args.example() {
        artifact_path.append("/examples");
    }
    artifact_path.append("/");
    artifact_path.append(args.name());
    artifact_path.append(".wasm");
    let mut staging_dir = String::from_str(workspace_root);
    staging_dir.append("/");
    staging_dir.append(SITE_DIR);
    staging_dir.append("/");
    staging_dir.append(args.name());
    BuildPlan { compiler_args, artifact_path, staging_dir }
}

/// Planning is a function of the workspace root and the configuration: two
/// plans for the same root and the same configuration are the same.
pub proof fn lemma_plan_is_determined(
    root: Seq<char>,
    args: ArgsView,
    first: BuildPlanView,
    second: BuildPlanView,
)
    requires
        first == build_plan(root, args),
        second == build_plan(root, args),
    ensures
        first == second,
{
}

impl BuildPlan {
    /// The arguments that the compiler is to be called with.
    pub fn compiler_args(&self) -> (list: &Vec<String>)
        ensures
            list.deep_view() == self@.compiler_args,
    {
        &self.compiler_args
    }

    /// The file that the compiler will have written.
    pub fn artifact_path(&self) -> (path: &str)
        ensures
            path@ == self@.artifact_path,
    {
        self.artifact_path.as_str()
    }

    /// The directory in which the site is to be staged.
    pub fn staging_dir(&self) -> (path: &str)
        ensures
            path@ == self@.staging_dir,
    {
        self.staging_dir.as_str()
    }
}

} // verus!
