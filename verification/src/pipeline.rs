use crate::cli::{resolve, Args, ArgsView, ConfigError, ConfigFault};
use crate::page::{check_css, render_page, rendered, GuardError, STYLE_END};
use crate::plan::{build_plan, plan, BuildPlan, BuildPlanView};
use crate::serve::{serve_target, target_of, ServeTargetView};
use crate::text::occurs;
use vstd::prelude::*;
use vstd::string::*;

verus! {

/// The name of the host page in the staging directory.
pub const PAGE_FILE: &'static str = "index.html";

/// How a run has ended.
#[derive(Clone, Copy, Debug, PartialEq, Eq, Structural)]
pub enum Outcome {
    /// The site stands in the staging directory, and nothing serves it.
    Staged,
    /// The compiler has failed. It has said why itself.
    CompilerFailed,
    /// The staging directory could not be made.
    StagingFailed,
    /// The bindings could not be made from the binary that was planned for.
    BindgenFailed,
    /// The host page could not be written.
    PageFailed,
    /// The port is no port.
    BadPort,
}

/// What a run waits for.
#[derive(Clone, Copy, Debug, PartialEq, Eq, Structural)]
pub enum Stage {
    /// The compiler runs.
    Compiling,
    /// The staging directory is being made.
    Staging,
    /// The bindings are being made.
    Binding,
    /// The host page is being written.
    Writing,
    /// The site is being served.
    Serving,
    /// The run is over.
    Over(Outcome),
}

/// A run as plain values.
pub struct RunView {
    pub stage: Stage,
    pub root: Seq<char>,
    pub args: ArgsView,
    pub plan: BuildPlanView,
    pub css: Seq<char>,
}

/// What is to be done next, as plain values.
pub enum ActionView {
    Compile { args: Seq<Seq<char>>, working_dir: Seq<char> },
    CreateDir { path: Seq<char> },
    Bindgen { input: Seq<char>, out_dir: Seq<char>, web: bool, omit_default_module_path: bool },
    WritePage { path: Seq<char>, content: Seq<char> },
    Serve { host: Seq<char>, port: u32, root: Seq<char>, reload: bool, headers: Seq<char> },
    Finish(Outcome),
}

/// The file of the host page in a staging directory.
pub open spec fn page_path(staging_dir: Seq<char>) -> Seq<char> {
    staging_dir + "/"@ + PAGE_FILE@
}

/// Where the site of a run is served, if its port is one.
pub open spec fn target_for(run: RunView) -> Option<ServeTargetView> {
    target_of(run.args.host, run.args.port, run.plan.staging_dir)
}

/// What a run waits for once it has heard how the step it waited for has
/// ended. A step that failed ends the run. A run that is only to build ends
/// when the page is written, and so does one whose port is no port.
pub open spec fn stage_after(run: RunView, succeeded: bool) -> Stage {
    match run.stage {
        Stage::Compiling => if succeeded {
            Stage::Staging
        } else {
            Stage::Over(Outcome::CompilerFailed)
        },
        Stage::Staging => if succeeded {
            Stage::Binding
        } else {
            Stage::Over(Outcome::StagingFailed)
        },
        Stage::Binding => if succeeded {
            Stage::Writing
        } else {
            Stage::Over(Outcome::BindgenFailed)
        },
        Stage::Writing => if !succeeded {
            Stage::Over(Outcome::PageFailed)
        } else if run.args.build_only {
            Stage::Over(Outcome::Staged)
        } else if target_for(run) is None {
            Stage::Over(Outcome::BadPort)
        } else {
            Stage::Serving
        },
        Stage::Serving => Stage::Over(Outcome::Staged),
        Stage::Over(outcome) => Stage::Over(outcome),
    }
}

/// What is to be done for a run that waits for `stage`.
pub open spec fn action_for(run: RunView, stage: Stage) -> ActionView {
    match stage {
        Stage::Compiling => ActionView::Compile {
            args: run.plan.compiler_args,
            working_dir: run.root,
        },
        Stage::Staging => ActionView::CreateDir { path: run.plan.staging_dir },
        Stage::Binding => ActionView::Bindgen {
            input: run.plan.artifact_path,
            out_dir: run.plan.staging_dir,
            web: true,
            omit_default_module_path: false,
        },
        Stage::Writing => ActionView::WritePage {
            path: page_path(run.plan.staging_dir),
            content: rendered(run.args.name, run.css),
        },
        Stage::Serving => ActionView::Serve {
            host: target_for(run).unwrap().host,
            port: target_for(run).unwrap().port,
            root: target_for(run).unwrap().root,
            reload: false,
            headers: Seq::empty(),
        },
        Stage::Over(outcome) => ActionView::Finish(outcome),
    }
}

/// The run once it has heard how the step it waited for has ended.
pub open spec fn run_after(run: RunView, succeeded: bool) -> RunView {
    RunView { stage: stage_after(run, succeeded), ..run }
}

/// The run once it has heard how each of its steps has ended, in their order.
pub open spec fn run_after_all(run: RunView, reports: Seq<bool>) -> RunView
    decreases reports.len(),
{
    if reports.len() == 0 {
        run
    } else {
        run_after(run_after_all(run, reports.drop_last()), reports.last())
    }
}

/// The run that begins in a workspace with a configuration and a style sheet.
pub open spec fn first_run(root: Seq<char>, args: ArgsView, css: Seq<char>) -> RunView {
    RunView { stage: Stage::Compiling, root, args, plan: build_plan(root, args), css }
}

/// What is to be done next.
#[derive(Clone, Debug, PartialEq, Eq)]
pub enum Action {
    /// Call the compiler with `args`, in the directory `working_dir`.
    Compile { args: Vec<String>, working_dir: String },
    /// Make the directory `path`, and those above it that are missing.
    CreateDir { path: String },
    /// Make the bindings for the binary `input` and put them in `out_dir`.
    Bindgen { input: String, out_dir: String, web: bool, omit_default_module_path: bool },
    /// Write `content` to the file `path`, in place of what it may hold.
    WritePage { path: String, content: String },
    /// Serve the directory `root` on `host` and `port`.
    Serve { host: String, port: u32, root: String, reload: bool, headers: String },
    /// Nothing: the run is over.
    Finish(Outcome),
}

impl View for Action {
    type V = ActionView;

    open spec fn view(&self) -> ActionView {
        match self {
            Action::Compile { args, working_dir } => ActionView::Compile {
                args: args.deep_view(),
                working_dir: working_dir@,
            },
            Action::CreateDir { path } => ActionView::CreateDir { path: path@ },
            Action::Bindgen { input, out_dir, web, omit_default_module_path } => {
                ActionView::Bindgen {
                    input: input@,
                    out_dir: out_dir@,
                    web: *web,
                    omit_default_module_path: *omit_default_module_path,
                }
            },
            Action::WritePage { path, content } => ActionView::WritePage {
                path: path@,
                content: content@,
            },
            Action::Serve { host, port, root, reload, headers } => ActionView::Serve {
                host: host@,
                port: *port,
                root: root@,
                reload: *reload,
                headers: headers@,
            },
            Action::Finish(outcome) => ActionView::Finish(*outcome),
        }
    }
}

/// Why no run begins.
#[derive(Clone, Debug, PartialEq, Eq)]
pub enum Refusal {
    /// The style sheet cannot be put into the page.
    Guard(GuardError),
    /// The command line gives no configuration.
    Config(ConfigError),
}

/// One run of the pipeline: it hands out one step at a time and hears how the
/// step has ended.
pub struct Run {
    stage: Stage,
    root: String,
    args: Args,
    plan: BuildPlan,
    css: String,
}

impl View for Run {
    type V = RunView;

    closed spec fn view(&self) -> RunView {
        RunView {
            stage: self.stage,
            root: self.root@,
            args: self.args@,
            plan: self.plan@,
            css: self.css@,
        }
    }
}

/// A copy of `list`.
fn copy_of(list: &Vec<String>) -> (copy: Vec<String>)
    ensures
        copy.deep_view() == list.deep_view(),
{
    let mut copy: Vec<String> = Vec::new();
    let mut i: usize = 0;
    while i < list.len()
        invariant
            i <= list.len(),
            copy@.len() == i,
            forall|j: int| 0 <= j < i ==> copy@[j]@ == list@[j]@,
        decreases list.len() - i,
    {
        copy.push(list[i].clone());
        i += 1;
    }
    assert(copy.deep_view() =~= list.deep_view());
    copy
}

impl Run {
    /// The plan is the plan for the configuration, and a run serves only where
    /// there is a port to serve on.
    #[verifier::type_invariant]
    spec fn is_planned(self) -> bool {
        &&& self.plan@ == build_plan(self.root@, self.args@)
        &&& self.stage == Stage::Serving ==> target_for(self@) is Some
    }

    /// The step that the run waits for.
    fn action(&self) -> (action: Action)
        ensures
            action@ == action_for(self@, self@.stage),
    {
        proof {
            use_type_invariant(self);
        }
        match self.stage {
            Stage::Compiling => Action::Compile {
                args: copy_of(self.plan.compiler_args()),
                working_dir: self.root.clone(),
            },
            Stage::Staging => Action::CreateDir { path: String::from_str(self.plan.staging_dir()) },
            Stage::Binding => Action::Bindgen {
                input: String::from_str(self.plan.artifact_path()),
                out_dir: String::from_str(self.plan.staging_dir()),
                web: true,
                omit_default_module_path: false,
            },
            Stage::Writing => {
                let mut path = String::from_str(self.plan.staging_dir());
                path.append("/");
                path.append(PAGE_FILE);
                Action::WritePage {
                    path,
                    content: render_page(self.args.name(), self.css.as_str()),
                }
            },
            Stage::Serving => {
                match serve_target(self.args.host(), self.args.port(), self.plan.staging_dir()) {
                    Ok(target) => Action::Serve {
                        host: target.host,
                        port: target.port,
                        root: target.root,
                        reload: false,
                        headers: String::new(),
                    },
                    Err(_) => Action::Finish(Outcome::BadPort),
                }
            },
            Stage::Over(outcome) => Action::Finish(outcome),
        }
    }

    /// Begins a run in the workspace at `workspace_root`, for the command line
    /// `raw` and the style sheet `css`. The style sheet is looked at first,
    /// the command line then; nothing has been done when either is turned
    /// down. The first step is to compile.
    pub fn begin(workspace_root: &str, raw: Vec<String>, css: &str) -> (res: Result<
        (Run, Action),
        Refusal,
    >)
        ensures
            match res {
                Ok((run, action)) => {
                    &&& !occurs(css@, STYLE_END@)
                    &&& resolve(raw.deep_view()) matches Ok(args)
                    &&& run@ == first_run(workspace_root@, args, css@)
                    &&& action@ == action_for(run@, Stage::Compiling)
                },
                Err(Refusal::Guard(_)) => occurs(css@, STYLE_END@),
                Err(Refusal::Config(e)) => !occurs(css@, STYLE_END@) && resolve(raw.deep_view())
                    == Err::<ArgsView, ConfigFault>(e@),
            },
    {
        if let Err(e) = check_css(css) {
            return Err(Refusal::Guard(e));
        }
        let args = match Args::from_env(raw) {
            Ok(args) => args,
            Err(e) => {
                return Err(Refusal::Config(e));
            },
        };
        let plan = plan(workspace_root, &args);
        let run = Run {
            stage: Stage::Compiling,
            root: String::from_str(workspace_root),
            args,
            plan,
            css: String::from_str(css),
        };
        let action = run.action();
        Ok((run, action))
    }

    /// Hears how the step that the run waited for has ended, and hands out the
    /// next one.
    pub fn advance(self, succeeded: bool) -> (res: (Run, Action))
        ensures
            res.0@ == run_after(self@, succeeded),
            res.1@ == action_for(res.0@, res.0@.stage),
    {
        proof {
            use_type_invariant(&self);
        }
        let stage = match self.stage {
            Stage::Compiling => if succeeded {
                Stage::Staging
            } else {
                Stage::Over(Outcome::CompilerFailed)
            },
            Stage::Staging => if succeeded {
                Stage::Binding
            } else {
                Stage::Over(Outcome::StagingFailed)
            },
            Stage::Binding => if succeeded {
                Stage::Writing
            } else {
                Stage::Over(Outcome::BindgenFailed)
            },
            Stage::Writing => if !succeeded {
                Stage::Over(Outcome::PageFailed)
            } else if self.args.build_only() {
                Stage::Over(Outcome::Staged)
            } else {
                match serve_target(self.args.host(), self.args.port(), self.plan.staging_dir()) {
                    Ok(_) => Stage::Serving,
                    Err(_) => Stage::Over(Outcome::BadPort),
                }
            },
            Stage::Serving => Stage::Over(Outcome::Staged),
            Stage::Over(outcome) => Stage::Over(outcome),
        };
        let run = Run { stage, root: self.root, args: self.args, plan: self.plan, css: self.css };
        let action = run.action();
        (run, action)
    }

    /// What the run waits for.
    pub fn stage(&self) -> (stage: Stage)
        ensures
            stage == self@.stage,
    {
        self.stage
    }

    /// The configuration of the run.
    pub fn args(&self) -> (args: &Args)
        ensures
            args@ == self@.args,
    {
        &self.args
    }

    /// The plan of the run.
    pub fn plan(&self) -> (plan: &BuildPlan)
        ensures
            plan@ == self@.plan,
            plan@ == build_plan(self@.root, self@.args),
    {
        proof {
            use_type_invariant(self);
        }
        &self.plan
    }
}

/// A run that is only to build never comes to serve, however its steps end.
pub proof fn lemma_build_only_never_serves(
    root: Seq<char>,
    args: ArgsView,
    css: Seq<char>,
    reports: Seq<bool>,
)
    requires
        args.build_only,
    ensures
        run_after_all(first_run(root, args, css), reports).args == args,
        run_after_all(first_run(root, args, css), reports).stage != Stage::Serving,
        !(action_for(
            run_after_all(first_run(root, args, css), reports),
            run_after_all(first_run(root, args, css), reports).stage,
        ) is Serve),
    decreases reports.len(),
{
    if reports.len() > 0 {
        lemma_build_only_never_serves(root, args, css, reports.drop_last());
    }
}

/// What a run waits for tells how it came there: a run waits for a step only
/// when every step before it has gone well, and it comes to serve only when it
/// is to serve and its port is one.
pub proof fn lemma_steps_in_order(
    root: Seq<char>,
    args: ArgsView,
    css: Seq<char>,
    reports: Seq<bool>,
)
    ensures
        ({
            let run = run_after_all(first_run(root, args, css), reports);
            &&& run == RunView { stage: run.stage, ..first_run(root, args, css) }
            &&& run.stage == Stage::Compiling <==> reports.len() == 0
            &&& run.stage == Stage::Staging ==> reports == seq![true]
            &&& run.stage == Stage::Binding ==> reports == seq![true, true]
            &&& run.stage == Stage::Writing ==> reports == seq![true, true, true]
            &&& run.stage == Stage::Serving ==> reports == seq![true, true, true, true]
                && !args.build_only && target_for(run) is Some
        }),
    decreases reports.len(),
{
    if reports.len() > 0 {
        let before = reports.drop_last();
        lemma_steps_in_order(root, args, css, before);
        assert(reports =~= before.push(reports.last()));
        let run = run_after_all(first_run(root, args, css), before);
        match run.stage {
            Stage::Compiling => {
                assert(reports =~= seq![reports.last()]);
            },
            Stage::Staging => {
                assert(seq![true].push(reports.last()) =~= seq![true, reports.last()]);
            },
            Stage::Binding => {
                assert(seq![true, true].push(reports.last()) =~= seq![true, true, reports.last()]);
            },
            Stage::Writing => {
                assert(seq![true, true, true].push(reports.last()) =~= seq![
                    true,
                    true,
                    true,
                    reports.last(),
                ]);
            },
            _ => {},
        }
    }
}

} // verus!
