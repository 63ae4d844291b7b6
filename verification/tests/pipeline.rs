use cargo_run_wasm::cli::{ConfigError, ValueOption};
use cargo_run_wasm::page::{render_page, GuardError};
use cargo_run_wasm::pipeline::{Action, Outcome, Refusal, Run, Stage};

fn line(tokens: &[&str]) -> Vec<String> {
    tokens.iter().map(|t| t.to_string()).collect()
}

fn begun(tokens: &[&str], css: &str) -> (Run, Action) {
    match Run::begin("/ws", line(tokens), css) {
        Ok(pair) => pair,
        Err(refusal) => panic!("{:?}", refusal),
    }
}

fn refused(tokens: &[&str], css: &str) -> Refusal {
    match Run::begin("/ws", line(tokens), css) {
        Ok((_, action)) => panic!("{:?}", action),
        Err(refusal) => refusal,
    }
}

#[test]
fn closing_style_tag_ends_the_run_before_it_begins() {
    assert_eq!(
        refused(&["demo"], "a{}</style><b>"),
        Refusal::Guard(GuardError::StyleEnd)
    );
}

#[test]
fn style_sheet_is_looked_at_before_the_command_line() {
    assert_eq!(
        refused(&["--bogus"], "</style>"),
        Refusal::Guard(GuardError::StyleEnd)
    );
    assert_eq!(refused(&[], "</style>"), Refusal::Guard(GuardError::StyleEnd));
}

#[test]
fn bad_command_line_ends_the_run_before_it_begins() {
    assert_eq!(refused(&[], ""), Refusal::Config(ConfigError::MissingName));
    assert_eq!(refused(&[""], ""), Refusal::Config(ConfigError::MissingName));
    assert_eq!(
        refused(&["a", "b"], ""),
        Refusal::Config(ConfigError::TooManyArgs(line(&["a", "b"])))
    );
    assert_eq!(
        refused(&["-q", "a"], ""),
        Refusal::Config(ConfigError::UnknownOption("-q".to_string()))
    );
    assert_eq!(
        refused(&["a", "--host"], ""),
        Refusal::Config(ConfigError::MalformedOption(ValueOption::Host))
    );
}

#[test]
fn run_begins_with_the_compiler() {
    let (run, action) = begun(&["--release", "--features", "a,b", "mycrate"], "");
    assert_eq!(run.stage(), Stage::Compiling);
    assert_eq!(
        action,
        Action::Compile {
            args: line(&[
                "build",
                "--target",
                "wasm32-unknown-unknown",
                "--target-dir",
                "target/wasm-examples-target",
                "--package",
                "mycrate",
                "--features",
                "a,b",
                "--release"
            ]),
            working_dir: "/ws".to_string(),
        }
    );
    assert_eq!(run.args().name(), "mycrate");
    assert_eq!(run.plan().staging_dir(), "/ws/target/wasm-examples/mycrate");
}

#[test]
fn build_only_run_stages_the_site_and_never_serves() {
    let (run, action) = begun(&["--build-only", "widget"], "body{margin:0}");
    assert!(matches!(action, Action::Compile { .. }));
    let (run, action) = run.advance(true);
    assert_eq!(
        action,
        Action::CreateDir { path: "/ws/target/wasm-examples/widget".to_string() }
    );
    let (run, action) = run.advance(true);
    assert_eq!(
        action,
        Action::Bindgen {
            input: "/ws/target/wasm-examples-target/wasm32-unknown-unknown/debug/widget.wasm"
                .to_string(),
            out_dir: "/ws/target/wasm-examples/widget".to_string(),
            web: true,
            omit_default_module_path: false,
        }
    );
    let (run, action) = run.advance(true);
    assert_eq!(
        action,
        Action::WritePage {
            path: "/ws/target/wasm-examples/widget/index.html".to_string(),
            content: render_page("widget", "body{margin:0}"),
        }
    );
    let (run, action) = run.advance(true);
    assert_eq!(action, Action::Finish(Outcome::Staged));
    assert_eq!(run.stage(), Stage::Over(Outcome::Staged));
    let (run, action) = run.advance(true);
    assert_eq!(action, Action::Finish(Outcome::Staged));
    let (_, action) = run.advance(false);
    assert_eq!(action, Action::Finish(Outcome::Staged));
}

#[test]
fn build_only_run_never_serves_however_its_steps_end() {
    for reports in 0..64u32 {
        let (mut run, mut action) = begun(&["--build-only", "--port", "80", "widget"], "");
        for step in 0..6 {
            assert!(!matches!(action, Action::Serve { .. }));
            assert_ne!(run.stage(), Stage::Serving);
            (run, action) = run.advance(reports & (1 << step) != 0);
        }
        assert!(matches!(action, Action::Finish(_)));
    }
}

#[test]
fn build_only_run_does_not_read_the_port() {
    let (run, _) = begun(&["--build-only", "--port", "none", "widget"], "");
    let (run, _) = run.advance(true);
    let (run, _) = run.advance(true);
    let (run, _) = run.advance(true);
    let (_, action) = run.advance(true);
    assert_eq!(action, Action::Finish(Outcome::Staged));
}

#[test]
fn run_serves_on_localhost_8000_where_nothing_is_said() {
    let (run, _) = begun(&["demo"], "");
    let (run, _) = run.advance(true);
    let (run, _) = run.advance(true);
    let (run, _) = run.advance(true);
    let (run, action) = run.advance(true);
    assert_eq!(run.stage(), Stage::Serving);
    assert_eq!(
        action,
        Action::Serve {
            host: "localhost".to_string(),
            port: 8000,
            root: "/ws/target/wasm-examples/demo".to_string(),
            reload: false,
            headers: String::new(),
        }
    );
    let (run, action) = run.advance(true);
    assert_eq!(run.stage(), Stage::Over(Outcome::Staged));
    assert_eq!(action, Action::Finish(Outcome::Staged));
}

#[test]
fn run_serves_on_the_host_and_port_that_are_given() {
    let (run, _) = begun(&["--host", "0.0.0.0", "--port", "+9001", "--example", "demo"], "");
    let (run, _) = run.advance(true);
    let (run, action) = run.advance(true);
    assert_eq!(
        action,
        Action::Bindgen {
            input: "/ws/target/wasm-examples-target/wasm32-unknown-unknown/debug/examples/demo.wasm"
                .to_string(),
            out_dir: "/ws/target/wasm-examples/demo".to_string(),
            web: true,
            omit_default_module_path: false,
        }
    );
    let (run, _) = run.advance(true);
    let (_, action) = run.advance(true);
    assert_eq!(
        action,
        Action::Serve {
            host: "0.0.0.0".to_string(),
            port: 9001,
            root: "/ws/target/wasm-examples/demo".to_string(),
            reload: false,
            headers: String::new(),
        }
    );
}

#[test]
fn bad_port_ends_the_run_when_the_site_is_staged() {
    let (run, action) = begun(&["--port", "http", "demo"], "");
    assert!(matches!(action, Action::Compile { .. }));
    let (run, action) = run.advance(true);
    assert!(matches!(action, Action::CreateDir { .. }));
    let (run, action) = run.advance(true);
    assert!(matches!(action, Action::Bindgen { .. }));
    let (run, action) = run.advance(true);
    assert!(matches!(action, Action::WritePage { .. }));
    let (run, action) = run.advance(true);
    assert_eq!(action, Action::Finish(Outcome::BadPort));
    assert_eq!(run.stage(), Stage::Over(Outcome::BadPort));
}

#[test]
fn failed_compiler_ends_the_run() {
    let (run, _) = begun(&["demo"], "");
    let (run, action) = run.advance(false);
    assert_eq!(action, Action::Finish(Outcome::CompilerFailed));
    let (_, action) = run.advance(true);
    assert_eq!(action, Action::Finish(Outcome::CompilerFailed));
}

#[test]
fn failed_step_ends_the_run() {
    let (run, _) = begun(&["demo"], "");
    let (run, _) = run.advance(true);
    let (_, action) = run.advance(false);
    assert_eq!(action, Action::Finish(Outcome::StagingFailed));

    let (run, _) = begun(&["demo"], "");
    let (run, _) = run.advance(true);
    let (run, _) = run.advance(true);
    let (_, action) = run.advance(false);
    assert_eq!(action, Action::Finish(Outcome::BindgenFailed));

    let (run, _) = begun(&["demo"], "");
    let (run, _) = run.advance(true);
    let (run, _) = run.advance(true);
    let (run, _) = run.advance(true);
    let (_, action) = run.advance(false);
    assert_eq!(action, Action::Finish(Outcome::PageFailed));
}
