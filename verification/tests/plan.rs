use cargo_run_wasm::cli::Args;
use cargo_run_wasm::plan::plan;

fn args_of(tokens: &[&str]) -> Args {
    Args::from_env(tokens.iter().map(|t| t.to_string()).collect()).unwrap()
}

#[test]
fn debug_package_is_found_below_debug() {
    let plan = plan("/ws", &args_of(&["demo"]));
    assert_eq!(
        plan.artifact_path(),
        "/ws/target/wasm-examples-target/wasm32-unknown-unknown/debug/demo.wasm"
    );
    assert!(!plan.artifact_path().contains("examples/"));
    assert!(!plan.artifact_path().contains("/release/"));
}

#[test]
fn release_example_is_found_below_release_examples() {
    let plan = plan("/ws", &args_of(&["--release", "--example", "demo"]));
    assert_eq!(
        plan.artifact_path(),
        "/ws/target/wasm-examples-target/wasm32-unknown-unknown/release/examples/demo.wasm"
    );
    assert!(plan.artifact_path().ends_with("/release/examples/demo.wasm"));
}

#[test]
fn debug_example_and_release_package() {
    assert_eq!(
        plan("r", &args_of(&["--example", "e"])).artifact_path(),
        "r/target/wasm-examples-target/wasm32-unknown-unknown/debug/examples/e.wasm"
    );
    assert_eq!(
        plan("r", &args_of(&["--release", "p"])).artifact_path(),
        "r/target/wasm-examples-target/wasm32-unknown-unknown/release/p.wasm"
    );
}

#[test]
fn site_is_staged_below_the_site_directory() {
    let plan = plan("/home/me/ws", &args_of(&["--release", "widget"]));
    assert_eq!(plan.staging_dir(), "/home/me/ws/target/wasm-examples/widget");
}

#[test]
fn compiler_is_called_for_a_package() {
    let plan = plan("/ws", &args_of(&["mycrate"]));
    assert_eq!(
        plan.compiler_args(),
        &[
            "build",
            "--target",
            "wasm32-unknown-unknown",
            "--target-dir",
            "target/wasm-examples-target",
            "--package",
            "mycrate"
        ]
    );
}

#[test]
fn compiler_is_called_with_features_then_release() {
    let plan = plan(
        "/ws",
        &args_of(&["--release", "--features", "a,b", "mycrate"]),
    );
    assert_eq!(
        plan.compiler_args(),
        &[
            "build",
            "--target",
            "wasm32-unknown-unknown",
            "--target-dir",
            "target/wasm-examples-target",
            "--package",
            "mycrate",
            "--features",
            "a,b",
            "--release"
        ]
    );
}

#[test]
fn compiler_is_called_for_an_example() {
    let plan = plan("/ws", &args_of(&["--example", "--features", "f", "ex"]));
    assert_eq!(
        plan.compiler_args(),
        &[
            "build",
            "--target",
            "wasm32-unknown-unknown",
            "--target-dir",
            "target/wasm-examples-target",
            "--example",
            "ex",
            "--features",
            "f"
        ]
    );
}

#[test]
fn host_port_and_build_only_do_not_reach_the_compiler() {
    let plain = plan("/ws", &args_of(&["unit"]));
    let served = plan(
        "/ws",
        &args_of(&["--host", "h", "--port", "1", "--build-only", "unit"]),
    );
    assert_eq!(plain, served);
}

#[test]
fn planning_twice_gives_the_same_plan() {
    let args = args_of(&["--release", "--example", "--features", "a", "demo"]);
    assert_eq!(plan("/ws", &args), plan("/ws", &args));
}

#[test]
fn empty_root_gives_paths_from_the_top() {
    let plan = plan("", &args_of(&["demo"]));
    assert_eq!(plan.staging_dir(), "/target/wasm-examples/demo");
}
