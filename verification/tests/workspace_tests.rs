use job_runner::mode::{parse_mode, RunMode};
use job_runner::workspace::workspace_plan;

#[test]
fn run_mode_plan_targets_the_program_entry() {
    let src = "fn main(){ println!(\"hi\"); }";
    let plan = workspace_plan(src.to_string(), RunMode::Run);
    assert_eq!(plan.manifest_path, "Cargo.toml");
    assert_eq!(plan.src_dir, "src");
    assert_eq!(plan.entry_path, "src/main.rs");
    assert_eq!(plan.subcommand, "run");
    assert_eq!(plan.source, src);
    assert_eq!(
        plan.manifest,
        "[package]\nname = \"user_code\"\nversion = \"0.1.0\"\nedition = \"2021\"\n\n[dependencies]\n"
    );
}

#[test]
fn test_mode_plan_targets_the_library_entry() {
    let src = "#[test] fn t(){ assert!(true); }";
    let plan = workspace_plan(src.to_string(), RunMode::Test);
    assert_eq!(plan.entry_path, "src/lib.rs");
    assert_eq!(plan.subcommand, "test");
    assert_eq!(plan.source, src);
}

#[test]
fn source_is_written_verbatim_even_when_odd() {
    let src = "\tweird\r\n  indentation \u{1F980} and unicode";
    let plan = workspace_plan(src.to_string(), RunMode::Run);
    assert_eq!(plan.source, src);
}

#[test]
fn mode_string_parses_with_run_as_default() {
    assert_eq!(parse_mode("test"), RunMode::Test);
    assert_eq!(parse_mode("run"), RunMode::Run);
    assert_eq!(parse_mode(""), RunMode::Run);
    assert_eq!(parse_mode("TEST"), RunMode::Run);
    assert_eq!(parse_mode("anything else"), RunMode::Run);
}
