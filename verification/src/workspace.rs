//! Layout of the transient project materialized for one job: which files to
//! write with which contents, and which build-tool subcommand to invoke.
//! The filesystem writes themselves are the embedding program's task.
use vstd::prelude::*;
use crate::mode::RunMode;

verus! {

/// Everything the embedding program must put on disk for one job, plus the
/// build-tool subcommand to run against it.  `entry_path` is relative to the
/// freshly created workspace directory; `source` is the client's snippet,
/// to be written verbatim.
#[derive(Debug, Clone)]
pub struct WorkspacePlan {
    pub manifest_path: String,
    pub manifest: String,
    pub src_dir: String,
    pub entry_path: String,
    pub source: String,
    pub subcommand: String,
}

/// The manifest of the generated project: a package with no dependencies.
pub open spec fn manifest_text() -> Seq<char> {
    "[package]\nname = \"user_code\"\nversion = \"0.1.0\"\nedition = \"2021\"\n\n[dependencies]\n"@
}

/// The entry file for a mode: an executable entry for `Run`, a library entry
/// for `Test` so the test harness discovers the snippet's tests.
pub open spec fn entry_path_for(mode: RunMode) -> Seq<char> {
    match mode {
        RunMode::Run => "src/main.rs"@,
        RunMode::Test => "src/lib.rs"@,
    }
}

/// The build-tool subcommand for a mode.
pub open spec fn subcommand_for(mode: RunMode) -> Seq<char> {
    match mode {
        RunMode::Run => "run"@,
        RunMode::Test => "test"@,
    }
}

/// Whether a plan is exactly the one prescribed for `source` and `mode`.
pub open spec fn plan_matches(plan: WorkspacePlan, source: Seq<char>, mode: RunMode) -> bool {
    &&& plan.manifest_path@ == "Cargo.toml"@
    &&& plan.manifest@ == manifest_text()
    &&& plan.src_dir@ == "src"@
    &&& plan.entry_path@ == entry_path_for(mode)
    &&& plan.source@ == source
    &&& plan.subcommand@ == subcommand_for(mode)
}

/// Builds the plan of the workspace for one job: the fixed no-dependency
/// manifest, and the snippet written verbatim into the entry file that the
/// mode selects.
pub fn workspace_plan(source: String, mode: RunMode) -> (plan: WorkspacePlan)
    ensures
        plan_matches(plan, source@, mode),
{
    let manifest =
        "[package]\nname = \"user_code\"\nversion = \"0.1.0\"\nedition = \"2021\"\n\n[dependencies]\n".to_owned();
    let entry_path = match mode {
        RunMode::Run => "src/main.rs".to_owned(),
        RunMode::Test => "src/lib.rs".to_owned(),
    };
    let subcommand = match mode {
        RunMode::Run => "run".to_owned(),
        RunMode::Test => "test".to_owned(),
    };
    WorkspacePlan {
        manifest_path: "Cargo.toml".to_owned(),
        manifest,
        src_dir: "src".to_owned(),
        entry_path,
        source,
        subcommand,
    }
}

} // verus!
