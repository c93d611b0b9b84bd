//! A checker as steps that a worker runs.

use vstd::prelude::*;

use crate::checkers::types::JudgeFile;

verus! {

/// A time limit in seconds: a whole number of them, or what a configuration
/// gives.
#[derive(Debug, Clone, Copy, PartialEq, Eq)]
pub enum Seconds<T> {
    Whole(u32),
    Given(T),
}

/// What a step may use. `None` leaves the limit to the worker.
#[derive(Debug, Clone, Copy, PartialEq, Eq)]
pub struct ResourceLimits<T> {
    pub time_limit: Option<Seconds<T>>,
    pub wall_time_limit: Option<Seconds<T>>,
    pub memory_limit: Option<u32>,
    pub process_limit: Option<u32>,
}

/// Where a stream of a step comes from or goes to.
#[derive(Debug, Clone, PartialEq, Eq)]
pub enum IOTarget {
    Null,
    Pipe { name: String },
    File { path: String },
}

#[derive(Debug, Clone, PartialEq, Eq)]
pub struct IOConfig {
    pub stdin: IOTarget,
    pub stdout: IOTarget,
    pub stderr: IOTarget,
}

#[derive(Debug, Clone, Copy, PartialEq, Eq, Structural)]
pub enum StepKind {
    Checker,
    CheckerCompile,
}

/// What a step sees besides its own environment.
#[derive(Debug, Clone, PartialEq, Eq)]
pub enum MountSource {
    PlatformTool { name: String },
    StepOutput { from_step: String, file: String },
}

#[derive(Debug, Clone, PartialEq, Eq)]
pub struct MountSpec {
    pub inside_path: String,
    pub source: MountSource,
}

#[derive(Debug, Clone, PartialEq, Eq)]
pub struct StepCacheConfig {
    pub key_inputs: Vec<String>,
    pub outputs: Vec<String>,
}

#[derive(Debug, Clone, PartialEq, Eq)]
pub struct Step<T> {
    pub id: String,
    pub kind: StepKind,
    pub env_ref: String,
    pub argv: Vec<String>,
    pub limits: ResourceLimits<T>,
    pub io: IOConfig,
    pub collect: Vec<String>,
    pub depends_on: Vec<String>,
    pub cache: Option<StepCacheConfig>,
    pub mounts: Vec<MountSpec>,
}

/// A file of an environment: its content, or where it is stored.
#[derive(Debug, Clone, PartialEq, Eq)]
pub enum SessionFile {
    Content { content: String },
    Blob { hash: String },
}

#[derive(Debug, Clone, PartialEq, Eq)]
pub struct Environment {
    pub id: String,
    pub files_in: Vec<(String, SessionFile)>,
}

/// How the output of a solution reaches its checker.
#[derive(Debug, Clone, PartialEq, Eq)]
pub enum OutputMode {
    Stream { channel: String },
    File { name: String },
}

#[derive(Debug, Clone, PartialEq, Eq)]
pub struct CheckerStage<T> {
    pub checker_env: Environment,
    pub steps: Vec<Step<T>>,
    pub output_mode: OutputMode,
    pub result_step_id: String,
}

/// What a checker is resolved from. The tolerances are decimal numerals.
#[derive(Debug, Clone, PartialEq, Eq)]
pub struct ResolveCheckerInput {
    pub format: String,
    pub answer: JudgeFile,
    pub test_input: JudgeFile,
    pub problem_id: Option<i32>,
    pub abs_tol: Option<String>,
    pub rel_tol: Option<String>,
    pub output_binding: OutputMode,
}

/// The small result that a check step leaves.
#[derive(Debug, Clone, PartialEq, Eq)]
pub struct CheckerSmallResult {
    pub exit_code: Option<i32>,
    pub stderr: String,
    pub sandbox_status: Option<String>,
}

pub open spec fn writes_to(t: IOTarget, path: Seq<char>) -> bool {
    t matches IOTarget::File { path: p } && p@ == path
}

pub open spec fn reads_pipe(t: IOTarget, name: Seq<char>) -> bool {
    t matches IOTarget::Pipe { name: n } && n@ == name
}

/// The session file that holds what a judge file holds.
pub open spec fn session_file_is(s: SessionFile, file: JudgeFile) -> bool {
    match file {
        JudgeFile::Blob { hash } => s matches SessionFile::Blob { hash: h } && h@ == hash@,
        _ => holds_text(s, file.inline_view()),
    }
}

pub open spec fn holds_text(s: SessionFile, text: Seq<char>) -> bool {
    s matches SessionFile::Content { content } && content@ == text
}

pub fn judge_file_to_session_file(file: &JudgeFile) -> (r: SessionFile)
    ensures
        session_file_is(r, *file),
{
    match file {
        JudgeFile::Blob { hash } => SessionFile::Blob { hash: hash.clone() },
        JudgeFile::Inline { text } => SessionFile::Content { content: text.clone() },
        JudgeFile::Missing => {
            let content = String::new();
            assert(content@ =~= Seq::<char>::empty());
            SessionFile::Content { content }
        },
    }
}

} // verus!
