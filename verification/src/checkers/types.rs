//! What a checker is given and what it says.

use vstd::prelude::*;

use crate::verdict::Verdict;

verus! {

/// The score a checker gives. A partial score is kept as the checker wrote it.
#[derive(Debug, Clone, PartialEq, Eq)]
pub enum CheckerScore {
    Zero,
    Full,
    Written(String),
}

/// A checker's word on one output.
#[derive(Debug, Clone, PartialEq, Eq)]
pub struct CheckerVerdict {
    pub verdict: Verdict,
    pub score: CheckerScore,
    pub message: Option<String>,
}

/// Accepted, with the full score and nothing to say.
pub open spec fn says_accepted(v: CheckerVerdict) -> bool {
    v.verdict is Accepted && v.score is Full && v.message is None
}

/// Rejected with this verdict, no points and this message.
pub open spec fn says_zero(v: CheckerVerdict, verdict: Verdict, message: Option<Seq<char>>) -> bool {
    &&& v.verdict == verdict
    &&& v.score is Zero
    &&& message_is(v.message, message)
}

pub open spec fn message_is(m: Option<String>, text: Option<Seq<char>>) -> bool {
    match (m, text) {
        (Some(s), Some(t)) => s@ == t,
        (None, None) => true,
        _ => false,
    }
}

/// A wrong answer with this message.
pub open spec fn says_wrong(v: CheckerVerdict, message: Seq<char>) -> bool {
    says_zero(v, Verdict::WrongAnswer, Some(message))
}

pub(crate) fn accepted() -> (r: CheckerVerdict)
    ensures
        says_accepted(r),
{
    CheckerVerdict { verdict: Verdict::Accepted, score: CheckerScore::Full, message: None }
}

pub(crate) fn wrong(message: String) -> (r: CheckerVerdict)
    ensures
        says_wrong(r, message@),
{
    CheckerVerdict {
        verdict: Verdict::WrongAnswer,
        score: CheckerScore::Zero,
        message: Some(message),
    }
}

pub(crate) fn zero(verdict: Verdict, message: Option<String>) -> (r: CheckerVerdict)
    ensures
        r.verdict == verdict,
        r.score is Zero,
        r.message == message,
{
    CheckerVerdict { verdict, score: CheckerScore::Zero, message }
}

/// A named text file.
#[derive(Debug, Clone, PartialEq, Eq)]
pub struct SourceFile {
    pub filename: String,
    pub content: String,
}

/// A file that a judge holds: its text, or where it is stored, or nothing.
#[derive(Debug, Clone, PartialEq, Eq)]
pub enum JudgeFile {
    Missing,
    Inline { text: String },
    Blob { hash: String },
}

impl JudgeFile {
    /// The text of the file, empty where it is not held as text.
    pub open spec fn inline_view(self) -> Seq<char> {
        match self {
            JudgeFile::Inline { text } => text@,
            _ => Seq::empty(),
        }
    }

    pub fn inline(text: &str) -> (r: JudgeFile)
        ensures
            r matches JudgeFile::Inline { text: t } && t@ == text@,
    {
        JudgeFile::Inline { text: text.to_owned() }
    }

    pub fn inline_text(&self) -> (r: String)
        ensures
            r@ == self.inline_view(),
    {
        match self {
            JudgeFile::Inline { text } => text.clone(),
            _ => String::new(),
        }
    }
}

/// What a checker compares.
#[derive(Debug, Clone, PartialEq, Eq)]
pub struct CheckerParseInput {
    pub stdout: JudgeFile,
    pub stderr: String,
    pub exit_code: i32,
    pub expected_output: JudgeFile,
    pub test_input: JudgeFile,
    pub checker_source: Option<Vec<SourceFile>>,
}

impl CheckerParseInput {
    /// The output that was produced.
    pub open spec fn actual(self) -> Seq<char> {
        self.stdout.inline_view()
    }

    /// The output that was asked for.
    pub open spec fn expected(self) -> Seq<char> {
        self.expected_output.inline_view()
    }
}

} // verus!
