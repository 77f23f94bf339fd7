//! What a hook is handed and what it answers.

use vstd::prelude::*;

verus! {

/// The part of a hook's payload that the hooks use.
#[derive(Debug)]
pub struct HookPayload {
    pub tool_name: Option<String>,
    pub tool_input: Option<ToolInput>,
    pub tool_response: Option<ToolResponse>,
    pub session_id: Option<String>,
    pub cwd: Option<String>,
}

/// The input of the tool that ran.
#[derive(Debug)]
pub struct ToolInput {
    pub command: Option<String>,
}

/// The outcome of the tool that ran.
#[derive(Debug)]
pub struct ToolResponse {
    pub exit_code: Option<i64>,
    pub stdout: Option<String>,
    pub stderr: Option<String>,
}

/// The answer of a post-hook: a decision, and a message if there is something to say.
#[derive(Debug)]
pub struct PostHookOutput {
    pub decision: Option<String>,
    pub system_message: Option<String>,
}

/// What a [`PostHookOutput`] holds.
pub struct OutputView {
    pub decision: Option<Seq<char>>,
    pub system_message: Option<Seq<char>>,
}

impl DeepView for PostHookOutput {
    type V = OutputView;

    open spec fn deep_view(&self) -> OutputView {
        OutputView {
            decision: self.decision.deep_view(),
            system_message: self.system_message.deep_view(),
        }
    }
}

/// The answer that allows and says `message`.
pub open spec fn says(message: Seq<char>) -> OutputView {
    OutputView { decision: Some("allow"@), system_message: Some(message) }
}

/// The answer that allows and says nothing.
pub open spec fn says_nothing() -> OutputView {
    OutputView { decision: Some("allow"@), system_message: None }
}

impl PostHookOutput {
    /// The answer that allows and says `msg`.
    pub fn allow_with_message(msg: String) -> (r: Self)
        ensures
            r.deep_view() == says(msg@),
    {
        PostHookOutput { decision: Some("allow".to_owned()), system_message: Some(msg) }
    }

    /// The answer that allows and says nothing.
    pub fn silent() -> (r: Self)
        ensures
            r.deep_view() == says_nothing(),
    {
        PostHookOutput { decision: Some("allow".to_owned()), system_message: None }
    }
}

/// An answer allows, and says what it is given to say, or nothing.
pub proof fn law_answers(message: Seq<char>)
    ensures
        says(message).decision == Some("allow"@),
        says(message).system_message == Some(message),
        says_nothing().decision == Some("allow"@),
        says_nothing().system_message is None,
{
}

/// What contracts see of an answer is what it holds.
pub proof fn law_seen_as_held(output: PostHookOutput)
    ensures
        output.deep_view().decision == output.decision.deep_view(),
        output.deep_view().system_message == output.system_message.deep_view(),
{
}

} // verus!
