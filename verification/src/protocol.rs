use vstd::prelude::*;
use vstd::string::StringExecFns;

use crate::codec::parse_proposal_json;
use crate::codec::spec_parse_proposal;
use crate::pipeline::PipelineError;
use crate::proposal::CommitProposal;
use crate::proposal::proposal_wf;
use crate::strutil::str_eq;

verus! {

/// One tool invocation as the remote response carries it: the name of the
/// invoked function and its raw argument payload.
pub struct ToolInvocation {
    pub name: String,
    pub arguments: String,
}

/// A function descriptor declared to the remote service.
pub struct ToolContract {
    pub name: String,
    pub description: String,
    pub parameters_schema: String,
}

/// The fixed conversation: a system instruction, the assistant's invocation
/// of the context tool, and the bounded context as that tool's result.
pub struct Conversation {
    pub system_prompt: String,
    pub context_call_id: String,
    pub context_tool_name: String,
    pub context: String,
}

/// The request as sent: the conversation, the two tool contracts, the tool
/// whose invocation the service is required to return, the model, and
/// deterministic, bounded generation parameters.
pub struct CompletionRequestPlan {
    pub model: String,
    pub conversation: Conversation,
    pub context_tool: ToolContract,
    pub commit_tool: ToolContract,
    pub forced_tool: String,
    pub temperature_milli: u32,
    pub max_output_tokens: u32,
}

/// The model identifier: the configured override when one is set, else the
/// default.
pub fn choose_model(configured: Option<String>) -> (r: String)
    ensures
        match configured {
            Some(m) => r@ == m@,
            None => r@ == "gpt-4.1-nano"@,
        },
{
    match configured {
        Some(m) => m,
        None => String::from_str("gpt-4.1-nano"),
    }
}

/// Builds the full request plan around a bounded context: the fixed prompt
/// and tool contracts, the forced commit tool, temperature zero, and an
/// output ceiling that comfortably bounds a title and description.
pub fn build_request(model: String, context: String) -> (r: CompletionRequestPlan)
    ensures
        r.model@ == model@,
        r.conversation.system_prompt@
            == "You are an experienced developer who writes great commit messages."@,
        r.conversation.context_call_id@ == "call_get_diff"@,
        r.conversation.context_tool_name@ == "get_diff"@,
        r.conversation.context@ == context@,
        r.context_tool.name@ == "get_diff"@,
        r.context_tool.description@ == "Returns the output of `git diff HEAD` as a string."@,
        r.context_tool.parameters_schema@ == "{\"type\":\"object\",\"properties\":{}}"@,
        r.commit_tool.name@ == "commit"@,
        r.commit_tool.description@ == "Creates a commit with the given title and a description."@,
        r.commit_tool.parameters_schema@
            == "{\"type\":\"object\",\"properties\":{\"title\":{\"type\":\"string\"},\"description\":{\"type\":\"string\"}},\"required\":[\"title\",\"description\"]}"@,
        r.forced_tool@ == "commit"@,
        r.temperature_milli == 0,
        r.max_output_tokens == 2000,
{
    CompletionRequestPlan {
        model,
        conversation: Conversation {
            system_prompt: String::from_str(
                "You are an experienced developer who writes great commit messages.",
            ),
            context_call_id: String::from_str("call_get_diff"),
            context_tool_name: String::from_str("get_diff"),
            context,
        },
        context_tool: ToolContract {
            name: String::from_str("get_diff"),
            description: String::from_str("Returns the output of `git diff HEAD` as a string."),
            parameters_schema: String::from_str("{\"type\":\"object\",\"properties\":{}}"),
        },
        commit_tool: ToolContract {
            name: String::from_str("commit"),
            description: String::from_str(
                "Creates a commit with the given title and a description.",
            ),
            parameters_schema: String::from_str(
                "{\"type\":\"object\",\"properties\":{\"title\":{\"type\":\"string\"},\"description\":{\"type\":\"string\"}},\"required\":[\"title\",\"description\"]}",
            ),
        },
        forced_tool: String::from_str("commit"),
        temperature_milli: 0,
        max_output_tokens: 2000,
    }
}

/// The argument payload of the forced tool's invocation: the first invocation
/// bearing the forced name; a response without one is malformed.
pub fn extract_forced_arguments(calls: &Vec<ToolInvocation>, forced: &str) -> (r: Result<
    String,
    PipelineError,
>)
    ensures
        match r {
            Ok(args) => exists|j: int|
                0 <= j < calls@.len() && calls@[j].name@ == forced@ && args@
                    == calls@[j].arguments@ && (forall|k: int|
                    0 <= k < j ==> calls@[k].name@ != forced@),
            Err(e) => e == PipelineError::MalformedResponse && (forall|j: int|
                0 <= j < calls@.len() ==> calls@[j].name@ != forced@),
        },
{
    let n = calls.len();
    let mut i: usize = 0;
    while i < n
        invariant
            i <= n,
            n == calls@.len(),
            forall|k: int| 0 <= k < i ==> calls@[k].name@ != forced@,
        decreases n - i,
    {
        if str_eq(calls[i].name.as_str(), forced) {
            return Ok(calls[i].arguments.clone());
        }
        i = i + 1;
    }
    Err(PipelineError::MalformedResponse)
}

/// The proposal a response yields: the forced invocation's payload parsed
/// against the commit schema. A response without that invocation, or with a
/// payload the schema rejects, is a `MalformedResponse`; it is never salvaged.
pub fn obtain_proposal(calls: &Vec<ToolInvocation>, forced: &str) -> (r: Result<
    CommitProposal,
    PipelineError,
>)
    ensures
        match r {
            Ok(p) => proposal_wf(&p) && exists|j: int|
                0 <= j < calls@.len() && calls@[j].name@ == forced@ && spec_parse_proposal(
                    calls@[j].arguments@,
                ) == Some((p.title@, p.description@)) && (forall|k: int|
                    0 <= k < j ==> calls@[k].name@ != forced@),
            Err(e) => e == PipelineError::MalformedResponse && ((forall|j: int|
                0 <= j < calls@.len() ==> calls@[j].name@ != forced@) || (exists|j: int|
                0 <= j < calls@.len() && calls@[j].name@ == forced@ && spec_parse_proposal(
                    calls@[j].arguments@,
                ) is None && (forall|k: int| 0 <= k < j ==> calls@[k].name@ != forced@))),
        },
{
    match extract_forced_arguments(calls, forced) {
        Err(e) => Err(e),
        Ok(args) => match parse_proposal_json(args.as_str()) {
            Some(p) => Ok(p),
            None => Err(PipelineError::MalformedResponse),
        },
    }
}

} // verus!
