//! A call of a model: the request, and what its stream of events comes to.

use crate::collections::{ascending, lemma_ascending_push, reversed};
use crate::id::ID;
use crate::model::model::Model;
use crate::tools::ToolSignature;
use vstd::prelude::*;

verus! {

/// A tool as a request offers it.
#[derive(Debug, PartialEq)]
pub struct FunctionTool {
    pub name: String,
    pub description: String,
    /// JSON schema of the arguments, as JSON text.
    pub parameters: String,
}

/// A request to a provider, and how to reach it.
#[derive(Debug, PartialEq)]
pub struct ModelRequest {
    pub api_base: String,
    pub api_key: String,
    pub org_id: String,
    pub model: String,
    pub input: String,
    pub tools: Vec<FunctionTool>,
    pub instructions: Option<String>,
}

/// A tool as a request offers it.
pub open spec fn offered(tool: ToolSignature) -> FunctionTool {
    FunctionTool {
        name: tool.name,
        description: tool.description,
        parameters: tool.parameters_schema,
    }
}

/// The request for a call of `model` with `input`, which may use `tools`. The
/// system prompt of the model, if it has one, becomes the instructions.
pub fn build_request(model: Model, tools: Vec<ToolSignature>, input: String) -> (r: ModelRequest)
    ensures
        match model {
            Model::OpenAICompatible {
                id,
                base_url,
                client_id,
                api_key,
                model: name,
                system_prompt,
            } => {
                &&& r.api_base == base_url
                &&& r.api_key == api_key
                &&& r.org_id == client_id
                &&& r.model == name
                &&& r.instructions == system_prompt
            },
        },
        r.input == input,
        r.tools@ == tools@.map_values(|tool: ToolSignature| offered(tool)),
        r.tools@.len() == tools@.len(),
        forall|i: int|
            0 <= i < tools@.len() ==> (#[trigger] r.tools@[i]).name == tools@[i].name
                && r.tools@[i].description == tools@[i].description && r.tools@[i].parameters
                == tools@[i].parameters_schema,
{
    let ghost all = tools@;
    let mut rest = reversed(tools);
    let mut list: Vec<FunctionTool> = Vec::new();
    assert(rest@ =~= all.skip(0).reverse());
    while rest.len() > 0
        invariant
            rest@.len() <= all.len(),
            rest@ == all.skip(all.len() - rest@.len()).reverse(),
            list@.len() == all.len() - rest@.len(),
            forall|i: int| 0 <= i < list@.len() ==> #[trigger] list@[i] == offered(all[i]),
        decreases rest@.len(),
    {
        let ghost done = all.len() - rest@.len();
        match rest.pop() {
            Some(tool) => {
                proof {
                    assert(tool == all[done]);
                    assert(rest@ =~= all.skip(done + 1).reverse());
                }
                list.push(
                    FunctionTool {
                        name: tool.name,
                        description: tool.description,
                        parameters: tool.parameters_schema,
                    },
                );
            },
            None => {},
        }
    }
    assert(list@ =~= all.map_values(|tool: ToolSignature| offered(tool)));
    match model {
        Model::OpenAICompatible { base_url, client_id, api_key, model, system_prompt, .. } => {
            ModelRequest {
                api_base: base_url,
                api_key,
                org_id: client_id,
                model,
                input,
                tools: list,
                instructions: system_prompt,
            }
        },
    }
}

/// What a call cost.
#[derive(Debug, PartialEq, Eq)]
pub struct ModelUsage {
    pub input_tokens: u32,
    pub cached_tokens: u32,
    pub output_tokens: u32,
    pub reasoning_tokens: u32,
    pub total_tokens: u32,
    pub payer: Option<String>,
}

/// A tool that the model wants called; the parameters are JSON text.
#[derive(Debug, PartialEq, Eq)]
pub struct ModelToolCall {
    pub id: ID,
    pub name: String,
    pub parameters: String,
}

/// What a call came to.
#[derive(Debug, PartialEq, Eq)]
pub struct ModelResponse {
    pub text: Option<String>,
    pub tool_calls: Vec<ModelToolCall>,
    pub usage: Option<ModelUsage>,
}

/// How far an agent's call of a model has come.
#[derive(Debug, PartialEq, Eq)]
pub enum ModelStatus {
    Running,
    Failed,
    Completed,
    ToolCalls(Vec<ModelToolCall>),
}

/// What a caller sees of a call, as it goes on. The last event, and only the
/// last one, is `Completed` or `Failed`.
#[derive(Debug, PartialEq, Eq)]
pub enum ModelStreamEvent {
    TextDelta(String),
    Completed(ModelResponse),
    Failed(String),
}

/// A piece of the output of a provider.
#[derive(Debug, PartialEq, Eq)]
pub enum OutputItem {
    /// The arguments are JSON text, as the model wrote it.
    FunctionCall { name: String, arguments: String },
    Other,
}

/// What a provider counted.
#[derive(Debug, Clone, Copy, PartialEq, Eq, Structural)]
pub struct ProviderUsage {
    pub input_tokens: u32,
    pub cached_tokens: u32,
    pub output_tokens: u32,
    pub reasoning_tokens: u32,
    pub total_tokens: u32,
}

/// The final response of a provider.
#[derive(Debug, PartialEq, Eq)]
pub struct ProviderResponse {
    pub output_text: Option<String>,
    pub output: Vec<OutputItem>,
    pub usage: Option<ProviderUsage>,
    pub payer: Option<String>,
}

/// An event of the stream of a provider.
#[derive(Debug, PartialEq, Eq)]
pub enum ProviderEvent {
    TextDelta(String),
    Completed(ProviderResponse),
    /// The response failed, with a message or without one.
    Failed(Option<String>),
    /// The provider reported an error.
    Error(String),
    /// The stream itself failed.
    Broken(String),
    Other,
}

/// The value that a JSON text spells, written out again; nothing where the
/// text is no JSON.
pub uninterp spec fn json_text(text: Seq<char>) -> Option<Seq<char>>;

/// Calls `serde_json::from_str` into a `serde_json::Value` and, on success,
/// its `to_string`. Both depend on the text alone.
#[verifier::external_body]
fn normalize_json(text: &str) -> (r: Option<String>)
    ensures
        match r {
            Some(value) => json_text(text@) == Some(value@),
            None => json_text(text@) is None,
        },
{
    match serde_json::from_str::<serde_json::Value>(text) {
        Ok(value) => Some(value.to_string()),
        Err(_) => None,
    }
}

/// The parameters of a tool call: what the arguments spell, or null.
pub open spec fn parameters_of(parsed: Option<Seq<char>>) -> Seq<char> {
    match parsed {
        Some(value) => value,
        None => "null"@,
    }
}

/// The parameters of a tool call, given what its arguments were parsed to.
pub fn call_parameters(parsed: Option<String>) -> (r: String)
    ensures
        r@ == parameters_of(match parsed {
            Some(value) => Some(value@),
            None => None,
        }),
{
    match parsed {
        Some(value) => value,
        None => "null".to_owned(),
    }
}

/// What a stream has come to so far.
pub struct StreamFold {
    pub final_response: Option<ProviderResponse>,
    pub failure: Option<String>,
}

/// The message of a failure that came without one.
pub open spec fn default_failure() -> Seq<char> {
    "réponse échouée"@
}

/// The message of a stream that ended without a response.
pub open spec fn no_response() -> Seq<char> {
    "le flux s'est terminé sans réponse"@
}

/// The calls of tools among pieces of output, in order: names and arguments.
pub open spec fn function_calls(output: Seq<OutputItem>) -> Seq<(String, String)>
    decreases output.len(),
{
    if output.len() == 0 {
        Seq::empty()
    } else {
        match output.last() {
            OutputItem::FunctionCall { name, arguments } => function_calls(output.drop_last()).push(
                (name, arguments),
            ),
            OutputItem::Other => function_calls(output.drop_last()),
        }
    }
}

/// Whether `calls` are the calls of tools in `output`, with the given
/// identifiers.
pub open spec fn are_calls(
    calls: Seq<ModelToolCall>,
    output: Seq<OutputItem>,
    ids: Seq<ID>,
) -> bool {
    &&& calls.len() == function_calls(output).len()
    &&& forall|i: int|
        0 <= i < calls.len() ==> {
            &&& (#[trigger] calls[i]).id == ids[i]
            &&& calls[i].name == function_calls(output)[i].0
            &&& calls[i].parameters@ == parameters_of(json_text(function_calls(output)[i].1@))
        }
}

/// What a provider counted, as the caller sees it.
pub open spec fn usage_of(response: ProviderResponse) -> Option<ModelUsage> {
    match response.usage {
        Some(u) => Some(
            ModelUsage {
                input_tokens: u.input_tokens,
                cached_tokens: u.cached_tokens,
                output_tokens: u.output_tokens,
                reasoning_tokens: u.reasoning_tokens,
                total_tokens: u.total_tokens,
                payer: response.payer,
            },
        ),
        None => None,
    }
}

impl StreamFold {
    /// Whether this is what a stream has come to after `events`: the last
    /// response and the last failure count.
    pub open spec fn reached_by(&self, events: Seq<ProviderEvent>) -> bool {
        &&& self.final_response == last_response(events)
        &&& match self.failure {
            Some(message) => last_failure(events) == Some(message@),
            None => last_failure(events) is None,
        }
    }

    /// A stream of which nothing was seen yet.
    pub fn new() -> (r: Self)
        ensures
            r.final_response is None,
            r.failure is None,
            r.reached_by(Seq::empty()),
    {
        StreamFold { final_response: None, failure: None }
    }

    /// Takes in an event. A piece of text is passed on at once; a response and
    /// a failure are kept, the last of each, until the stream ends.
    pub fn on_event(&mut self, event: ProviderEvent) -> (r: Option<ModelStreamEvent>)
        ensures
            match event {
                ProviderEvent::TextDelta(delta) => {
                    &&& r == Some(ModelStreamEvent::TextDelta(delta))
                    &&& *final(self) == *old(self)
                },
                ProviderEvent::Completed(response) => {
                    &&& r is None
                    &&& final(self).final_response == Some(response)
                    &&& final(self).failure == old(self).failure
                },
                ProviderEvent::Failed(message) => {
                    &&& r is None
                    &&& final(self).final_response == old(self).final_response
                    &&& match message {
                        Some(m) => final(self).failure == Some(m),
                        None => final(self).failure matches Some(m) && m@ == default_failure() && m@
                            == "réponse échouée"@,
                    }
                },
                ProviderEvent::Error(message) => {
                    &&& r is None
                    &&& final(self).final_response == old(self).final_response
                    &&& final(self).failure == Some(message)
                },
                ProviderEvent::Broken(message) => {
                    &&& r is None
                    &&& final(self).final_response == old(self).final_response
                    &&& final(self).failure == Some(message)
                },
                ProviderEvent::Other => r is None && *final(self) == *old(self),
            },
            forall|events: Seq<ProviderEvent>| #[trigger]
                old(self).reached_by(events) ==> final(self).reached_by(events.push(event)),
    {
        proof {
            assert forall|events: Seq<ProviderEvent>| (#[trigger] events.push(
                event,
            )).drop_last() == events by {
                assert(events.push(event).drop_last() =~= events);
            }
        }
        match event {
            ProviderEvent::TextDelta(delta) => Some(ModelStreamEvent::TextDelta(delta)),
            ProviderEvent::Completed(response) => {
                self.final_response = Some(response);
                None
            },
            ProviderEvent::Failed(message) => {
                self.failure =
                Some(
                    match message {
                        Some(message) => message,
                        None => "réponse échouée".to_owned(),
                    },
                );
                None
            },
            ProviderEvent::Error(message) => {
                self.failure = Some(message);
                None
            },
            ProviderEvent::Broken(message) => {
                self.failure = Some(message);
                None
            },
            ProviderEvent::Other => None,
        }
    }

    /// How many tools the response wants called: as many identifiers must be
    /// at hand to finish.
    pub fn calls_wanted(&self) -> (r: usize)
        ensures
            r == (match self.final_response {
                Some(response) => function_calls(response.output@).len(),
                None => 0,
            }),
    {
        match &self.final_response {
            None => 0,
            Some(response) => {
                let mut count: usize = 0;
                let mut i: usize = 0;
                while i < response.output.len()
                    invariant
                        i <= response.output@.len(),
                        count == function_calls(response.output@.take(i as int)).len(),
                        count <= i,
                    decreases response.output@.len() - i,
                {
                    proof {
                        let o = response.output@;
                        assert(o.take(i + 1).drop_last() =~= o.take(i as int));
                        assert(o.take(i + 1).last() == o[i as int]);
                    }
                    match &response.output[i] {
                        OutputItem::FunctionCall { .. } => {
                            count = count + 1;
                        },
                        OutputItem::Other => {},
                    }
                    i = i + 1;
                }
                assert(response.output@.take(i as int) =~= response.output@);
                count
            },
        }
    }

    /// The stream ended: the event that closes it. A failure counts more than
    /// a response. `ids` holds fresh identifiers for the calls of tools.
    pub fn finish(self, ids: &Vec<ID>) -> (r: ModelStreamEvent)
        requires
            self.final_response matches Some(response) ==> ids@.len() >= function_calls(
                response.output@,
            ).len(),
        ensures
            match (self.failure, self.final_response) {
                (Some(message), _) => r == ModelStreamEvent::Failed(message),
                (None, Some(response)) => {
                    &&& r matches ModelStreamEvent::Completed(completed)
                    &&& completed.text == response.output_text
                    &&& are_calls(completed.tool_calls@, response.output@, ids@)
                    &&& completed.usage == usage_of(response)
                    &&& exists|at: Seq<int>|
                        {
                            &&& #[trigger] ascending(at, response.output@.len() as int)
                            &&& at.len() == completed.tool_calls@.len()
                            &&& forall|i: int| #[trigger]
                                at.contains(i) <==> 0 <= i < response.output@.len()
                                    && response.output@[i] is FunctionCall
                            &&& forall|k: int|
                                0 <= k < at.len() ==> (response.output@[#[trigger] at[k]]
                                    matches OutputItem::FunctionCall { name, arguments }
                                    && completed.tool_calls@[k].name == name
                                    && completed.tool_calls@[k].id == ids@[k])
                        }
                },
                (None, None) => r matches ModelStreamEvent::Failed(message) && message@
                    == no_response() && message@ == "le flux s'est terminé sans réponse"@,
            },
    {
        match (self.failure, self.final_response) {
            (Some(message), _) => ModelStreamEvent::Failed(message),
            (None, Some(response)) => {
                let ghost output = response.output@;
                let mut calls: Vec<ModelToolCall> = Vec::new();
                let mut i: usize = 0;
                while i < response.output.len()
                    invariant
                        i <= response.output@.len(),
                        output == response.output@,
                        ids@.len() >= function_calls(output).len(),
                        are_calls(calls@, output.take(i as int), ids@),
                    decreases response.output@.len() - i,
                {
                    proof {
                        assert(output.take(i + 1).drop_last() =~= output.take(i as int));
                        assert(output.take(i + 1).last() == output[i as int]);
                        lemma_calls_grow(output, i + 1);
                    }
                    match &response.output[i] {
                        OutputItem::FunctionCall { name, arguments } => {
                            let parameters = call_parameters(normalize_json(arguments.as_str()));
                            let at: usize = calls.len();
                            calls.push(
                                ModelToolCall { id: ids[at], name: name.clone(), parameters },
                            );
                        },
                        OutputItem::Other => {},
                    }
                    i = i + 1;
                }
                assert(output.take(i as int) =~= output);
                proof {
                    let at = lemma_calls_follow_items(calls@, output, ids@);
                    assert forall|k: int| 0 <= k < at.len() implies (output[#[trigger] at[k]]
                        matches OutputItem::FunctionCall { name, arguments } && calls@[k].name
                        == name && calls@[k].id == ids@[k]) by {
                        assert(calls@[k].id == ids@[k]);
                    }
                }
                let usage = match response.usage {
                    Some(u) => Some(
                        ModelUsage {
                            input_tokens: u.input_tokens,
                            cached_tokens: u.cached_tokens,
                            output_tokens: u.output_tokens,
                            reasoning_tokens: u.reasoning_tokens,
                            total_tokens: u.total_tokens,
                            payer: response.payer,
                        },
                    ),
                    None => None,
                };
                ModelStreamEvent::Completed(
                    ModelResponse { text: response.output_text, tool_calls: calls, usage },
                )
            },
            (None, None) => ModelStreamEvent::Failed(
                "le flux s'est terminé sans réponse".to_owned(),
            ),
        }
    }
}

proof fn lemma_calls_grow(output: Seq<OutputItem>, i: int)
    requires
        0 <= i <= output.len(),
    ensures
        function_calls(output.take(i)).len() <= function_calls(output).len(),
    decreases output.len() - i,
{
    if i < output.len() {
        lemma_calls_grow(output, i + 1);
        assert(output.take(i + 1).drop_last() =~= output.take(i));
    } else {
        assert(output.take(i) =~= output);
    }
}

/// The message of an event that is a failure.
pub open spec fn failure_message(event: ProviderEvent) -> Option<Seq<char>> {
    match event {
        ProviderEvent::Failed(Some(message)) => Some(message@),
        ProviderEvent::Failed(None) => Some(default_failure()),
        ProviderEvent::Error(message) => Some(message@),
        ProviderEvent::Broken(message) => Some(message@),
        _ => None,
    }
}

/// The message of the last failure among events.
pub open spec fn last_failure(events: Seq<ProviderEvent>) -> Option<Seq<char>>
    decreases events.len(),
{
    if events.len() == 0 {
        None
    } else {
        match failure_message(events.last()) {
            Some(message) => Some(message),
            None => last_failure(events.drop_last()),
        }
    }
}

/// The last response among events.
pub open spec fn last_response(events: Seq<ProviderEvent>) -> Option<ProviderResponse>
    decreases events.len(),
{
    if events.len() == 0 {
        None
    } else {
        match events.last() {
            ProviderEvent::Completed(response) => Some(response),
            _ => last_response(events.drop_last()),
        }
    }
}

/// A stream with a failure in it ends in failure, whatever else it holds; one
/// without ends in success exactly when a response is in it.
pub proof fn lemma_failure_wins(events: Seq<ProviderEvent>)
    ensures
        last_failure(events) is Some <==> exists|i: int|
            0 <= i < events.len() && failure_message(#[trigger] events[i]) is Some,
        last_response(events) is Some <==> exists|i: int|
            0 <= i < events.len() && (#[trigger] events[i]) is Completed,
    decreases events.len(),
{
    if events.len() > 0 {
        let front = events.drop_last();
        let last = events.len() - 1;
        lemma_failure_wins(front);
        if last_failure(front) is Some {
            let i = choose|i: int|
                0 <= i < front.len() && failure_message(#[trigger] front[i]) is Some;
            assert(failure_message(events[i]) is Some);
        }
        if last_response(front) is Some {
            let i = choose|i: int| 0 <= i < front.len() && (#[trigger] front[i]) is Completed;
            assert(events[i] is Completed);
        }
        if failure_message(events.last()) is Some {
            assert(failure_message(events[last]) is Some);
        }
        if events.last() is Completed {
            assert(events[last] is Completed);
        }
        if exists|i: int| 0 <= i < events.len() && failure_message(#[trigger] events[i]) is Some {
            let i = choose|i: int|
                0 <= i < events.len() && failure_message(#[trigger] events[i]) is Some;
            if i < last {
                assert(failure_message(front[i]) is Some);
            }
        }
        if exists|i: int| 0 <= i < events.len() && (#[trigger] events[i]) is Completed {
            let i = choose|i: int| 0 <= i < events.len() && (#[trigger] events[i]) is Completed;
            if i < last {
                assert(front[i] is Completed);
            }
        }
    }
}

/// The calls of tools in a response are the function calls in the output of the
/// provider, in their order: each carries the name of its item, its arguments as
/// JSON (or null where they are none), and the next identifier. `at` are the
/// positions of those items.
pub proof fn lemma_calls_follow_items(
    calls: Seq<ModelToolCall>,
    output: Seq<OutputItem>,
    ids: Seq<ID>,
) -> (at: Seq<int>)
    requires
        are_calls(calls, output, ids),
    ensures
        ascending(at, output.len() as int),
        at.len() == calls.len(),
        forall|i: int| #[trigger]
            at.contains(i) <==> 0 <= i < output.len() && output[i] is FunctionCall,
        forall|k: int|
            0 <= k < calls.len() ==> {
                &&& (#[trigger] calls[k]).id == ids[k]
                &&& output[at[k]] matches OutputItem::FunctionCall { name, arguments }
                &&& calls[k].name == name
                &&& match json_text(arguments@) {
                    Some(value) => calls[k].parameters@ == value,
                    None => calls[k].parameters@ == "null"@,
                }
            },
{
    let at = lemma_function_call_items(output);
    assert forall|k: int| 0 <= k < calls.len() implies {
        &&& (#[trigger] calls[k]).id == ids[k]
        &&& output[at[k]] matches OutputItem::FunctionCall { name, arguments }
        &&& calls[k].name == name
        &&& match json_text(arguments@) {
            Some(value) => calls[k].parameters@ == value,
            None => calls[k].parameters@ == "null"@,
        }
    } by {
        assert(at.contains(at[k]));
        assert(function_calls(output)[k] == function_calls(output)[k]);
    }
    at
}

/// The function calls in an output are the names and the arguments of its items
/// of that kind, in their order: `at` are the positions of those items.
pub proof fn lemma_function_call_items(output: Seq<OutputItem>) -> (at: Seq<int>)
    ensures
        ascending(at, output.len() as int),
        at.len() == function_calls(output).len(),
        forall|i: int| #[trigger]
            at.contains(i) <==> 0 <= i < output.len() && output[i] is FunctionCall,
        forall|k: int|
            0 <= k < at.len() ==> output[#[trigger] at[k]] == (OutputItem::FunctionCall {
                name: function_calls(output)[k].0,
                arguments: function_calls(output)[k].1,
            }),
    decreases output.len(),
{
    if output.len() == 0 {
        Seq::empty()
    } else {
        let front = output.drop_last();
        let n = front.len() as int;
        let before = lemma_function_call_items(front);
        lemma_ascending_push(before, n);
        assert forall|i: int| 0 <= i < n implies front[i] == output[i] by {}
        if output.last() is FunctionCall {
            before.push(n)
        } else {
            before
        }
    }
}

/// The response that counts is the last one in the stream.
pub proof fn lemma_last_response_counts(events: Seq<ProviderEvent>, response: ProviderResponse)
    ensures
        last_response(events) == Some(response) <==> exists|i: int|
            {
                &&& 0 <= i < events.len()
                &&& #[trigger] events[i] == ProviderEvent::Completed(response)
                &&& forall|j: int| i < j < events.len() ==> !((#[trigger] events[j]) is Completed)
            },
    decreases events.len(),
{
    if events.len() > 0 {
        let front = events.drop_last();
        let last = events.len() - 1;
        lemma_last_response_counts(front, response);
        assert forall|i: int| 0 <= i < front.len() implies front[i] == events[i] by {}
        if last_response(events) == Some(response) {
            if events.last() is Completed {
                assert(events[last] == ProviderEvent::Completed(response));
            } else {
                let i = choose|i: int|
                    {
                        &&& 0 <= i < front.len()
                        &&& #[trigger] front[i] == ProviderEvent::Completed(response)
                        &&& forall|j: int|
                            i < j < front.len() ==> !((#[trigger] front[j]) is Completed)
                    };
                assert(events[i] == ProviderEvent::Completed(response));
                assert forall|j: int| i < j < events.len() implies !((
                #[trigger] events[j]) is Completed) by {
                    if j < last {
                        assert(front[j] == events[j]);
                    }
                }
            }
        }
        if exists|i: int|
            {
                &&& 0 <= i < events.len()
                &&& #[trigger] events[i] == ProviderEvent::Completed(response)
                &&& forall|j: int| i < j < events.len() ==> !((#[trigger] events[j]) is Completed)
            } {
            let i = choose|i: int|
                {
                    &&& 0 <= i < events.len()
                    &&& #[trigger] events[i] == ProviderEvent::Completed(response)
                    &&& forall|j: int|
                        i < j < events.len() ==> !((#[trigger] events[j]) is Completed)
                };
            if i < last {
                assert(!(events[last] is Completed));
                assert(front[i] == events[i]);
                assert forall|j: int| i < j < front.len() implies !((
                #[trigger] front[j]) is Completed) by {
                    assert(front[j] == events[j]);
                }
            }
        }
    }
}

/// The failure that counts is the last one in the stream: a failed response, an
/// error of the provider or a broken stream.
pub proof fn lemma_last_failure_counts(events: Seq<ProviderEvent>, message: Seq<char>)
    ensures
        last_failure(events) == Some(message) <==> exists|i: int|
            {
                &&& 0 <= i < events.len()
                &&& match #[trigger] events[i] {
                    ProviderEvent::Failed(Some(m)) => m@ == message,
                    ProviderEvent::Failed(None) => message == "réponse échouée"@,
                    ProviderEvent::Error(m) => m@ == message,
                    ProviderEvent::Broken(m) => m@ == message,
                    _ => false,
                }
                &&& forall|j: int|
                    i < j < events.len() ==> !((#[trigger] events[j]) is Failed || events[j]
                        is Error || events[j] is Broken)
            },
    decreases events.len(),
{
    if events.len() > 0 {
        let front = events.drop_last();
        let last = events.len() - 1;
        lemma_last_failure_counts(front, message);
        assert forall|i: int| 0 <= i < front.len() implies front[i] == events[i] by {}
        if last_failure(events) == Some(message) {
            if failure_message(events.last()) is Some {
                assert(events[last] == events.last());
            } else {
                let i = choose|i: int|
                    {
                        &&& 0 <= i < front.len()
                        &&& match #[trigger] front[i] {
                            ProviderEvent::Failed(Some(m)) => m@ == message,
                            ProviderEvent::Failed(None) => message == "réponse échouée"@,
                            ProviderEvent::Error(m) => m@ == message,
                            ProviderEvent::Broken(m) => m@ == message,
                            _ => false,
                        }
                        &&& forall|j: int|
                            i < j < front.len() ==> !((#[trigger] front[j]) is Failed || front[j]
                                is Error || front[j] is Broken)
                    };
                assert(events[i] == front[i]);
                assert forall|j: int| i < j < events.len() implies !((
                #[trigger] events[j]) is Failed || events[j] is Error || events[j] is Broken) by {
                    if j < last {
                        assert(front[j] == events[j]);
                    }
                }
            }
        }
        if exists|i: int|
            {
                &&& 0 <= i < events.len()
                &&& match #[trigger] events[i] {
                    ProviderEvent::Failed(Some(m)) => m@ == message,
                    ProviderEvent::Failed(None) => message == "réponse échouée"@,
                    ProviderEvent::Error(m) => m@ == message,
                    ProviderEvent::Broken(m) => m@ == message,
                    _ => false,
                }
                &&& forall|j: int|
                    i < j < events.len() ==> !((#[trigger] events[j]) is Failed || events[j]
                        is Error || events[j] is Broken)
            } {
            let i = choose|i: int|
                {
                    &&& 0 <= i < events.len()
                    &&& match #[trigger] events[i] {
                        ProviderEvent::Failed(Some(m)) => m@ == message,
                        ProviderEvent::Failed(None) => message == "réponse échouée"@,
                        ProviderEvent::Error(m) => m@ == message,
                        ProviderEvent::Broken(m) => m@ == message,
                        _ => false,
                    }
                    &&& forall|j: int|
                        i < j < events.len() ==> !((#[trigger] events[j]) is Failed || events[j]
                            is Error || events[j] is Broken)
                };
            if i < last {
                assert(!(events[last] is Failed || events[last] is Error || events[last]
                    is Broken));
                assert(front[i] == events[i]);
                assert forall|j: int| i < j < front.len() implies !((
                #[trigger] front[j]) is Failed || front[j] is Error || front[j] is Broken) by {
                    assert(front[j] == events[j]);
                }
            }
        }
    }
}

/// What a provider counted is passed on number by number, with who pays for it.
pub proof fn lemma_usage_is_passed_on(response: ProviderResponse)
    ensures
        usage_of(response) is Some <==> response.usage is Some,
        response.usage matches Some(counted) ==> (usage_of(response) matches Some(usage)
            && usage.input_tokens == counted.input_tokens && usage.cached_tokens
            == counted.cached_tokens && usage.output_tokens == counted.output_tokens
            && usage.reasoning_tokens == counted.reasoning_tokens && usage.total_tokens
            == counted.total_tokens && usage.payer == response.payer),
{
}

/// The parameters of a call are what its arguments spell, and null where they
/// spell nothing.
pub proof fn lemma_unreadable_arguments_are_null(text: Seq<char>)
    ensures
        parameters_of(Some(text)) == text,
        parameters_of(None) == "null"@,
{
}

} // verus!
