//! Canonical conversation and response shapes: the tagged-union message
//! content, the canonical response every backend reply is normalized into,
//! and the tool-call argument handling with its lossless raw fallback.

use vstd::prelude::*;
use vstd::string::StringSliceAdditionalSpecFns;
use crate::text::{bs, bytes_eq, copy_bytes};

verus! {

/// serde_json's ordered object map, declared so it can stand in fields and
/// signatures; its contents are opaque here and only carried through.
#[verifier::external_type_specification]
#[verifier::external_body]
#[verifier::reject_recursive_types(K)]
#[verifier::reject_recursive_types(V)]
pub struct ExJsonMap<K, V>(serde_json::Map<K, V>);

/// serde_json's value type, declared for use as a map value parameter.
#[verifier::external_type_specification]
#[verifier::external_body]
pub struct ExJsonValue(serde_json::Value);

/// Whether a byte string parses as a JSON object; a function of the bytes
/// alone.
pub uninterp spec fn json_is_object(s: Seq<u8>) -> bool;

/// Relies on serde_json::from_slice: parses the bytes as JSON and keeps the
/// result only when it is an object. Whether that succeeds depends on the
/// bytes alone, which `json_is_object` names.
#[verifier::external_body]
pub fn parse_json_object(raw: &Vec<u8>) -> (r: Option<
    serde_json::Map<String, serde_json::Value>,
>)
    ensures
        r is Some <==> json_is_object(raw@),
{
    match serde_json::from_slice::<serde_json::Value>(raw.as_slice()) {
        Ok(serde_json::Value::Object(m)) => Some(m),
        _ => None,
    }
}

/// A conversation role.
pub enum Role {
    System,
    User,
    Assistant,
    Tool,
    Function,
}

/// The role a wire-level role string denotes; anything unknown is `User`.
pub open spec fn spec_role(s: Seq<u8>) -> Role {
    if s == ("system").spec_bytes() {
        Role::System
    } else if s == ("assistant").spec_bytes() {
        Role::Assistant
    } else if s == ("tool").spec_bytes() {
        Role::Tool
    } else if s == ("function").spec_bytes() {
        Role::Function
    } else {
        Role::User
    }
}

/// Map a wire-level role string to a role.
pub fn role_from_bytes(s: &Vec<u8>) -> (r: Role)
    ensures
        r == spec_role(s@),
{
    if bytes_eq(s, &bs("system")) {
        Role::System
    } else if bytes_eq(s, &bs("assistant")) {
        Role::Assistant
    } else if bytes_eq(s, &bs("tool")) {
        Role::Tool
    } else if bytes_eq(s, &bs("function")) {
        Role::Function
    } else {
        Role::User
    }
}

/// One typed part of multi-part message content. A tool-result part keeps
/// the identifier of the tool use it answers beside its flattened text.
pub enum ContentPart {
    Text(Vec<u8>),
    ToolResult { id: Vec<u8>, content: Vec<u8> },
    Other,
}

/// Message content: plain text, or an ordered sequence of typed parts.
pub enum MessageContent {
    Text(Vec<u8>),
    Parts(Vec<ContentPart>),
}

/// A tool call as it stands on the wire: identifier, tool name and the
/// raw argument text. Carried both outbound, by an assistant message that
/// echoes its earlier calls, and inbound, as a backend reply's requested
/// calls.
pub struct ToolCallData {
    pub id: Vec<u8>,
    pub name: Vec<u8>,
    pub arguments: Vec<u8>,
}

/// A legacy outbound function call: name and raw argument text.
pub struct FunctionCallData {
    pub name: Vec<u8>,
    pub arguments: Vec<u8>,
}

/// A conversation message, owned by the caller and only read here.
pub struct ChatMessage {
    pub role: Role,
    pub content: Option<MessageContent>,
    pub name: Option<Vec<u8>>,
    pub tool_call_id: Option<Vec<u8>>,
    pub tool_calls: Option<Vec<ToolCallData>>,
    pub function_call: Option<FunctionCallData>,
}

/// The text a content part contributes, if any.
pub open spec fn spec_part_text(p: ContentPart) -> Option<Seq<u8>> {
    match p {
        ContentPart::Text(t) => Some(t@),
        ContentPart::ToolResult { id: _, content } => Some(content@),
        ContentPart::Other => None,
    }
}

/// The contributing chunks of a part list, in order.
pub open spec fn spec_parts_chunks(parts: Seq<ContentPart>) -> Seq<Seq<u8>>
    decreases parts.len(),
{
    if parts.len() == 0 {
        Seq::empty()
    } else {
        match spec_part_text(parts[0]) {
            Some(t) => seq![t] + spec_parts_chunks(parts.skip(1)),
            None => spec_parts_chunks(parts.skip(1)),
        }
    }
}

/// Chunks joined by a newline.
pub open spec fn spec_join_nl(chunks: Seq<Seq<u8>>) -> Seq<u8>
    decreases chunks.len(),
{
    if chunks.len() == 0 {
        Seq::empty()
    } else if chunks.len() == 1 {
        chunks[0]
    } else {
        chunks[0] + seq![10u8] + spec_join_nl(chunks.skip(1))
    }
}

/// The flattened text of message content: plain text as it is, a part list
/// as its text and tool-result chunks joined by newlines.
pub open spec fn spec_content_text(c: MessageContent) -> Seq<u8> {
    match c {
        MessageContent::Text(t) => t@,
        MessageContent::Parts(ps) => spec_join_nl(spec_parts_chunks(ps@)),
    }
}

/// Appending a part appends its chunk, if it has one.
proof fn lemma_chunks_push(parts: Seq<ContentPart>, p: ContentPart)
    ensures
        spec_parts_chunks(parts.push(p)) == spec_parts_chunks(parts) + (match spec_part_text(p) {
            Some(t) => seq![t],
            None => Seq::<Seq<u8>>::empty(),
        }),
    decreases parts.len(),
{
    let tail = match spec_part_text(p) {
        Some(t) => seq![t],
        None => Seq::<Seq<u8>>::empty(),
    };
    if parts.len() == 0 {
        let pp = parts.push(p);
        assert(pp.len() == 1);
        assert(pp[0] == p);
        assert(pp.skip(1) =~= Seq::<ContentPart>::empty());
        assert(spec_parts_chunks(pp.skip(1)) =~= Seq::<Seq<u8>>::empty());
        match spec_part_text(p) {
            Some(t) => {
                assert(spec_parts_chunks(parts.push(p)) =~= seq![t]);
                assert(spec_parts_chunks(parts) + tail =~= seq![t]);
            },
            None => {
                assert(spec_parts_chunks(parts.push(p)) =~= Seq::<Seq<u8>>::empty());
                assert(spec_parts_chunks(parts) + tail =~= Seq::<Seq<u8>>::empty());
            },
        }
    } else {
        assert(parts.push(p)[0] == parts[0]);
        assert(parts.push(p).skip(1) =~= parts.skip(1).push(p));
        lemma_chunks_push(parts.skip(1), p);
        match spec_part_text(parts[0]) {
            Some(t) => {
                assert(seq![t] + (spec_parts_chunks(parts.skip(1)) + tail) =~= (seq![t]
                    + spec_parts_chunks(parts.skip(1))) + tail);
            },
            None => {},
        }
    }
}

/// Joining one more chunk extends the joined text by a newline and the
/// chunk (or is the chunk itself when nothing came before).
proof fn lemma_join_push(chunks: Seq<Seq<u8>>, t: Seq<u8>)
    ensures
        spec_join_nl(chunks.push(t)) == if chunks.len() == 0 {
            t
        } else {
            spec_join_nl(chunks) + seq![10u8] + t
        },
    decreases chunks.len(),
{
    if chunks.len() == 0 {
        assert(chunks.push(t)[0] == t);
    } else {
        assert(chunks.push(t)[0] == chunks[0]);
        assert(chunks.push(t).skip(1) =~= chunks.skip(1).push(t));
        lemma_join_push(chunks.skip(1), t);
        if chunks.len() == 1 {
            assert(chunks.skip(1).len() == 0);
        } else {
            assert((chunks[0] + seq![10u8] + (spec_join_nl(chunks.skip(1)) + seq![10u8] + t))
                =~= ((chunks[0] + seq![10u8] + spec_join_nl(chunks.skip(1))) + seq![10u8] + t));
        }
    }
}

/// Flatten message content to text, joining text and tool-result parts with
/// newlines and dropping parts of other kinds.
pub fn content_to_text(c: &MessageContent) -> (r: Vec<u8>)
    ensures
        r@ == spec_content_text(*c),
{
    match c {
        MessageContent::Text(t) => copy_bytes(t),
        MessageContent::Parts(parts) => {
            let mut out: Vec<u8> = Vec::new();
            let mut any = false;
            let mut i: usize = 0;
            proof {
                assert(parts@.take(0) =~= Seq::<ContentPart>::empty());
            }
            while i < parts.len()
                invariant
                    i <= parts@.len(),
                    out@ == spec_join_nl(spec_parts_chunks(parts@.take(i as int))),
                    any == (spec_parts_chunks(parts@.take(i as int)).len() != 0),
                decreases parts@.len() - i,
            {
                let ghost taken = parts@.take(i as int);
                proof {
                    assert(parts@.take(i + 1) =~= taken.push(parts@[i as int]));
                    lemma_chunks_push(taken, parts@[i as int]);
                }
                let chunk: Option<&Vec<u8>> = match &parts[i] {
                    ContentPart::Text(t) => Some(t),
                    ContentPart::ToolResult { id: _, content } => Some(content),
                    ContentPart::Other => None,
                };
                if let Some(t) = chunk {
                    proof {
                        lemma_join_push(spec_parts_chunks(taken), t@);
                        assert(spec_parts_chunks(taken) + seq![t@] =~= spec_parts_chunks(
                            taken,
                        ).push(t@));
                    }
                    if any {
                        let ghost out0 = out@;
                        out.push(10);
                        let mut k: usize = 0;
                        while k < t.len()
                            invariant
                                k <= t@.len(),
                                out@ == out0 + seq![10u8] + t@.subrange(0, k as int),
                            decreases t@.len() - k,
                        {
                            out.push(t[k]);
                            proof {
                                assert(out@ =~= out0 + seq![10u8] + t@.subrange(0, k + 1));
                            }
                            k = k + 1;
                        }
                        proof {
                            assert(out0 + seq![10u8] + t@.subrange(0, t@.len() as int) =~= out0
                                + seq![10u8] + t@);
                        }
                    } else {
                        out = copy_bytes(t);
                        any = true;
                    }
                    proof {
                        assert(spec_parts_chunks(parts@.take(i + 1)).len() != 0);
                    }
                } else {
                    proof {
                        assert(spec_parts_chunks(parts@.take(i + 1)) =~= spec_parts_chunks(
                            taken,
                        ));
                    }
                }
                i = i + 1;
            }
            proof {
                assert(parts@.take(parts@.len() as int) =~= parts@);
            }
            out
        },
    }
}

/// One backend choice, reduced to the fields normalization reads.
pub struct BackendChoice {
    pub content: Option<MessageContent>,
    pub thinking: Option<Vec<u8>>,
    pub tool_calls: Vec<ToolCallData>,
    pub finish_reason: Option<Vec<u8>>,
}

/// A backend reply, reduced to the fields normalization reads. Usage is an
/// opaque mapping carried through.
pub struct BackendReply {
    pub choices: Vec<BackendChoice>,
    pub usage: Option<serde_json::Map<String, serde_json::Value>>,
}

/// Tool-call arguments: the parsed JSON object, or the raw argument text
/// kept losslessly when it does not parse as an object.
pub enum ToolArguments {
    Object(serde_json::Map<String, serde_json::Value>),
    Raw(Vec<u8>),
}

/// A tool invocation requested by the model.
pub struct ToolCallRequest {
    pub id: Vec<u8>,
    pub name: Vec<u8>,
    pub arguments: ToolArguments,
}

/// The canonical response every backend reply is normalized into.
pub struct LLMResponse {
    pub content: Option<Vec<u8>>,
    pub tool_calls: Vec<ToolCallRequest>,
    pub finish_reason: Vec<u8>,
    pub usage: Option<serde_json::Map<String, serde_json::Value>>,
    pub reasoning_content: Option<Vec<u8>>,
}

impl LLMResponse {
    /// Whether the model asked for any tool invocation.
    pub fn has_tool_calls(&self) -> (r: bool)
        ensures
            r == (self.tool_calls@.len() != 0),
    {
        self.tool_calls.len() != 0
    }
}

/// Parse raw argument text as a JSON object; on failure keep the raw text
/// unchanged so no information is lost.
pub fn tool_call_arguments(raw: Vec<u8>) -> (r: ToolArguments)
    ensures
        json_is_object(raw@) ==> r is Object,
        !json_is_object(raw@) ==> (r matches ToolArguments::Raw(b) && b@ == raw@),
{
    match parse_json_object(&raw) {
        Some(m) => ToolArguments::Object(m),
        None => ToolArguments::Raw(raw),
    }
}

/// What one normalized tool call owes the backend tool call it came from.
pub open spec fn tool_call_normalized(t: ToolCallRequest, b: ToolCallData) -> bool {
    &&& t.id@ == b.id@
    &&& t.name@ == b.name@
    &&& (json_is_object(b.arguments@) ==> t.arguments is Object)
    &&& (!json_is_object(b.arguments@) ==> (t.arguments matches ToolArguments::Raw(x) && x@
        == b.arguments@))
}

/// Normalize a backend reply into the canonical response. A reply without
/// choices degrades to the conservative default: no content, no tool calls,
/// finish reason "stop", empty usage, no reasoning.
pub fn normalize_response(reply: BackendReply) -> (r: LLMResponse)
    ensures
        reply.choices@.len() == 0 ==> {
            &&& r.content is None
            &&& r.tool_calls@.len() == 0
            &&& r.finish_reason@ == ("stop").spec_bytes()
            &&& r.usage is None
            &&& r.reasoning_content is None
        },
        reply.choices@.len() > 0 ==> {
            let c = reply.choices@[0];
            &&& match c.content {
                Some(mc) => r.content matches Some(t) && t@ == spec_content_text(mc),
                None => r.content is None,
            }
            &&& match c.thinking {
                Some(th) => r.reasoning_content matches Some(t) && t@ == th@,
                None => r.reasoning_content is None,
            }
            &&& r.tool_calls@.len() == c.tool_calls@.len()
            &&& forall|i: int|
                0 <= i < c.tool_calls@.len() ==> tool_call_normalized(
                    #[trigger] r.tool_calls@[i],
                    c.tool_calls@[i],
                )
            &&& match c.finish_reason {
                Some(f) => r.finish_reason@ == f@,
                None => r.finish_reason@ == ("stop").spec_bytes(),
            }
            &&& r.usage == reply.usage
        },
{
    let BackendReply { mut choices, usage } = reply;
    if choices.len() == 0 {
        return LLMResponse {
            content: None,
            tool_calls: Vec::new(),
            finish_reason: bs("stop"),
            usage: None,
            reasoning_content: None,
        };
    }
    let choice = choices.remove(0);
    let content = match &choice.content {
        Some(mc) => Some(content_to_text(mc)),
        None => None,
    };
    let reasoning_content = match &choice.thinking {
        Some(th) => Some(copy_bytes(th)),
        None => None,
    };
    let mut tool_calls: Vec<ToolCallRequest> = Vec::new();
    let mut i: usize = 0;
    while i < choice.tool_calls.len()
        invariant
            i <= choice.tool_calls@.len(),
            tool_calls@.len() == i,
            forall|j: int|
                0 <= j < i ==> tool_call_normalized(
                    #[trigger] tool_calls@[j],
                    choice.tool_calls@[j],
                ),
        decreases choice.tool_calls@.len() - i,
    {
        let b = &choice.tool_calls[i];
        let args = tool_call_arguments(copy_bytes(&b.arguments));
        tool_calls.push(
            ToolCallRequest { id: copy_bytes(&b.id), name: copy_bytes(&b.name), arguments: args },
        );
        i = i + 1;
    }
    let finish_reason = match &choice.finish_reason {
        Some(f) => copy_bytes(f),
        None => bs("stop"),
    };
    LLMResponse { content, tool_calls, finish_reason, usage, reasoning_content }
}

} // verus!
