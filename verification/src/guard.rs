//! Turn guard: the classifier-based correction of assistant replies that
//! falsely claim no tools are available. Holds the JSON-object extraction
//! scanner (plain parse first, then a balanced-brace scan over the text)
//! and the decision logic around the classifier call; the call itself is
//! asynchronous network work and stays with the embedding program.

use vstd::prelude::*;
use vstd::string::StringSliceAdditionalSpecFns;
use crate::response::{json_is_object, parse_json_object, ChatMessage, MessageContent, Role};
use crate::text::{bs, bytes_eq, concat_bytes, copy_bytes, replace_all, spec_replace_all,
    spec_trim, trim};

verus! {

/// The balanced-brace scan, byte for byte as the extraction runs it: from
/// position `i` with `depth` open braces, tracking string literals and
/// escapes, the index of the brace that closes the candidate, if any.
pub open spec fn spec_scan_end(
    s: Seq<u8>,
    i: int,
    depth: nat,
    in_str: bool,
    esc: bool,
) -> Option<int>
    decreases s.len() - i,
    when 0 <= i <= s.len()
{
    if i >= s.len() {
        None
    } else if in_str {
        if esc {
            spec_scan_end(s, i + 1, depth, true, false)
        } else if s[i] == 92 {
            spec_scan_end(s, i + 1, depth, true, true)
        } else if s[i] == 34 {
            spec_scan_end(s, i + 1, depth, false, false)
        } else {
            spec_scan_end(s, i + 1, depth, true, false)
        }
    } else if s[i] == 34 {
        spec_scan_end(s, i + 1, depth, true, false)
    } else if s[i] == 123 {
        spec_scan_end(s, i + 1, depth + 1, false, false)
    } else if s[i] == 125 {
        if depth == 0 {
            None
        } else if depth == 1 {
            Some(i)
        } else {
            spec_scan_end(s, i + 1, (depth - 1) as nat, false, false)
        }
    } else {
        spec_scan_end(s, i + 1, depth, false, false)
    }
}

/// A found end lies within the text, at or after the scan position.
proof fn lemma_scan_end_bounds(s: Seq<u8>, i: int, depth: nat, in_str: bool, esc: bool)
    requires
        0 <= i <= s.len(),
    ensures
        spec_scan_end(s, i, depth, in_str, esc) matches Some(e) ==> i <= e < s.len(),
    decreases s.len() - i,
{
    if i < s.len() {
        lemma_scan_end_bounds(s, i + 1, depth, true, false);
        lemma_scan_end_bounds(s, i + 1, depth, true, true);
        lemma_scan_end_bounds(s, i + 1, depth, false, false);
        lemma_scan_end_bounds(s, i + 1, depth + 1, false, false);
        if depth >= 1 {
            lemma_scan_end_bounds(s, i + 1, (depth - 1) as nat, false, false);
        }
    }
}

/// The candidate substring a `{` at `start` opens: from `start` through the
/// brace that balances it.
pub open spec fn spec_candidate(s: Seq<u8>, start: int) -> Option<Seq<u8>> {
    match spec_scan_end(s, start, 0, false, false) {
        None => None,
        Some(e) => Some(s.subrange(start, e + 1)),
    }
}

/// The first candidate at or after `start` that parses as a JSON object.
pub open spec fn spec_extract_from(s: Seq<u8>, start: int) -> Option<Seq<u8>>
    decreases s.len() - start,
    when 0 <= start <= s.len()
{
    if start >= s.len() {
        None
    } else if s[start] != 123 {
        spec_extract_from(s, start + 1)
    } else {
        match spec_candidate(s, start) {
            Some(c) => if json_is_object(c) {
                Some(c)
            } else {
                spec_extract_from(s, start + 1)
            },
            None => spec_extract_from(s, start + 1),
        }
    }
}

/// What extraction finds: the trimmed text itself when it parses as an
/// object, else the first balanced-brace candidate that does.
pub open spec fn spec_extract(s: Seq<u8>) -> Option<Seq<u8>> {
    if json_is_object(spec_trim(s)) {
        Some(spec_trim(s))
    } else {
        spec_extract_from(s, 0)
    }
}

/// Extract the JSON-object text out of free-form text: the trimmed text
/// when it parses as an object, and failing that the first balanced-brace
/// candidate (scanned from the left) that does.
pub fn extract_json_candidate(text: &Vec<u8>) -> (r: Option<Vec<u8>>)
    ensures
        match r {
            Some(c) => spec_extract(text@) == Some(c@),
            None => spec_extract(text@) is None,
        },
{
    let trimmed = trim(text);
    if parse_json_object(&trimmed).is_some() {
        return Some(trimmed);
    }
    let mut start: usize = 0;
    while start < text.len()
        invariant
            start <= text@.len(),
            !json_is_object(spec_trim(text@)),
            spec_extract_from(text@, 0) == spec_extract_from(text@, start as int),
        decreases text@.len() - start,
    {
        if text[start] == 123 {
            let mut i: usize = start;
            let mut depth: usize = 0;
            let mut in_str = false;
            let mut esc = false;
            let mut end: Option<usize> = None;
            let mut done = false;
            while !done && i < text.len()
                invariant
                    start <= i <= text@.len(),
                    depth <= i - start,
                    !done ==> end is None,
                    !in_str ==> esc == false,
                    !done ==> spec_scan_end(text@, start as int, 0, false, false)
                        == spec_scan_end(text@, i as int, depth as nat, in_str, esc),
                    done ==> match end {
                        Some(e) => spec_scan_end(text@, start as int, 0, false, false) == Some(
                            e as int,
                        ) && start <= e < text@.len(),
                        None => spec_scan_end(text@, start as int, 0, false, false) is None,
                    },
                decreases text@.len() - i + (if done {
                    0int
                } else {
                    1int
                }),
            {
                let c = text[i];
                let ghost s = text@;
                let ghost ii = i as int;
                let ghost d = depth as nat;
                if in_str {
                    if esc {
                        proof {
                            assert(spec_scan_end(s, ii, d, true, true) == spec_scan_end(
                                s,
                                ii + 1,
                                d,
                                true,
                                false,
                            ));
                        }
                        esc = false;
                    } else if c == 92 {
                        proof {
                            assert(spec_scan_end(s, ii, d, true, false) == spec_scan_end(
                                s,
                                ii + 1,
                                d,
                                true,
                                true,
                            ));
                        }
                        esc = true;
                    } else if c == 34 {
                        proof {
                            assert(spec_scan_end(s, ii, d, true, false) == spec_scan_end(
                                s,
                                ii + 1,
                                d,
                                false,
                                false,
                            ));
                        }
                        in_str = false;
                    } else {
                        proof {
                            assert(spec_scan_end(s, ii, d, true, false) == spec_scan_end(
                                s,
                                ii + 1,
                                d,
                                true,
                                false,
                            ));
                        }
                    }
                    i = i + 1;
                } else if c == 34 {
                    proof {
                        assert(spec_scan_end(s, ii, d, false, false) == spec_scan_end(
                            s,
                            ii + 1,
                            d,
                            true,
                            false,
                        ));
                    }
                    in_str = true;
                    i = i + 1;
                } else if c == 123 {
                    proof {
                        assert(spec_scan_end(s, ii, d, false, false) == spec_scan_end(
                            s,
                            ii + 1,
                            d + 1,
                            false,
                            false,
                        ));
                    }
                    depth = depth + 1;
                    i = i + 1;
                } else if c == 125 {
                    if depth == 0 {
                        proof {
                            assert(spec_scan_end(s, ii, d, false, false) is None);
                        }
                        done = true;
                    } else if depth == 1 {
                        proof {
                            assert(spec_scan_end(s, ii, d, false, false) == Some(ii));
                        }
                        end = Some(i);
                        done = true;
                    } else {
                        proof {
                            assert(spec_scan_end(s, ii, d, false, false) == spec_scan_end(
                                s,
                                ii + 1,
                                (d - 1) as nat,
                                false,
                                false,
                            ));
                        }
                        depth = depth - 1;
                        i = i + 1;
                    }
                } else {
                    proof {
                        assert(spec_scan_end(s, ii, d, false, false) == spec_scan_end(
                            s,
                            ii + 1,
                            d,
                            false,
                            false,
                        ));
                    }
                    i = i + 1;
                }
            }
            match end {
                Some(e) => {
                    let mut candidate: Vec<u8> = Vec::new();
                    let mut k: usize = start;
                    while k < e + 1
                        invariant
                            start <= k <= e + 1,
                            e < text@.len(),
                            candidate@ == text@.subrange(start as int, k as int),
                        decreases e + 1 - k,
                    {
                        candidate.push(text[k]);
                        proof {
                            assert(candidate@ =~= text@.subrange(start as int, k + 1));
                        }
                        k = k + 1;
                    }
                    if parse_json_object(&candidate).is_some() {
                        return Some(candidate);
                    }
                },
                None => {},
            }
        }
        start = start + 1;
    }
    None
}

/// Whatever extraction hands out parses as a JSON object.
proof fn lemma_extract_from_object(s: Seq<u8>, start: int)
    requires
        0 <= start <= s.len(),
    ensures
        spec_extract_from(s, start) matches Some(c) ==> json_is_object(c),
    decreases s.len() - start,
{
    if start < s.len() {
        lemma_extract_from_object(s, start + 1);
    }
}

/// Extract a JSON object from free-form text, as a parsed map.
pub fn extract_json_object(text: &Vec<u8>) -> (r: Option<
    serde_json::Map<String, serde_json::Value>,
>)
    ensures
        r is Some <==> spec_extract(text@) is Some,
{
    match extract_json_candidate(text) {
        Some(c) => {
            proof {
                lemma_extract_from_object(text@, 0);
            }
            parse_json_object(&c)
        },
        None => None,
    }
}

/// The optional boolean field the bytes carry under `key` once parsed as a
/// JSON object; a function of the bytes and the key alone.
pub uninterp spec fn json_bool_field(s: Seq<u8>, key: Seq<u8>) -> Option<bool>;

/// Relies on serde_json::from_slice, Value::get and Value::as_bool: parse
/// the object text and read its boolean field under `key`; anything else
/// (no parse, no such key, a non-boolean value) is `None`. The outcome
/// depends on the bytes and the key alone, which `json_bool_field` names.
#[verifier::external_body]
fn json_object_bool_field(object_text: &Vec<u8>, key: &Vec<u8>) -> (r: Option<bool>)
    ensures
        r == json_bool_field(object_text@, key@),
{
    let k = String::from_utf8_lossy(key.as_slice()).into_owned();
    match serde_json::from_slice::<serde_json::Value>(object_text.as_slice()) {
        Ok(v) => v.get(k.as_str()).and_then(serde_json::Value::as_bool),
        _ => None,
    }
}

/// The guard's immutable configuration: the classifier model, the rendered
/// tool list, and the retry budget.
pub struct TurnGuard {
    pub model: Vec<u8>,
    pub tools_text: Vec<u8>,
    pub max_iterations: u32,
}

/// The rendered tool list as bullet items: every `", "` separator becomes a
/// newline bullet.
pub open spec fn spec_tools_items(tools: Seq<u8>) -> Seq<u8> {
    let sep = (", ").spec_bytes();
    if sep.len() > 0 {
        spec_replace_all(tools, sep, ("\n- ").spec_bytes())
    } else {
        tools
    }
}

impl TurnGuard {
    /// A guard for one conversation turn.
    pub fn new(model: Vec<u8>, tools_text: Vec<u8>, max_iterations: u32) -> (r: TurnGuard)
        ensures
            r.model@ == model@,
            r.tools_text@ == tools_text@,
            r.max_iterations == max_iterations,
    {
        TurnGuard { model, tools_text, max_iterations }
    }

    /// The system message injected after a false no-tools claim.
    pub fn correction_message(&self) -> (r: ChatMessage)
        ensures
            r.role is System,
            r.name is None,
            r.tool_call_id is None,
            r.tool_calls is None,
            r.function_call is None,
            r.content matches Some(MessageContent::Text(t)) && t@ == (
            "Correction: tools are available in this runtime. Available tools: ").spec_bytes()
                + self.tools_text@ + (
            ". Do not claim tools are unavailable; call the appropriate tool directly.").spec_bytes(),
    {
        let head = concat_bytes(
            &bs("Correction: tools are available in this runtime. Available tools: "),
            &self.tools_text,
        );
        let body = concat_bytes(
            &head,
            &bs(". Do not claim tools are unavailable; call the appropriate tool directly."),
        );
        ChatMessage {
            role: Role::System,
            content: Some(MessageContent::Text(body)),
            name: None,
            tool_call_id: None,
            tool_calls: None,
            function_call: None,
        }
    }

    /// The user-facing answer that lists the available tools, or says that
    /// none are registered.
    pub fn tools_available_response(&self) -> (r: Vec<u8>)
        ensures
            self.tools_text@ == ("(none)").spec_bytes() ==> r@ == (
            "当前运行时未注册任何工具。").spec_bytes(),
            self.tools_text@ != ("(none)").spec_bytes() ==> r@ == (
            "当前运行时可用工具：\n- ").spec_bytes() + spec_tools_items(self.tools_text@) + (
            "\n如需执行网络访问、命令执行、文件操作或定时任务，请直接给出目标。").spec_bytes(),
    {
        if bytes_eq(&self.tools_text, &bs("(none)")) {
            return bs("当前运行时未注册任何工具。");
        }
        let sep = bs(", ");
        let items = if sep.len() > 0 {
            replace_all(&self.tools_text, &sep, &bs("\n- "))
        } else {
            copy_bytes(&self.tools_text)
        };
        let head = concat_bytes(&bs("当前运行时可用工具：\n- "), &items);
        concat_bytes(
            &head,
            &bs("\n如需执行网络访问、命令执行、文件操作或定时任务，请直接给出目标。"),
        )
    }

    /// Whether a classifier call is warranted at all: within the retry
    /// budget, with tools registered, and with non-blank assistant text.
    pub fn should_consult_classifier(&self, content: Option<&Vec<u8>>, iteration: u32) -> (r:
        bool)
        ensures
            r == (iteration < self.max_iterations && self.tools_text@ != (
            "(none)").spec_bytes() && (content matches Some(c) && spec_trim(c@).len() != 0)),
    {
        if iteration >= self.max_iterations {
            return false;
        }
        if bytes_eq(&self.tools_text, &bs("(none)")) {
            return false;
        }
        match content {
            Some(c) => {
                let t = trim(c);
                t.len() != 0
            },
            None => false,
        }
    }

    /// The two-message classifier conversation: a fixed system instruction
    /// and the tool list with the assistant response under scrutiny.
    pub fn classifier_messages(&self, content: &Vec<u8>) -> (r: Vec<ChatMessage>)
        ensures
            r@.len() == 2,
            r@[0].role is System,
            r@[0].content matches Some(MessageContent::Text(t)) && t@ == (
            "You are a strict classifier. Return ONLY one JSON object with boolean key claims_no_tools. If the assistant response explicitly or implicitly claims that tools are unavailable in the current runtime, set claims_no_tools=true. Otherwise false. Do not output markdown or extra text.").spec_bytes(),
            r@[1].role is User,
            r@[1].content matches Some(MessageContent::Text(t)) && t@ == (
            "Runtime tools are available: ").spec_bytes() + self.tools_text@ + (
            ".\nAssistant response:\n").spec_bytes() + content@,
    {
        let mut out: Vec<ChatMessage> = Vec::new();
        out.push(
            ChatMessage {
                role: Role::System,
                content: Some(
                    MessageContent::Text(
                        bs(
                            "You are a strict classifier. Return ONLY one JSON object with boolean key claims_no_tools. If the assistant response explicitly or implicitly claims that tools are unavailable in the current runtime, set claims_no_tools=true. Otherwise false. Do not output markdown or extra text.",
                        ),
                    ),
                ),
                name: None,
                tool_call_id: None,
                tool_calls: None,
                function_call: None,
            },
        );
        let head = concat_bytes(&bs("Runtime tools are available: "), &self.tools_text);
        let mid = concat_bytes(&head, &bs(".\nAssistant response:\n"));
        let body = concat_bytes(&mid, content);
        out.push(
            ChatMessage {
                role: Role::User,
                content: Some(MessageContent::Text(body)),
                name: None,
                tool_call_id: None,
                tool_calls: None,
                function_call: None,
            },
        );
        out
    }
}

/// The verdict drawn from the classifier's reply text: `true` exactly
/// when an object can be extracted from the content and it carries a
/// boolean `claims_no_tools` that is true. Every failure mode -- no
/// content, no extractable object, a missing key, a non-boolean value --
/// degrades to `false`, so an uncertain signal never causes a retry.
pub fn claims_no_tools_verdict(content: Option<&Vec<u8>>) -> (r: bool)
    ensures
        r == (match content {
            Some(t) => match spec_extract(t@) {
                Some(c) => json_bool_field(c, ("claims_no_tools").spec_bytes()) == Some(true),
                None => false,
            },
            None => false,
        }),
{
    match content {
        Some(t) => match extract_json_candidate(t) {
            Some(c) => match json_object_bool_field(&c, &bs("claims_no_tools")) {
                Some(b) => b,
                None => false,
            },
            None => false,
        },
        None => false,
    }
}

} // verus!
