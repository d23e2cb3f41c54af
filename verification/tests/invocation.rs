use nanobot_rs::invoke::{aggregate_error, should_fallback, single_error};
use nanobot_rs::provider::LiteLLMProvider;
use nanobot_rs::response::{
    normalize_response, BackendChoice, BackendReply, ToolCallData, ContentPart,
    MessageContent, ToolArguments,
};

#[test]
fn fallback_triggers_only_when_resolution_changed_and_primary_failed() {
    let resolved = b"dashscope/qwen-plus".to_vec();
    let raw = b"qwen-plus".to_vec();
    assert!(should_fallback(&resolved, &raw, true));
    assert!(!should_fallback(&resolved, &raw, false));
    assert!(!should_fallback(&raw, &raw, true));
    assert!(!should_fallback(&raw, &raw, false));
}

#[test]
fn aggregate_error_keeps_both_failure_texts() {
    let out = aggregate_error(&b"bad id".to_vec(), &b"bad endpoint".to_vec());
    assert_eq!(
        out,
        b"failed to call litellm-rs completion: primary=bad id; fallback=bad endpoint".to_vec()
    );
}

#[test]
fn single_error_names_the_call() {
    let out = single_error(&b"boom".to_vec());
    assert_eq!(out, b"failed to call litellm-rs completion: boom".to_vec());
}

#[test]
fn plan_chat_defaults_resolves_and_floors() {
    let provider = LiteLLMProvider::new(
        b"moon-key".to_vec(),
        None,
        b"kimi-k2.5".to_vec(),
        None,
        None,
    );
    let plan = provider.plan_chat(None, 200);
    assert_eq!(plan.selected_model, b"kimi-k2.5".to_vec());
    assert_eq!(plan.resolved_model, b"moonshot/kimi-k2.5".to_vec());
    assert_eq!(plan.temperature_milli, 1000);
    assert_eq!(plan.api_base, Some(b"https://api.moonshot.ai/v1".to_vec()));
    assert_eq!(plan.api_key, Some(b"moon-key".to_vec()));

    let explicit = provider.plan_chat(Some(&b"qwen-plus".to_vec()), 700);
    assert_eq!(explicit.selected_model, b"qwen-plus".to_vec());
    assert_eq!(explicit.resolved_model, b"dashscope/qwen-plus".to_vec());
    assert_eq!(explicit.temperature_milli, 700);
}

#[test]
fn reply_without_choices_degrades_to_the_conservative_default() {
    let reply = BackendReply { choices: Vec::new(), usage: None };
    let out = normalize_response(reply);
    assert!(out.content.is_none());
    assert!(out.tool_calls.is_empty());
    assert_eq!(out.finish_reason, b"stop".to_vec());
    assert!(out.usage.is_none());
    assert!(out.reasoning_content.is_none());
}

#[test]
fn multi_part_content_is_joined_with_newlines() {
    let reply = BackendReply {
        choices: vec![BackendChoice {
            content: Some(MessageContent::Parts(vec![
                ContentPart::Text(b"first".to_vec()),
                ContentPart::Other,
                ContentPart::ToolResult { id: b"tu-1".to_vec(), content: b"second".to_vec() },
            ])),
            thinking: Some(b"pondering".to_vec()),
            tool_calls: Vec::new(),
            finish_reason: Some(b"length".to_vec()),
        }],
        usage: None,
    };
    let out = normalize_response(reply);
    assert_eq!(out.content, Some(b"first\nsecond".to_vec()));
    assert_eq!(out.reasoning_content, Some(b"pondering".to_vec()));
    assert_eq!(out.finish_reason, b"length".to_vec());
}

#[test]
fn missing_finish_reason_defaults_to_stop() {
    let reply = BackendReply {
        choices: vec![BackendChoice {
            content: Some(MessageContent::Text(b"hello".to_vec())),
            thinking: None,
            tool_calls: Vec::new(),
            finish_reason: None,
        }],
        usage: None,
    };
    let out = normalize_response(reply);
    assert_eq!(out.content, Some(b"hello".to_vec()));
    assert_eq!(out.finish_reason, b"stop".to_vec());
    assert!(!out.has_tool_calls());
}

#[test]
fn well_formed_arguments_become_an_object() {
    let reply = BackendReply {
        choices: vec![BackendChoice {
            content: None,
            thinking: None,
            tool_calls: vec![ToolCallData {
                id: b"call-1".to_vec(),
                name: b"search".to_vec(),
                arguments: b"{\"query\":\"weather\"}".to_vec(),
            }],
            finish_reason: Some(b"tool_calls".to_vec()),
        }],
        usage: None,
    };
    let out = normalize_response(reply);
    assert!(out.has_tool_calls());
    assert_eq!(out.tool_calls.len(), 1);
    assert_eq!(out.tool_calls[0].id, b"call-1".to_vec());
    assert_eq!(out.tool_calls[0].name, b"search".to_vec());
    match &out.tool_calls[0].arguments {
        ToolArguments::Object(m) => {
            assert_eq!(
                m.get("query"),
                Some(&serde_json::Value::String("weather".to_string()))
            );
        }
        ToolArguments::Raw(_) => panic!("expected a parsed object"),
    }
}

#[test]
fn malformed_arguments_are_kept_raw_and_lossless() {
    let reply = BackendReply {
        choices: vec![BackendChoice {
            content: None,
            thinking: None,
            tool_calls: vec![ToolCallData {
                id: b"call-2".to_vec(),
                name: b"search".to_vec(),
                arguments: b"not json at all".to_vec(),
            }],
            finish_reason: None,
        }],
        usage: None,
    };
    let out = normalize_response(reply);
    match &out.tool_calls[0].arguments {
        ToolArguments::Raw(raw) => assert_eq!(raw, &b"not json at all".to_vec()),
        ToolArguments::Object(_) => panic!("expected the raw fallback"),
    }
}

#[test]
fn non_object_json_arguments_are_kept_raw() {
    let reply = BackendReply {
        choices: vec![BackendChoice {
            content: None,
            thinking: None,
            tool_calls: vec![ToolCallData {
                id: b"call-3".to_vec(),
                name: b"search".to_vec(),
                arguments: b"[1,2,3]".to_vec(),
            }],
            finish_reason: None,
        }],
        usage: None,
    };
    let out = normalize_response(reply);
    match &out.tool_calls[0].arguments {
        ToolArguments::Raw(raw) => assert_eq!(raw, &b"[1,2,3]".to_vec()),
        ToolArguments::Object(_) => panic!("expected the raw fallback"),
    }
}

#[test]
fn usage_is_carried_through() {
    let mut usage = serde_json::Map::new();
    usage.insert(
        "total_tokens".to_string(),
        serde_json::Value::Number(serde_json::Number::from(7u32)),
    );
    let reply = BackendReply {
        choices: vec![BackendChoice {
            content: Some(MessageContent::Text(b"ok".to_vec())),
            thinking: None,
            tool_calls: Vec::new(),
            finish_reason: None,
        }],
        usage: Some(usage),
    };
    let out = normalize_response(reply);
    let carried = out.usage.expect("usage should be carried through");
    assert_eq!(
        carried.get("total_tokens"),
        Some(&serde_json::Value::Number(serde_json::Number::from(7u32)))
    );
}

#[test]
fn plan_chat_carries_the_extra_headers() {
    let headers = vec![(b"X-Title".to_vec(), b"nanobot".to_vec())];
    let provider = LiteLLMProvider::new(
        b"sk-or-x".to_vec(),
        None,
        b"gpt-4o".to_vec(),
        Some(headers.clone()),
        None,
    );
    let plan = provider.plan_chat(None, 700);
    assert_eq!(plan.extra_headers, headers);

    let bare = LiteLLMProvider::new(b"sk-or-x".to_vec(), None, b"gpt-4o".to_vec(), None, None);
    assert!(bare.plan_chat(None, 700).extra_headers.is_empty());
}
