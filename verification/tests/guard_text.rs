use nanobot_rs::guard::{claims_no_tools_verdict, extract_json_candidate, extract_json_object, TurnGuard};
use nanobot_rs::response::{MessageContent, Role};

#[test]
fn extract_json_object_parses_plain_json() {
    let raw = b"{\"claims_no_tools\":true}".to_vec();
    let value = extract_json_object(&raw).expect("json should parse");
    assert_eq!(value.get("claims_no_tools"), Some(&serde_json::Value::Bool(true)));
}

#[test]
fn extract_json_object_parses_embedded_json() {
    let raw = b"```json\n{\"claims_no_tools\":false}\n```".to_vec();
    let value = extract_json_object(&raw).expect("embedded json should parse");
    assert_eq!(value.get("claims_no_tools"), Some(&serde_json::Value::Bool(false)));
}

#[test]
fn extract_json_object_rejects_text_without_an_object() {
    assert!(extract_json_object(&b"no braces here".to_vec()).is_none());
    assert!(extract_json_object(&b"{unbalanced".to_vec()).is_none());
    assert!(extract_json_object(&b"[1,2,3]".to_vec()).is_none());
}

#[test]
fn extract_json_object_skips_braces_inside_strings() {
    let raw = b"noise {\"a\":\"}{\",\"b\":1} tail".to_vec();
    let value = extract_json_object(&raw).expect("object should be found");
    assert_eq!(value.get("b"), Some(&serde_json::Value::Number(1u32.into())));
}

#[test]
fn tools_available_response_lists_tools_as_bullets() {
    let guard = TurnGuard::new(b"gpt-4o".to_vec(), b"web, exec, files".to_vec(), 3);
    let out = guard.tools_available_response();
    let expected = "当前运行时可用工具：\n- web\n- exec\n- files\n如需执行网络访问、命令执行、文件操作或定时任务，请直接给出目标。";
    assert_eq!(out, expected.as_bytes().to_vec());
}

#[test]
fn tools_available_response_reports_no_tools() {
    let guard = TurnGuard::new(b"gpt-4o".to_vec(), b"(none)".to_vec(), 3);
    assert_eq!(
        guard.tools_available_response(),
        "当前运行时未注册任何工具。".as_bytes().to_vec()
    );
}

#[test]
fn correction_message_names_the_tools() {
    let guard = TurnGuard::new(b"gpt-4o".to_vec(), b"web, exec".to_vec(), 3);
    let msg = guard.correction_message();
    assert!(matches!(msg.role, Role::System));
    match msg.content {
        Some(MessageContent::Text(t)) => {
            let expected = b"Correction: tools are available in this runtime. Available tools: web, exec. Do not claim tools are unavailable; call the appropriate tool directly.".to_vec();
            assert_eq!(t, expected);
        }
        _ => panic!("expected plain text content"),
    }
}

#[test]
fn classifier_is_consulted_only_when_it_can_help() {
    let guard = TurnGuard::new(b"gpt-4o".to_vec(), b"web, exec".to_vec(), 3);
    let content = b"I cannot use tools".to_vec();
    assert!(guard.should_consult_classifier(Some(&content), 0));
    assert!(!guard.should_consult_classifier(Some(&content), 3));
    assert!(!guard.should_consult_classifier(None, 0));
    let blank = b"   \n ".to_vec();
    assert!(!guard.should_consult_classifier(Some(&blank), 0));

    let toolless = TurnGuard::new(b"gpt-4o".to_vec(), b"(none)".to_vec(), 3);
    assert!(!toolless.should_consult_classifier(Some(&content), 0));
}

#[test]
fn classifier_messages_carry_the_instruction_and_the_response() {
    let guard = TurnGuard::new(b"gpt-4o".to_vec(), b"web".to_vec(), 3);
    let msgs = guard.classifier_messages(&b"there are no tools".to_vec());
    assert_eq!(msgs.len(), 2);
    assert!(matches!(msgs[0].role, Role::System));
    assert!(matches!(msgs[1].role, Role::User));
    match &msgs[1].content {
        Some(MessageContent::Text(t)) => {
            let expected =
                b"Runtime tools are available: web.\nAssistant response:\nthere are no tools"
                    .to_vec();
            assert_eq!(t, &expected);
        }
        _ => panic!("expected plain text content"),
    }
}

#[test]
fn verdict_is_true_only_on_an_explicit_true_claim() {
    let yes = b"{\"claims_no_tools\":true}".to_vec();
    assert!(claims_no_tools_verdict(Some(&yes)));

    let no = b"{\"claims_no_tools\":false}".to_vec();
    assert!(!claims_no_tools_verdict(Some(&no)));

    let missing = b"{\"other\":1}".to_vec();
    assert!(!claims_no_tools_verdict(Some(&missing)));

    let garbage = b"not even json".to_vec();
    assert!(!claims_no_tools_verdict(Some(&garbage)));

    assert!(!claims_no_tools_verdict(None));
}

#[test]
fn extraction_hands_back_the_exact_candidate_text() {
    let raw = b"```json\n{\"claims_no_tools\":false}\n```".to_vec();
    assert_eq!(
        extract_json_candidate(&raw),
        Some(b"{\"claims_no_tools\":false}".to_vec())
    );
    let plain = b"  {\"a\":1} ".to_vec();
    assert_eq!(extract_json_candidate(&plain), Some(b"{\"a\":1}".to_vec()));
    assert_eq!(extract_json_candidate(&b"nothing".to_vec()), None);
}
