use nanobot_rs::catalog::{check_catalog, default_catalog, find_by_model, find_gateway};
use nanobot_rs::provider::LiteLLMProvider;

#[test]
fn gateway_detects_by_provider_name_and_key_prefix() {
    let cat = default_catalog();
    let name = b"vllm".to_vec();
    let by_name = find_gateway(&cat, Some(&name), None, None).expect("expected vllm gateway");
    assert_eq!(cat[by_name].name, b"vllm".to_vec());

    let key = b"sk-or-test".to_vec();
    let by_key = find_gateway(&cat, None, Some(&key), None).expect("expected openrouter");
    assert_eq!(cat[by_key].name, b"openrouter".to_vec());
}

#[test]
fn resolve_model_applies_gateway_and_provider_rules() {
    let gateway_name = b"aihubmix".to_vec();
    let aihubmix = LiteLLMProvider::new(
        Vec::new(),
        Some(b"https://aihubmix.com/v1".to_vec()),
        b"anthropic/sonnet-3-7".to_vec(),
        None,
        Some(&gateway_name),
    );
    assert_eq!(
        aihubmix.resolve_model(&b"anthropic/sonnet-3-7".to_vec()),
        b"openai/sonnet-3-7".to_vec()
    );

    let standard = LiteLLMProvider::new(Vec::new(), None, b"qwen-plus".to_vec(), None, None);
    assert_eq!(
        standard.resolve_model(&b"qwen-plus".to_vec()),
        b"dashscope/qwen-plus".to_vec()
    );
    assert_eq!(
        standard.resolve_model(&b"dashscope/qwen-plus".to_vec()),
        b"dashscope/qwen-plus".to_vec()
    );
}

#[test]
fn model_override_applies_kimi_temperature_floor() {
    let provider = LiteLLMProvider::new(Vec::new(), None, b"kimi-k2.5".to_vec(), None, None);
    let mut temp: u32 = 200;
    provider.apply_model_overrides(&b"moonshot/kimi-k2.5".to_vec(), &mut temp);
    assert_eq!(temp, 1000);
}

#[test]
fn override_leaves_temperature_without_match() {
    let provider = LiteLLMProvider::new(Vec::new(), None, b"kimi-k1".to_vec(), None, None);
    let mut temp: u32 = 200;
    provider.apply_model_overrides(&b"moonshot/kimi-k1".to_vec(), &mut temp);
    assert_eq!(temp, 200);
}

#[test]
fn stock_catalog_passes_the_resolution_discipline_audit() {
    let cat = default_catalog();
    assert!(check_catalog(&cat));
}

#[test]
fn explicit_gateway_name_beats_key_signal() {
    let cat = default_catalog();
    let name = b"aihubmix".to_vec();
    let key = b"sk-or-live".to_vec();
    let chosen = find_gateway(&cat, Some(&name), Some(&key), None).expect("expected a gateway");
    assert_eq!(cat[chosen].name, b"aihubmix".to_vec());
}

#[test]
fn non_gateway_name_falls_back_to_signals() {
    let cat = default_catalog();
    let name = b"deepseek".to_vec();
    let key = b"sk-or-live".to_vec();
    let chosen = find_gateway(&cat, Some(&name), Some(&key), None).expect("expected detection");
    assert_eq!(cat[chosen].name, b"openrouter".to_vec());
}

#[test]
fn base_url_signal_detects_gateway() {
    let cat = default_catalog();
    let base = b"https://aihubmix.com/v1".to_vec();
    let chosen = find_gateway(&cat, None, None, Some(&base)).expect("expected aihubmix");
    assert_eq!(cat[chosen].name, b"aihubmix".to_vec());
}

#[test]
fn no_signal_means_no_gateway() {
    let cat = default_catalog();
    let key = b"sk-plain".to_vec();
    let base = b"https://api.example.com/v1".to_vec();
    assert!(find_gateway(&cat, None, Some(&key), Some(&base)).is_none());
}

#[test]
fn vendor_detection_is_case_insensitive() {
    let cat = default_catalog();
    let hit = find_by_model(&cat, &b"Anthropic-3-Large".to_vec()).expect("expected anthropic");
    assert_eq!(cat[hit].name, b"anthropic".to_vec());
}

#[test]
fn unknown_model_passes_through_unchanged() {
    let provider = LiteLLMProvider::new(Vec::new(), None, b"mystery-model".to_vec(), None, None);
    assert_eq!(
        provider.resolve_model(&b"mystery-model".to_vec()),
        b"mystery-model".to_vec()
    );
}

#[test]
fn local_gateway_prefixes_once_and_never_twice() {
    let gateway_name = b"vllm".to_vec();
    let provider = LiteLLMProvider::new(
        Vec::new(),
        None,
        b"meta-llama".to_vec(),
        None,
        Some(&gateway_name),
    );
    assert_eq!(
        provider.resolve_model(&b"meta-llama".to_vec()),
        b"hosted_vllm/meta-llama".to_vec()
    );
    assert_eq!(
        provider.resolve_model(&b"hosted_vllm/meta-llama".to_vec()),
        b"hosted_vllm/meta-llama".to_vec()
    );
}

#[test]
fn default_model_is_kept() {
    let provider = LiteLLMProvider::new(Vec::new(), None, b"qwen-plus".to_vec(), None, None);
    assert_eq!(provider.default_model(), &b"qwen-plus".to_vec());
}

#[test]
fn effective_base_prefers_explicit_then_gateway_then_vendor() {
    let gateway_name = b"openrouter".to_vec();
    let with_explicit = LiteLLMProvider::new(
        b"sk-or-x".to_vec(),
        Some(b"https://proxy.example/v1".to_vec()),
        b"gpt-4o".to_vec(),
        None,
        Some(&gateway_name),
    );
    assert_eq!(
        with_explicit.effective_api_base(&b"gpt-4o".to_vec()),
        Some(b"https://proxy.example/v1".to_vec())
    );

    let with_gateway = LiteLLMProvider::new(
        b"sk-or-x".to_vec(),
        None,
        b"gpt-4o".to_vec(),
        None,
        Some(&gateway_name),
    );
    assert_eq!(
        with_gateway.effective_api_base(&b"gpt-4o".to_vec()),
        Some(b"https://openrouter.ai/api/v1".to_vec())
    );

    let vendor_only = LiteLLMProvider::new(Vec::new(), None, b"kimi-k2.5".to_vec(), None, None);
    assert_eq!(
        vendor_only.effective_api_base(&b"kimi-k2.5".to_vec()),
        Some(b"https://api.moonshot.ai/v1".to_vec())
    );
    assert_eq!(vendor_only.effective_api_base(&b"gpt-4o".to_vec()), None);
}

#[test]
fn resolution_is_idempotent_across_paths() {
    let gateway_name = b"aihubmix".to_vec();
    let gateway = LiteLLMProvider::new(
        Vec::new(),
        None,
        b"anthropic/sonnet-3-7".to_vec(),
        None,
        Some(&gateway_name),
    );
    let no_gateway = LiteLLMProvider::new(Vec::new(), None, b"qwen-plus".to_vec(), None, None);
    let samples: Vec<Vec<u8>> = vec![
        b"anthropic/sonnet-3-7".to_vec(),
        b"qwen-plus".to_vec(),
        b"glm-4".to_vec(),
        b"deepseek-chat".to_vec(),
        b"openrouter/moonshotai/kimi-k2".to_vec(),
        b"mystery-model".to_vec(),
        b"gpt-4o".to_vec(),
    ];
    for m in &samples {
        let once = gateway.resolve_model(m);
        assert_eq!(gateway.resolve_model(&once), once);
        let once = no_gateway.resolve_model(m);
        assert_eq!(no_gateway.resolve_model(&once), once);
    }
}

#[test]
fn skip_prefixes_protect_already_final_identifiers() {
    let provider = LiteLLMProvider::new(Vec::new(), None, b"glm-4".to_vec(), None, None);
    assert_eq!(provider.resolve_model(&b"glm-4".to_vec()), b"zai/glm-4".to_vec());
    assert_eq!(
        provider.resolve_model(&b"openrouter/z-ai/glm-4.5".to_vec()),
        b"openrouter/z-ai/glm-4.5".to_vec()
    );
}
