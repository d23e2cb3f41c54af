use nanobot_rs::env::EnvMap;
use nanobot_rs::provider::LiteLLMProvider;

#[test]
fn vendor_credential_never_overwrites_existing_value() {
    let provider = LiteLLMProvider::new(
        b"fresh-key".to_vec(),
        None,
        b"qwen-plus".to_vec(),
        None,
        None,
    );
    let mut env = EnvMap::new();
    env.set(&b"DASHSCOPE_API_KEY".to_vec(), &b"operator-key".to_vec());
    provider.provision_env(&mut env);
    assert_eq!(
        env.get(&b"DASHSCOPE_API_KEY".to_vec()),
        Some(&b"operator-key".to_vec())
    );
}

#[test]
fn vendor_credential_fills_an_unset_key() {
    let provider = LiteLLMProvider::new(
        b"fresh-key".to_vec(),
        None,
        b"qwen-plus".to_vec(),
        None,
        None,
    );
    let mut env = EnvMap::new();
    provider.provision_env(&mut env);
    assert_eq!(
        env.get(&b"DASHSCOPE_API_KEY".to_vec()),
        Some(&b"fresh-key".to_vec())
    );
}

#[test]
fn gateway_credential_always_overwrites() {
    let provider = LiteLLMProvider::new(
        b"sk-or-fresh".to_vec(),
        None,
        b"gpt-4o".to_vec(),
        None,
        None,
    );
    let mut env = EnvMap::new();
    env.set(&b"OPENROUTER_API_KEY".to_vec(), &b"stale".to_vec());
    provider.provision_env(&mut env);
    assert_eq!(
        env.get(&b"OPENROUTER_API_KEY".to_vec()),
        Some(&b"sk-or-fresh".to_vec())
    );
}

#[test]
fn auxiliary_entry_substitutes_the_credential() {
    let provider = LiteLLMProvider::new(
        b"zhipu-key".to_vec(),
        None,
        b"glm-4".to_vec(),
        None,
        None,
    );
    let mut env = EnvMap::new();
    provider.provision_env(&mut env);
    assert_eq!(
        env.get(&b"ZAI_API_KEY".to_vec()),
        Some(&b"zhipu-key".to_vec())
    );
    assert_eq!(
        env.get(&b"ZHIPUAI_API_KEY".to_vec()),
        Some(&b"zhipu-key".to_vec())
    );
}

#[test]
fn auxiliary_entry_substitutes_the_base_url() {
    let provider = LiteLLMProvider::new(
        b"moon-key".to_vec(),
        None,
        b"kimi-k2.5".to_vec(),
        None,
        None,
    );
    let mut env = EnvMap::new();
    provider.provision_env(&mut env);
    assert_eq!(
        env.get(&b"MOONSHOT_API_BASE".to_vec()),
        Some(&b"https://api.moonshot.ai/v1".to_vec())
    );

    let explicit = LiteLLMProvider::new(
        b"moon-key".to_vec(),
        Some(b"https://moon.example/v1".to_vec()),
        b"kimi-k2.5".to_vec(),
        None,
        None,
    );
    let mut env2 = EnvMap::new();
    explicit.provision_env(&mut env2);
    assert_eq!(
        env2.get(&b"MOONSHOT_API_BASE".to_vec()),
        Some(&b"https://moon.example/v1".to_vec())
    );
}

#[test]
fn auxiliary_entry_never_overwrites() {
    let provider = LiteLLMProvider::new(
        b"zhipu-key".to_vec(),
        None,
        b"glm-4".to_vec(),
        None,
        None,
    );
    let mut env = EnvMap::new();
    env.set(&b"ZHIPUAI_API_KEY".to_vec(), &b"kept".to_vec());
    provider.provision_env(&mut env);
    assert_eq!(
        env.get(&b"ZHIPUAI_API_KEY".to_vec()),
        Some(&b"kept".to_vec())
    );
}

#[test]
fn empty_credential_provisions_nothing() {
    let provider = LiteLLMProvider::new(Vec::new(), None, b"qwen-plus".to_vec(), None, None);
    let mut env = EnvMap::new();
    provider.provision_env(&mut env);
    assert!(env.get(&b"DASHSCOPE_API_KEY".to_vec()).is_none());
}

#[test]
fn unmatched_model_provisions_nothing() {
    let provider = LiteLLMProvider::new(
        b"some-key".to_vec(),
        None,
        b"mystery-model".to_vec(),
        None,
        None,
    );
    let mut env = EnvMap::new();
    provider.provision_env(&mut env);
    assert!(env.get(&b"OPENROUTER_API_KEY".to_vec()).is_none());
    assert!(env.get(&b"OPENAI_API_KEY".to_vec()).is_none());
}
