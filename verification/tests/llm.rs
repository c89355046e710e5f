use dot_agent_deck::llm::{
    answer_in, anthropic_key_vars, call_llm, env_api_key, is_accepted, openai_key_vars, read_reply,
    HttpCall, LlmError, LlmRequest, Provider,
};
use serde_json::Value;

const PREFIXED: &str = "DOT_AGENT_DECK_ANTHROPIC_API_KEY";
const BARE: &str = "ANTHROPIC_API_KEY";

fn env(vars: &[(&str, Option<&str>)]) -> Vec<(String, String)> {
    vars.iter()
        .filter_map(|(name, value)| value.map(|v| (name.to_string(), v.to_string())))
        .collect()
}

fn request(provider: &str) -> LlmRequest {
    LlmRequest {
        system_prompt: "be \"brief\"".to_string(),
        user_message: "why?\n\u{1}".to_string(),
        provider: provider.to_string(),
        model: "m-1".to_string(),
    }
}

fn headers(call: &HttpCall) -> Vec<(&str, &str)> {
    call.headers
        .iter()
        .map(|(name, value)| (name.as_str(), value.as_str()))
        .collect()
}

fn parsed(text: &str) -> Value {
    serde_json::from_str(text).unwrap()
}

#[test]
fn prefixed_anthropic_key_wins_over_bare() {
    let env = env(&[(PREFIXED, Some("deck-key")), (BARE, Some("general-key"))]);
    assert_eq!(env_api_key(&anthropic_key_vars(), &env).unwrap(), "deck-key");
}

#[test]
fn bare_anthropic_key_still_works_as_fallback() {
    let env = env(&[(PREFIXED, None), (BARE, Some("general-key"))]);
    assert_eq!(env_api_key(&anthropic_key_vars(), &env).unwrap(), "general-key");
}

#[test]
fn blank_prefixed_key_falls_through_to_bare() {
    let env = env(&[(PREFIXED, Some("   ")), (BARE, Some("general-key"))]);
    assert_eq!(env_api_key(&anthropic_key_vars(), &env).unwrap(), "general-key");
}

#[test]
fn missing_anthropic_key_names_both_vars() {
    let env = env(&[(PREFIXED, None), (BARE, Some(""))]);
    let err = env_api_key(&anthropic_key_vars(), &env).unwrap_err();
    assert!(
        matches!(&err, LlmError::MissingApiKey { env_var } if env_var == "DOT_AGENT_DECK_ANTHROPIC_API_KEY or ANTHROPIC_API_KEY"),
        "unexpected error: {}",
        err.message()
    );
}

#[test]
fn the_variables_are_tried_in_order() {
    assert_eq!(anthropic_key_vars(), [PREFIXED, BARE]);
    assert_eq!(
        openai_key_vars(),
        ["DOT_AGENT_DECK_OPENAI_API_KEY", "OPENAI_API_KEY"]
    );
    assert_eq!(
        env_api_key(&[], &env(&[(BARE, Some("k"))])),
        Err(LlmError::MissingApiKey {
            env_var: String::new()
        })
    );
    // The key keeps the white space around it.
    assert_eq!(
        env_api_key(&[BARE], &env(&[("X", Some("x")), (BARE, Some(" k "))])),
        Ok(" k ".to_string())
    );
}

#[test]
fn anthropic_is_called_with_its_key() {
    let call = call_llm(&request("anthropic"), &env(&[(BARE, Some("k"))])).unwrap();
    assert_eq!(call.provider, Provider::Anthropic);
    assert_eq!(call.url, "https://api.anthropic.com/v1/messages");
    assert_eq!(
        headers(&call),
        vec![
            ("x-api-key", "k"),
            ("anthropic-version", "2023-06-01"),
            ("content-type", "application/json"),
        ]
    );
    assert_eq!(call.timeout_secs, 30);
    assert_eq!(
        call.body,
        "{\"max_tokens\":1024,\"messages\":[{\"content\":\"why?\\n\\u0001\",\"role\":\"user\"}],\"model\":\"m-1\",\"system\":[{\"text\":\"be \\\"brief\\\"\",\"type\":\"text\"}]}"
    );
    let body = parsed(&call.body);
    assert_eq!(body["model"], "m-1");
    assert_eq!(body["max_tokens"], 1024);
    assert_eq!(body["system"][0]["type"], "text");
    assert_eq!(body["system"][0]["text"], "be \"brief\"");
    assert_eq!(body["messages"][0]["role"], "user");
    assert_eq!(body["messages"][0]["content"], "why?\n\u{1}");
    // The document is written as serde_json writes it.
    assert_eq!(serde_json::to_string(&body).unwrap(), call.body);
}

#[test]
fn openai_is_called_with_its_key() {
    let vars = env(&[("OPENAI_API_KEY", Some("k"))]);
    let call = call_llm(&request("openai"), &vars).unwrap();
    assert_eq!(call.provider, Provider::OpenAi);
    assert_eq!(call.url, "https://api.openai.com/v1/chat/completions");
    assert_eq!(
        headers(&call),
        vec![
            ("Authorization", "Bearer k"),
            ("content-type", "application/json"),
        ]
    );
    assert_eq!(call.timeout_secs, 30);
    let body = parsed(&call.body);
    assert_eq!(body["model"], "m-1");
    assert_eq!(body["max_tokens"], 1024);
    assert_eq!(body["messages"][0]["role"], "system");
    assert_eq!(body["messages"][0]["content"], "be \"brief\"");
    assert_eq!(body["messages"][1]["role"], "user");
    assert_eq!(body["messages"][1]["content"], "why?\n\u{1}");
    assert_eq!(serde_json::to_string(&body).unwrap(), call.body);
    assert_eq!(
        call_llm(&request("openai"), &env(&[(BARE, Some("k"))]))
            .unwrap_err()
            .message(),
        "Missing API key: set DOT_AGENT_DECK_OPENAI_API_KEY or OPENAI_API_KEY environment variable"
    );
}

#[test]
fn ollama_is_called_without_a_key() {
    let call = call_llm(&request("ollama"), &[]).unwrap();
    assert_eq!(call.provider, Provider::Ollama);
    assert_eq!(call.url, "http://localhost:11434/api/generate");
    assert_eq!(headers(&call), vec![("content-type", "application/json")]);
    assert_eq!(call.timeout_secs, 60);
    let body = parsed(&call.body);
    assert_eq!(body["model"], "m-1");
    assert_eq!(body["prompt"], "be \"brief\"\n\nwhy?\n\u{1}");
    assert_eq!(body["stream"], false);
    assert_eq!(serde_json::to_string(&body).unwrap(), call.body);
}

#[test]
fn an_unknown_provider_is_refused() {
    let refused = call_llm(&request("Anthropic"), &env(&[(BARE, Some("k"))])).unwrap_err();
    assert_eq!(
        refused,
        LlmError::UnsupportedProvider("Anthropic".to_string())
    );
    assert_eq!(refused.message(), "Unsupported provider: Anthropic");
}

#[test]
fn every_character_is_quoted_as_serde_json_quotes_it() {
    let mut all = request("ollama");
    all.system_prompt = String::new();
    all.user_message = (0..0x180u32).filter_map(char::from_u32).collect();
    all.model = "\u{7f}\u{2028}😀\\/\u{8}\u{c}\u{1f}".to_string();
    let call = call_llm(&all, &[]).unwrap();
    let body = parsed(&call.body);
    assert_eq!(body["prompt"], format!("\n\n{}", all.user_message));
    assert_eq!(body["model"], all.model);
    assert!(call.body.contains("\u{7f}\u{2028}😀\\\\/\\b\\f\\u001f"));
    assert!(call.body.contains("\\u0000\\u0001"));
    assert_eq!(serde_json::to_string(&body).unwrap(), call.body);
}

#[test]
fn the_answer_is_found_where_each_provider_puts_it() {
    let anthropic = br#"{"content":[{"type":"text","text":"a"},{"text":"b"}]}"#;
    let openai = br#"{"choices":[{"message":{"role":"assistant","content":"o"}}]}"#;
    let ollama = br#"{"response":"r","done":true}"#;
    assert_eq!(read_reply(Provider::Anthropic, 200, anthropic, ""), Ok("a".to_string()));
    assert_eq!(read_reply(Provider::OpenAi, 200, openai, ""), Ok("o".to_string()));
    assert_eq!(read_reply(Provider::Ollama, 200, ollama, ""), Ok("r".to_string()));
    assert_eq!(
        read_reply(Provider::Ollama, 200, anthropic, ""),
        Err(LlmError::UnexpectedFormat)
    );
    assert_eq!(
        read_reply(Provider::Anthropic, 200, openai, ""),
        Err(LlmError::UnexpectedFormat)
    );
}

#[test]
fn an_answer_in_the_wrong_place_is_none() {
    for reply in [
        r#"{}"#,
        r#"[]"#,
        r#"null"#,
        r#"{"content":[]}"#,
        r#"{"content":{"0":{"text":"x"}}}"#,
        r#"{"content":[{"text":7}]}"#,
        r#"{"content":[{"text":["x"]}]}"#,
        r#"{"content":[[{"text":"x"}]]}"#,
        r#"[{"text":"x"}]"#,
    ] {
        assert_eq!(
            answer_in(Provider::Anthropic, &parsed(reply)),
            Err(LlmError::UnexpectedFormat),
            "{reply}"
        );
    }
    // Of two members with the same key the last one counts.
    assert_eq!(
        answer_in(Provider::Ollama, &parsed(r#"{"response":"1","response":"2"}"#)),
        Ok("2".to_string())
    );
}

#[test]
fn a_reply_with_another_status_is_an_error() {
    let refused = read_reply(Provider::Ollama, 404, br#"{"response":"r"}"#, "no such model");
    assert_eq!(
        refused,
        Err(LlmError::ApiError {
            status: 404,
            body: "no such model".to_string()
        })
    );
    assert_eq!(
        refused.unwrap_err().message(),
        "API error (404): no such model"
    );
    assert!(is_accepted(200));
    assert!(!is_accepted(201));
    assert!(!is_accepted(0));
}

#[test]
fn a_reply_that_is_no_document_is_an_error() {
    let broken = read_reply(Provider::Ollama, 200, b"{\"response\":", "").unwrap_err();
    assert_eq!(
        broken,
        LlmError::Http("error decoding response body".to_string())
    );
    assert_eq!(
        broken.message(),
        "HTTP request failed: error decoding response body"
    );
    assert_eq!(
        LlmError::UnexpectedFormat.message(),
        "Unexpected response format"
    );
}
