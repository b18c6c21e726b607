use serde_json::Value;
use srt_translate::wire::{reply_of, request_body, ReplyError};

const INSTRUCTION: &str = "Translate the following French text into Chinese, preserving the original meaning and applying refined language as needed";

fn parse(text: &str) -> Value {
    serde_json::from_str(text).expect("valid JSON")
}

#[test]
fn request_carries_text_as_single_user_message() {
    let body = request_body("Bonjour le monde\n");
    assert_eq!(
        body,
        format!(
            "{{\"model\":\"gpt-3.5-turbo\",\"messages\":[{{\"role\":\"system\",\"content\":\"{}\"}},{{\"role\":\"user\",\"content\":\"Bonjour le monde\\n\"}}]}}",
            INSTRUCTION
        )
    );
    let v = parse(&body);
    assert_eq!(v["model"].as_str(), Some("gpt-3.5-turbo"));
    let messages = v["messages"].as_array().expect("array");
    assert_eq!(messages.len(), 2);
    assert_eq!(messages[0]["role"].as_str(), Some("system"));
    assert_eq!(messages[0]["content"].as_str(), Some(INSTRUCTION));
    assert_eq!(messages[1]["role"].as_str(), Some("user"));
    assert_eq!(messages[1]["content"].as_str(), Some("Bonjour le monde\n"));
}

#[test]
fn request_escapes_quotes_and_backslashes() {
    let text = "Il a dit \"non\" \\ puis\tpartit";
    let body = request_body(text);
    assert!(body.contains("\\\"non\\\""));
    assert_eq!(parse(&body)["messages"][1]["content"].as_str(), Some(text));
}

#[test]
fn reply_reads_content_and_total_tokens() {
    let r = reply_of(r#"{"choices":[{"message":{"role":"assistant","content":"你好，世界"}}],"usage":{"prompt_tokens":7,"total_tokens":10}}"#)
        .ok()
        .expect("reply");
    assert_eq!(r.text, "你好，世界");
    assert_eq!(r.cost, 10);
}

#[test]
fn reply_defaults_when_fields_are_missing() {
    let r = reply_of(r#"{"choices":[]}"#).ok().expect("reply");
    assert_eq!(r.text, "");
    assert_eq!(r.cost, 0);
    let r = reply_of(r#"{"choices":[{"message":{"content":null}}],"usage":{"total_tokens":"12"}}"#).ok().expect("reply");
    assert_eq!(r.text, "");
    assert_eq!(r.cost, 0);
    let r = reply_of(r#"{"choices":[{"message":{"content":"再见"}}]}"#).ok().expect("reply");
    assert_eq!(r.text, "再见");
    assert_eq!(r.cost, 0);
    let r = reply_of(r#"[1, 2]"#).ok().expect("reply");
    assert_eq!(r.text, "");
    assert_eq!(r.cost, 0);
}

#[test]
fn reply_takes_first_choice() {
    let r = reply_of(r#"{"choices":[{"message":{"content":"a"}},{"message":{"content":"b"}}],"usage":{"total_tokens":3}}"#)
        .ok()
        .expect("reply");
    assert_eq!(r.text, "a");
    assert_eq!(r.cost, 3);
}

#[test]
fn reply_rejects_malformed_body() {
    assert_eq!(reply_of("not json").err(), Some(ReplyError::Malformed));
    assert_eq!(reply_of("{\"choices\": [").err(), Some(ReplyError::Malformed));
    assert_eq!(reply_of("").err(), Some(ReplyError::Malformed));
}

#[test]
fn request_escapes_control_characters() {
    let body = request_body("a\u{1}b\u{8}c\u{c}d\re\u{1f}/é");
    assert!(body.ends_with(",{\"role\":\"user\",\"content\":\"a\\u0001b\\bc\\fd\\re\\u001f/é\"}]}"));
}
