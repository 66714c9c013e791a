//! Tests of the plain data types carried between the service and its
//! collaborators.

use yaml_repair::models::{ChatMessage, CohereResponse};

#[test]
fn chat_message_holds_role_and_message() {
    let m = ChatMessage { role: "SYSTEM".to_string(), message: "hello".to_string() };
    assert_eq!(m.role, "SYSTEM");
    assert_eq!(m.message, "hello");
}

#[test]
fn cohere_response_holds_text() {
    let r = CohereResponse { text: "a: 1".to_string() };
    assert_eq!(r.text, "a: 1");
}
