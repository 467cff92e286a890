use onebrowser::requests::{ChatRequest, CreateCommentRequest, ListCommentsQuery};
use onebrowser::user::UserId;

#[test]
fn list_query_defaults() {
    let query = ListCommentsQuery { url: "https://example.com".to_string(), page: None, limit: None };
    assert_eq!(query.offset(), 0);
    assert_eq!(query.window(), 100);
}

#[test]
fn list_query_takes_what_is_given() {
    let query =
        ListCommentsQuery { url: "https://example.com".to_string(), page: Some(3), limit: Some(20) };
    assert_eq!(query.offset(), 3);
    assert_eq!(query.window(), 20);
    let odd = ListCommentsQuery { url: String::new(), page: Some(-1), limit: Some(0) };
    assert_eq!(odd.offset(), -1);
    assert_eq!(odd.window(), 0);
}

#[test]
fn chat_request_names_its_principal() {
    let request = ChatRequest {
        user_id: "00000000-0000-0000-0000-00000000002a".to_string(),
        article_url: "u".to_string(),
        message: "m".to_string(),
    };
    assert_eq!(request.principal(), Some(UserId::new(42)));
    let bad = ChatRequest { user_id: "42".to_string(), article_url: "u".to_string(), message: "m".to_string() };
    assert_eq!(bad.principal(), None);
}

#[test]
fn comment_request_holds_its_fields() {
    let request = CreateCommentRequest {
        url: "https://example.com".to_string(),
        selector: "#main > p".to_string(),
        origin: None,
        content: "nice".to_string(),
    };
    assert_eq!(request.selector, "#main > p");
    assert!(request.origin.is_none());
}
