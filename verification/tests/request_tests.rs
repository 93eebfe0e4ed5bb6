use chatgpt::request::{
    conversation, conversation_info, conversation_request, conversations, public_key, Header,
    HttpMethod,
};

fn pairs(hs: &[Header]) -> Vec<(String, String)> {
    hs.iter().map(|h| (h.name.clone(), h.value.clone())).collect()
}

fn session(token: &str, cookie: &str) -> Vec<(String, String)> {
    vec![
        ("Host".to_string(), "chat.openai.com".to_string()),
        ("Authorization".to_string(), format!("Bearer {}", token)),
        ("Connection".to_string(), "keep-alive".to_string()),
        ("Cookie".to_string(), cookie.to_string()),
        ("Referer".to_string(), "https://chat.openai.com/".to_string()),
    ]
}

#[test]
fn public_key_posts_the_form() {
    let r = public_key("a=1&b=2".to_string());
    assert_eq!(r.method, HttpMethod::Post);
    assert_eq!(
        r.url,
        "https://tcr9i.chat.openai.com/fc/gt2/public_key/35536E1E-65B4-4D96-9D97-6ADB7EFF8147"
    );
    assert_eq!(
        pairs(&r.headers),
        vec![(
            "Content-Type".to_string(),
            "application/x-www-form-urlencoded".to_string()
        )]
    );
    assert_eq!(r.body, Some("a=1&b=2".to_string()));
}

#[test]
fn conversations_request_lists_first_page() {
    let r = conversations("tok", "c=1");
    assert_eq!(r.method, HttpMethod::Get);
    assert_eq!(
        r.url,
        "https://chat.openai.com/backend-api/conversations?offset=0&limit=50&order=updated"
    );
    assert_eq!(pairs(&r.headers), session("tok", "c=1"));
    assert_eq!(r.body, None);
}

#[test]
fn conversation_info_request_names_the_conversation() {
    let r = conversation_info("tok", "c=1", "abc-123");
    assert_eq!(r.method, HttpMethod::Get);
    assert_eq!(r.url, "https://chat.openai.com/backend-api/conversation/abc-123");
    let mut want = session("tok", "c=1");
    want.push(("Origin".to_string(), "https://chat.openai.com".to_string()));
    assert_eq!(pairs(&r.headers), want);
    assert_eq!(r.body, None);
}

#[test]
fn conversation_request_body_is_compact_sorted_json() {
    let r = conversation_request("tok", "ck", "cid", "say \"hi\"\n", "ark", "parent", "mid");
    assert_eq!(r.method, HttpMethod::Post);
    assert_eq!(r.url, "https://chat.openai.com/backend-api/conversation");
    let mut want = session("tok", "ck");
    want.push(("Origin".to_string(), "https://chat.openai.com".to_string()));
    want.push(("Content-Type".to_string(), "application/json".to_string()));
    assert_eq!(pairs(&r.headers), want);
    let body = r.body.unwrap();
    assert_eq!(
        body,
        "{\"action\":\"next\",\"arkose_token\":\"ark\",\"conversation_id\":\"cid\",\"force_paragen\":false,\"history_and_training_disabled\":false,\"messages\":[{\"author\":{\"role\":\"user\"},\"content\":{\"content_type\":\"text\",\"parts\":[\"say \\\"hi\\\"\\n\"]},\"id\":\"mid\",\"metadata\":{}}],\"model\":\"gpt-4\",\"parent_message_id\":\"parent\",\"suggestions\":[],\"timezone_offset_min\":-480}"
    );
}

#[test]
fn conversation_uses_a_fresh_uuid() {
    let r = conversation("tok", "ck", "cid", "m", "ark", "parent");
    let body = r.body.unwrap();
    let v: serde_json::Value = serde_json::from_str(&body).unwrap();
    let id = v["messages"][0]["id"].as_str().unwrap().to_string();
    assert_eq!(id.len(), 36);
    assert_eq!(id.matches('-').count(), 4);
    let again = conversation("tok", "ck", "cid", "m", "ark", "parent").body.unwrap();
    assert_ne!(body, again);
}

#[test]
fn header_line_joins_name_and_value() {
    let h = Header { name: "Cookie".to_string(), value: "a=b".to_string() };
    assert_eq!(h.line(), "Cookie: a=b");
}

#[test]
fn conversation_message_id_is_uuid_v4_text() {
    let body = conversation("t", "c", "i", "m", "a", "p").body.unwrap();
    let v: serde_json::Value = serde_json::from_str(&body).unwrap();
    let id: Vec<char> = v["messages"][0]["id"].as_str().unwrap().chars().collect();
    assert_eq!(id.len(), 36);
    for (i, c) in id.iter().enumerate() {
        if i == 8 || i == 13 || i == 18 || i == 23 {
            assert_eq!(*c, '-');
        } else {
            assert!(c.is_ascii_digit() || ('a'..='f').contains(c));
        }
    }
    assert_eq!(id[14], '4');
    assert!(['8', '9', 'a', 'b'].contains(&id[19]));
}

#[test]
fn conversation_body_escapes_control_characters() {
    let r = conversation_request("t", "c", "i", "\u{8}\u{c}\t\r\u{1}\u{1f}\\/\u{7f}\u{e9}", "a", "p", "m");
    let body = r.body.unwrap();
    assert!(body.contains("\"parts\":[\"\\b\\f\\t\\r\\u0001\\u001f\\\\/\u{7f}\u{e9}\"]"));
}
