use chatgpt::models::{Conversations, Item};
use chatgpt::util::is_unit;

#[test]
fn is_unit_recognises_unit_only() {
    assert!(is_unit::<()>());
    assert!(!is_unit::<u8>());
    assert!(!is_unit::<String>());
}

#[test]
fn listing_shows_title_then_id() {
    let c = Conversations {
        items: vec![
            Item { id: "1".to_string(), title: "First".to_string() },
            Item { id: "2".to_string(), title: "Second".to_string() },
        ],
        total: 2,
        limit: 50,
        offset: 0,
        has_missing_conversations: false,
    };
    assert_eq!(c.listing(), vec!["First - 1".to_string(), "Second - 2".to_string()]);
}
