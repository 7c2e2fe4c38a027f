use tarot_bot::handler::{classify, Command, InboundEvent, TarotHandler};
use tarot_bot::help::get_help;
use tarot_bot::reply::Reply;
use tarot_bot::tarot_info::TarotStore;

fn small_handler() -> TarotHandler {
    let files = vec![
        (
            "0_fool.json".to_string(),
            "{\"title\":\"The Fool\",\"short_description\":\"New beginnings\",\"source_url\":\"https://example.com/fool\",\"upright_path\":\"img/0up.jpg\",\"reversed_path\":\"img/0rev.jpg\"}".to_string(),
        ),
    ];
    TarotHandler::new(TarotStore::new(files, "https://cdn.test".to_string()))
}

fn event(token: Option<&str>, text: Option<&str>) -> InboundEvent {
    InboundEvent {
        reply_token: token.map(|t| t.to_string()),
        text: text.map(|t| t.to_string()),
    }
}

fn reply_text(r: &Reply) -> String {
    match r {
        Reply::Text { text } => text.clone(),
        Reply::TextImage { text, .. } => text.clone(),
    }
}

#[test]
fn classify_draw_phrases() {
    for phrase in [
        "抽卡", "抽一張牌", "抽一張卡", "抽塔羅牌", "抽塔羅", "抽一張塔羅牌", "抽一張塔羅", "抽一張",
    ] {
        assert_eq!(classify(Some(phrase)), Command::Draw);
    }
}

#[test]
fn classify_all_cards_and_help_phrases() {
    assert_eq!(classify(Some("所有卡片")), Command::AllCards);
    for phrase in ["幫助", "說明", "指令", "指令說明"] {
        assert_eq!(classify(Some(phrase)), Command::Help);
    }
}

#[test]
fn classify_numerals_in_range() {
    assert_eq!(classify(Some("0")), Command::Single(0));
    assert_eq!(classify(Some("42")), Command::Single(42));
    assert_eq!(classify(Some("77")), Command::Single(77));
    assert_eq!(classify(Some("+7")), Command::Single(7));
    assert_eq!(classify(Some("0077")), Command::Single(77));
}

#[test]
fn classify_out_of_range_or_garbled_text_falls_back_to_help() {
    assert_eq!(classify(Some("78")), Command::Help);
    assert_eq!(classify(Some("-1")), Command::Help);
    assert_eq!(classify(Some("abc")), Command::Help);
    assert_eq!(classify(Some("")), Command::Help);
    assert_eq!(classify(Some("7.5")), Command::Help);
}

#[test]
fn classify_absent_text_is_its_own_case() {
    assert_eq!(classify(None), Command::TextOnly);
}

#[test]
fn notice_for_absent_text_differs_from_help() {
    let handler = small_handler();
    let (_, no_text_reply) = handler
        .handle(vec![event(Some("T"), None)])
        .expect("a reply is owed");
    let help = reply_text(&get_help());
    let notice = reply_text(&no_text_reply);
    assert_eq!(notice, "目前僅支援文字指令喔！");
    assert_ne!(notice, help);
}

#[test]
fn handle_draw_posts_text_and_image_to_the_token() {
    let handler = small_handler();
    let (token, reply) = handler
        .handle(vec![event(Some("T1"), Some("抽卡"))])
        .expect("a reply is owed");
    assert_eq!(token, "T1");
    let payload = reply.to_json(Some(&token));
    let v: serde_json::Value = serde_json::from_str(&payload).expect("payload is JSON");
    let messages = v.get("messages").and_then(|m| m.as_array()).expect("a messages array");
    assert_eq!(messages.len(), 2);
    assert_eq!(messages[0].get("type").and_then(|t| t.as_str()), Some("text"));
    assert_eq!(messages[1].get("type").and_then(|t| t.as_str()), Some("image"));
    assert_eq!(v.get("replyToken").and_then(|t| t.as_str()), Some("T1"));
}

#[test]
fn handle_all_cards_posts_the_listing_as_one_text_block() {
    let handler = small_handler();
    let (token, reply) = handler
        .handle(vec![event(Some("T2"), Some("所有卡片"))])
        .expect("a reply is owed");
    assert_eq!(token, "T2");
    let payload = reply.to_json(Some(&token));
    let v: serde_json::Value = serde_json::from_str(&payload).expect("payload is JSON");
    let messages = v.get("messages").and_then(|m| m.as_array()).expect("a messages array");
    assert_eq!(messages.len(), 1);
    assert_eq!(messages[0].get("type").and_then(|t| t.as_str()), Some("text"));
    assert_eq!(messages[0].get("text").and_then(|t| t.as_str()), Some("0: The Fool"));
}

#[test]
fn handle_empty_events_replies_to_nobody() {
    let handler = small_handler();
    assert!(handler.handle(vec![]).is_none());
}

#[test]
fn handle_without_reply_token_replies_to_nobody() {
    let handler = small_handler();
    assert!(handler.handle(vec![event(None, Some("抽卡"))]).is_none());
}

#[test]
fn handle_processes_only_the_first_event() {
    let handler = small_handler();
    let events = vec![event(None, Some("抽卡")), event(Some("T9"), Some("所有卡片"))];
    assert!(handler.handle(events).is_none());
}

#[test]
fn handle_single_by_numeral_and_missing_id() {
    let handler = small_handler();
    let (_, reply) = handler
        .handle(vec![event(Some("T"), Some("0"))])
        .expect("a reply is owed");
    assert!(matches!(reply, Reply::TextImage { .. }));
    let (_, fallback) = handler
        .handle(vec![event(Some("T"), Some("5"))])
        .expect("a reply is owed");
    assert_eq!(reply_text(&fallback), reply_text(&get_help()));
}

#[test]
fn msg_body_serializes_exactly() {
    let body = TarotHandler::get_msg_body("hi");
    assert_eq!(body.to_json(None), "{\"messages\":[{\"type\":\"text\",\"text\":\"hi\"}]}");
    assert_eq!(
        body.to_json(Some("T1")),
        "{\"messages\":[{\"type\":\"text\",\"text\":\"hi\"}],\"replyToken\":\"T1\"}"
    );
}

#[test]
fn image_body_serializes_exactly() {
    let body = TarotHandler::get_image_body("m", "u");
    assert_eq!(
        body.to_json(None),
        "{\"messages\":[{\"type\":\"text\",\"text\":\"m\"},{\"type\":\"image\",\"originalContentUrl\":\"u\",\"previewImageUrl\":\"u\"}]}"
    );
}

#[test]
fn to_json_escapes_embedded_text() {
    let body = TarotHandler::get_msg_body("a\"b\\c\nd");
    let payload = body.to_json(None);
    assert_eq!(payload, "{\"messages\":[{\"type\":\"text\",\"text\":\"a\\\"b\\\\c\\nd\"}]}");
    let v: serde_json::Value = serde_json::from_str(&payload).expect("payload is JSON");
    let round = v["messages"][0]["text"].as_str().unwrap().to_string();
    assert_eq!(round, "a\"b\\c\nd");
}
