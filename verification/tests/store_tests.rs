use tarot_bot::reply::Reply;
use tarot_bot::tarot_info::{TarotError, TarotEvent, TarotStore};

fn fool_json() -> String {
    "{\"title\":\"The Fool\",\"short_description\":\"New beginnings\",\"source_url\":\"https://example.com/fool\",\"upright_path\":\"img/0up.jpg\",\"reversed_path\":\"img/0rev.jpg\"}".to_string()
}

fn magician_json() -> String {
    "{\"title\":\"The Magician\",\"short_description\":\"Willpower\",\"source_url\":\"https://example.com/magician\",\"upright_path\":\"img/1up.jpg\",\"reversed_path\":\"img/1rev.jpg\"}".to_string()
}

fn small_store() -> TarotStore {
    let files = vec![
        ("1_magician.json".to_string(), magician_json()),
        ("0_fool.json".to_string(), fool_json()),
    ];
    TarotStore::new(files, "https://cdn.test".to_string())
}

fn text_of(r: Reply) -> String {
    match r {
        Reply::Text { text } => text,
        Reply::TextImage { .. } => panic!("expected a text reply"),
    }
}

fn image_of(r: Reply) -> (String, String) {
    match r {
        Reply::Text { .. } => panic!("expected an image reply"),
        Reply::TextImage { text, image_url } => (text, image_url),
    }
}

#[test]
fn single_formats_title_description_and_url() {
    let store = small_store();
    let r = store.get_tarot_info(TarotEvent::Single(0)).unwrap();
    let (text, url) = image_of(r);
    assert_eq!(text, "The Fool\n\nNew beginnings\n\nhttps://example.com/fool");
    assert!(text.contains("The Fool"));
    assert!(text.contains("New beginnings"));
    assert_eq!(url, "https://cdn.test/img/0up.jpg");
}

#[test]
fn single_missing_id_is_not_found() {
    let store = small_store();
    let r = store.get_tarot_info(TarotEvent::Single(5));
    assert!(matches!(r, Err(TarotError::NotFound)));
}

#[test]
fn single_reversed_uses_the_reversed_path() {
    let store = small_store();
    let r = store.get_single_tarot_info(1, true).unwrap();
    let (_, url) = image_of(r);
    assert_eq!(url, "https://cdn.test/img/1rev.jpg");
}

#[test]
fn all_titles_lists_ids_ascending() {
    let files = vec![
        ("10_wheel.json".to_string(), "{\"title\":\"Wheel of Fortune\"}".to_string()),
        ("2_priestess.json".to_string(), "{\"title\":\"The High Priestess\"}".to_string()),
        ("0_fool.json".to_string(), fool_json()),
    ];
    let store = TarotStore::new(files, String::new());
    let r = store.get_tarot_info(TarotEvent::AllTitles).unwrap();
    let text = text_of(r);
    assert_eq!(text, "0: The Fool\n2: The High Priestess\n10: Wheel of Fortune");
    let lines: Vec<&str> = text.split('\n').collect();
    assert_eq!(lines.len(), 3);
}

#[test]
fn all_titles_of_an_empty_store_is_empty() {
    let store = TarotStore::new(vec![], String::new());
    let r = store.get_tarot_info(TarotEvent::AllTitles).unwrap();
    assert_eq!(text_of(r), "");
}

#[test]
fn missing_fields_get_placeholders() {
    let files = vec![("5_bare.json".to_string(), "{}".to_string())];
    let store = TarotStore::new(files, "base".to_string());
    let listing = text_of(store.get_tarot_info(TarotEvent::AllTitles).unwrap());
    assert_eq!(listing, "5: 無法獲得卡片");
    let (text, url) = image_of(store.get_tarot_info(TarotEvent::Single(5)).unwrap());
    assert_eq!(text, "未知卡片\n\n\n\n");
    assert_eq!(url, "base/");
}

#[test]
fn duplicate_id_last_file_wins() {
    let files = vec![
        ("3_first.json".to_string(), "{\"title\":\"First\"}".to_string()),
        ("3_second.json".to_string(), "{\"title\":\"Second\"}".to_string()),
    ];
    let store = TarotStore::new(files, String::new());
    let listing = text_of(store.get_tarot_info(TarotEvent::AllTitles).unwrap());
    assert_eq!(listing, "3: Second");
}

#[test]
fn bad_files_are_skipped() {
    let files = vec![
        ("0_fool.json".to_string(), fool_json()),
        ("readme.txt".to_string(), "not a card".to_string()),
        ("x_nonnumeric.json".to_string(), "{\"title\":\"X\"}".to_string()),
        ("4_broken.json".to_string(), "{not json".to_string()),
        (".json".to_string(), "{\"title\":\"Hidden\"}".to_string()),
    ];
    let store = TarotStore::new(files, String::new());
    let listing = text_of(store.get_tarot_info(TarotEvent::AllTitles).unwrap());
    assert_eq!(listing, "0: The Fool");
}

#[test]
fn non_string_fields_read_as_absent() {
    let files = vec![("9_odd.json".to_string(), "{\"title\":7,\"short_description\":[1]}".to_string())];
    let store = TarotStore::new(files, String::new());
    let listing = text_of(store.get_tarot_info(TarotEvent::AllTitles).unwrap());
    assert_eq!(listing, "9: 無法獲得卡片");
}

#[test]
fn random_draw_on_empty_store_is_not_found() {
    let store = TarotStore::new(vec![], String::new());
    let r = store.get_tarot_info(TarotEvent::Random);
    assert!(matches!(r, Err(TarotError::NotFound)));
}

#[test]
fn random_draws_only_loaded_cards_and_both_variants() {
    let store = small_store();
    let fool_text = "The Fool\n\nNew beginnings\n\nhttps://example.com/fool";
    let magician_text = "The Magician\n\nWillpower\n\nhttps://example.com/magician";
    let mut seen_fool = false;
    let mut seen_magician = false;
    let mut seen_upright = false;
    let mut seen_reversed = false;
    for _ in 0..400 {
        let r = store.get_tarot_info(TarotEvent::Random).unwrap();
        let (text, url) = image_of(r);
        assert!(text == fool_text || text == magician_text, "drew an unloaded card: {text}");
        assert!(url.starts_with("https://cdn.test/img/"));
        assert!(url.ends_with("up.jpg") || url.ends_with("rev.jpg"));
        if text == fool_text {
            seen_fool = true;
        } else {
            seen_magician = true;
        }
        if url.ends_with("up.jpg") && !url.ends_with("rev.jpg") {
            seen_upright = true;
        }
        if url.ends_with("rev.jpg") {
            seen_reversed = true;
        }
    }
    assert!(seen_fool && seen_magician, "every loaded card should eventually be drawn");
    assert!(seen_upright && seen_reversed, "both image variants should eventually appear");
}
