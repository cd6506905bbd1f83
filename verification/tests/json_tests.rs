use hity::item::Item;
use hity::json::{all_timestamps_wf, items_from_json, items_to_json};
use hity::time::{parse_rfc3339, Timestamp};

fn sample_item() -> Item {
    Item {
        count: 2754,
        title: "Przejazd stra\u{17c}y po\u{17c}arnej".to_string(),
        href: "https://www.wykop.pl/link/4971063/".to_string(),
        date_published: parse_rfc3339("2019-05-26T12:26:01+02:00").unwrap(),
        source: "https://m.youtube.com/watch?v=74eMjNg_dmE&feature=youtu.be".to_string(),
        description: "Czy bieganie jest wa\u{17c}niejsze od ratowania \u{17c}ycia?".to_string(),
        author: "Bananowy96".to_string(),
        author_url: "https://www.wykop.pl/ludzie/Bananowy96/".to_string(),
    }
}

#[test]
fn empty_collection_round_trip() {
    let items: Vec<Item> = Vec::new();
    let text = items_to_json(&items);
    assert_eq!(text, "[]");
    assert_eq!(items_from_json(&text), Some(Vec::new()));
}

#[test]
fn one_record_round_trip() {
    let items = vec![sample_item()];
    assert!(all_timestamps_wf(&items));
    let text = items_to_json(&items);
    assert_eq!(items_from_json(&text), Some(items));
}

#[test]
fn several_records_round_trip_with_escapes() {
    let mut odd = sample_item();
    odd.title = "a \"quoted\" \\ back\nslash\ttab".to_string();
    odd.author = String::new();
    odd.description = "ko\u{144}c\u{f3}wka".to_string();
    let items = vec![sample_item(), odd, sample_item()];
    let text = items_to_json(&items);
    assert_eq!(items_from_json(&text), Some(items));
}

#[test]
fn json_shape_is_exact() {
    let item = Item {
        count: 5,
        title: "t".to_string(),
        href: "h".to_string(),
        date_published: Timestamp {
            year: 2019,
            month: 5,
            day: 26,
            hour: 12,
            minute: 26,
            second: 1,
            offset_minutes: 120,
        },
        source: "s".to_string(),
        description: "d".to_string(),
        author: "a".to_string(),
        author_url: "u".to_string(),
    };
    let text = items_to_json(&vec![item]);
    assert_eq!(
        text,
        "[{\"count\":5,\"title\":\"t\",\"href\":\"h\",\"date_published\":\"2019-05-26T12:26:01+02:00\",\"source\":\"s\",\"description\":\"d\",\"author\":\"a\",\"author_url\":\"u\"}]"
    );
}

#[test]
fn written_json_is_readable_by_a_json_parser() {
    let mut odd = sample_item();
    odd.title = "a \"quoted\" \\ back\nslash".to_string();
    let items = vec![odd];
    let text = items_to_json(&items);
    let value: serde_json::Value = serde_json::from_str(&text).expect("valid JSON");
    let array = value.as_array().expect("array");
    assert_eq!(array.len(), 1);
    let obj = array[0].as_object().expect("object");
    assert_eq!(obj["count"].as_u64(), Some(2754));
    assert_eq!(
        obj["title"].as_str(),
        Some("a \"quoted\" \\ back\nslash")
    );
    assert_eq!(
        obj["date_published"].as_str(),
        Some("2019-05-26T12:26:01+02:00")
    );
    assert_eq!(obj["author"].as_str(), Some("Bananowy96"));
    assert_eq!(obj.len(), 8);
}

#[test]
fn reader_decodes_unicode_escapes() {
    let items = vec![sample_item()];
    let text = items_to_json(&items);
    let with_escape = text.replace("Bananowy96", "Bananowy\\u000a96");
    let read = items_from_json(&with_escape).expect("parses");
    assert_eq!(read[0].author, "Bananowy\n96");
}

#[test]
fn reader_rejects_other_text() {
    assert_eq!(items_from_json(""), None);
    assert_eq!(items_from_json("{}"), None);
    assert_eq!(items_from_json("["), None);
    assert_eq!(items_from_json("[]x"), None);
    assert_eq!(items_from_json("[{\"count\":1}]"), None);
}
