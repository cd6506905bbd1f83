use hity::item::{extract, ExtractionError, ExtractionOutcome, FieldName};
use hity::time::{localize, parse_rfc3339};

fn container(count: &str, title: &str, href: &str, datetime: &str, author_html: &str) -> String {
    let mut s = String::new();
    s.push_str("<li>");
    s.push_str(&format!(
        "<div class=\"diggbox\"><span>{}</span><span>extra</span></div>",
        count
    ));
    s.push_str(&format!("<h2><a href=\"{}\">{}</a></h2>", href, title));
    s.push_str(&format!(
        "<time itemprop=\"datePublished\" datetime=\"{}\"></time>",
        datetime
    ));
    s.push_str(
        "<a title=\"\u{17a}r\u{f3}d\u{142}o\" href=\"https://m.youtube.com/watch?v=74eMjNg_dmE&amp;feature=youtu.be\">src</a>",
    );
    s.push_str(
        "<div class=\"description\"><a href=\"#d\"> Czy bieganie jest wa\u{17c}niejsze od ratowania \u{17c}ycia? </a></div>",
    );
    s.push_str(author_html);
    s.push_str("</li>");
    s
}

fn default_author() -> String {
    "<a href=\"https://www.wykop.pl/ludzie/Bananowy96/\"><i class=\"ico\"></i>Bananowy96</a>"
        .to_string()
}

fn document(containers: &str) -> String {
    format!(
        "<html><head></head><body><ul id=\"itemsStream\">{}</ul></body></html>",
        containers
    )
}

fn sample_container() -> String {
    container(
        "2754",
        "Przejazd stra\u{17c}y po\u{17c}arnej w trakcie biegu Piotrkowska Rossman",
        "https://www.wykop.pl/link/4971063/przejazd-strazy-pozarnej-w-trakcie-biegu-piotrkowska-rossman/",
        "2019-05-26T12:26:01+02:00",
        &default_author(),
    )
}

#[test]
fn concrete_scenario_fields() {
    let html = document(&sample_container());
    match extract(&html) {
        ExtractionOutcome::Items(items) => {
            assert_eq!(items.len(), 1);
            let item = &items[0];
            assert_eq!(item.count, 2754);
            assert_eq!(
                item.title,
                "Przejazd stra\u{17c}y po\u{17c}arnej w trakcie biegu Piotrkowska Rossman"
            );
            assert_eq!(
                item.href,
                "https://www.wykop.pl/link/4971063/przejazd-strazy-pozarnej-w-trakcie-biegu-piotrkowska-rossman/"
            );
            assert_eq!(
                item.source,
                "https://m.youtube.com/watch?v=74eMjNg_dmE&feature=youtu.be"
            );
            assert_eq!(
                item.description,
                "Czy bieganie jest wa\u{17c}niejsze od ratowania \u{17c}ycia?"
            );
            assert_eq!(item.author, "Bananowy96");
            assert_eq!(item.author_url, "https://www.wykop.pl/ludzie/Bananowy96/");
            let parsed = parse_rfc3339("2019-05-26T12:26:01+02:00").unwrap();
            let expected = localize(&parsed);
            assert_eq!(item.date_published, expected);
        }
        other => panic!("expected items, got {:?}", other),
    }
}

#[test]
fn three_containers_in_document_order() {
    let mut body = String::new();
    for i in 0..3 {
        body.push_str(&container(
            &format!("{}", 100 + i),
            &format!("title {}", i),
            &format!("https://example.org/{}", i),
            "2019-05-26T12:26:01+02:00",
            &default_author(),
        ));
    }
    let html = document(&body);
    match extract(&html) {
        ExtractionOutcome::Items(items) => {
            assert_eq!(items.len(), 3);
            for i in 0..3 {
                assert_eq!(items[i].count, (100 + i) as u32);
                assert_eq!(items[i].title, format!("title {}", i));
                assert_eq!(items[i].href, format!("https://example.org/{}", i));
            }
        }
        other => panic!("expected items, got {:?}", other),
    }
}

#[test]
fn more_than_forty_containers_truncated_to_first_forty() {
    let mut body = String::new();
    for i in 0..41 {
        body.push_str(&container(
            &format!("{}", i),
            &format!("title {}", i),
            "https://example.org/x",
            "2019-05-26T12:26:01+02:00",
            &default_author(),
        ));
    }
    let html = document(&body);
    match extract(&html) {
        ExtractionOutcome::Items(items) => {
            assert_eq!(items.len(), 40);
            for i in 0..40 {
                assert_eq!(items[i].count, i as u32);
            }
        }
        other => panic!("expected items, got {:?}", other),
    }
}

#[test]
fn no_containers_is_distinguished() {
    let html = "<html><body><p>nothing here</p></body></html>";
    assert_eq!(extract(html), ExtractionOutcome::NoContainersFound);
    let empty_stream = document("");
    assert_eq!(extract(&empty_stream), ExtractionOutcome::NoContainersFound);
}

#[test]
fn one_bad_item_fails_the_whole_batch() {
    let good = sample_container();
    let bad = "<li><h2><a href=\"#\">no count here</a></h2></li>";
    let html = document(&format!("{}{}{}", good, bad, good));
    assert_eq!(
        extract(&html),
        ExtractionOutcome::ExtractionFailed(ExtractionError::FieldMissing(FieldName::Count))
    );
}

#[test]
fn malformed_count_is_named() {
    let bad = container(
        "soon",
        "t",
        "#",
        "2019-05-26T12:26:01+02:00",
        &default_author(),
    );
    let html = document(&bad);
    assert_eq!(
        extract(&html),
        ExtractionOutcome::ExtractionFailed(ExtractionError::FieldMalformed(FieldName::Count))
    );
}

#[test]
fn missing_title_is_named() {
    let bad = "<li><div class=\"diggbox\"><span>1</span></div></li>";
    let html = document(bad);
    assert_eq!(
        extract(&html),
        ExtractionOutcome::ExtractionFailed(ExtractionError::FieldMissing(FieldName::Title))
    );
}

#[test]
fn missing_href_is_named() {
    let bad = "<li><div class=\"diggbox\"><span>1</span></div><h2><a>t</a></h2></li>";
    let html = document(bad);
    assert_eq!(
        extract(&html),
        ExtractionOutcome::ExtractionFailed(ExtractionError::FieldMissing(FieldName::Href))
    );
}

#[test]
fn missing_date_is_named() {
    let bad = "<li><div class=\"diggbox\"><span>1</span></div><h2><a href=\"#\">t</a></h2></li>";
    let html = document(bad);
    assert_eq!(
        extract(&html),
        ExtractionOutcome::ExtractionFailed(ExtractionError::FieldMissing(
            FieldName::DatePublished
        ))
    );
}

#[test]
fn malformed_date_is_named() {
    let bad = container("1", "t", "#", "yesterday at noon", &default_author());
    let html = document(&bad);
    assert_eq!(
        extract(&html),
        ExtractionOutcome::ExtractionFailed(ExtractionError::FieldMalformed(
            FieldName::DatePublished
        ))
    );
}

#[test]
fn missing_source_is_named() {
    let bad = "<li><div class=\"diggbox\"><span>1</span></div><h2><a href=\"#\">t</a></h2><time itemprop=\"datePublished\" datetime=\"2019-05-26T12:26:01+02:00\"></time></li>";
    let html = document(bad);
    assert_eq!(
        extract(&html),
        ExtractionOutcome::ExtractionFailed(ExtractionError::FieldMissing(FieldName::Source))
    );
}

#[test]
fn missing_description_is_named() {
    let bad = "<li><div class=\"diggbox\"><span>1</span></div><h2><a href=\"#\">t</a></h2><time itemprop=\"datePublished\" datetime=\"2019-05-26T12:26:01+02:00\"></time><a title=\"\u{17a}r\u{f3}d\u{142}o\" href=\"#\">s</a></li>";
    let html = document(bad);
    assert_eq!(
        extract(&html),
        ExtractionOutcome::ExtractionFailed(ExtractionError::FieldMissing(FieldName::Description))
    );
}

#[test]
fn missing_author_link_is_named() {
    let bad = container("1", "t", "#", "2019-05-26T12:26:01+02:00", "");
    let html = document(&bad);
    assert_eq!(
        extract(&html),
        ExtractionOutcome::ExtractionFailed(ExtractionError::FieldMissing(FieldName::Author))
    );
}

#[test]
fn author_with_only_icon_yields_empty_author() {
    let author = "<a href=\"https://www.wykop.pl/ludzie/Ghost/\"><i class=\"ico\"></i></a>";
    let html = document(&container(
        "7",
        "t",
        "#",
        "2019-05-26T12:26:01+02:00",
        author,
    ));
    match extract(&html) {
        ExtractionOutcome::Items(items) => {
            assert_eq!(items.len(), 1);
            assert_eq!(items[0].author, "");
            assert_eq!(items[0].author_url, "https://www.wykop.pl/ludzie/Ghost/");
        }
        other => panic!("expected items, got {:?}", other),
    }
}

#[test]
fn author_takes_last_direct_text_node_trimmed() {
    let author =
        "<a href=\"https://www.wykop.pl/ludzie/Two/\">@<b>bold</b>\n  Two  \n</a>";
    let html = document(&container(
        "7",
        "t",
        "#",
        "2019-05-26T12:26:01+02:00",
        author,
    ));
    match extract(&html) {
        ExtractionOutcome::Items(items) => {
            assert_eq!(items[0].author, "Two");
        }
        other => panic!("expected items, got {:?}", other),
    }
}

#[test]
fn field_names_as_text() {
    assert_eq!(FieldName::Count.text(), "count");
    assert_eq!(FieldName::DatePublished.text(), "date_published");
    assert_eq!(FieldName::AuthorUrl.text(), "author_url");
}
