use uta::error::{ConvertError, Missing};
use uta::lyrics::ttml_to_lrc;
use uta::markup::Markup;
use uta::pretty::nice_xml;
use uta::target::{target_of, Target};
use uta::timestamp::ttml_timetag_to_lrc_timetag;
use uta::types::{SimpleLyrics, SimpleLyricsAttribute, SimpleLyricsData, SimpleRelationships};

fn tag_text(s: &str) -> String {
    ttml_timetag_to_lrc_timetag(s).unwrap().to_text()
}

/// Builds `tt/body` and returns the tree with the body's index.
fn with_body() -> (Markup, usize) {
    let mut m = Markup::new("tt");
    let body = m.add_element(0, "body");
    (m, body)
}

fn add_paragraph(m: &mut Markup, div: usize, begin: &str, text: &str) -> usize {
    let p = m.add_element(div, "p");
    m.add_attribute(p, "begin", begin);
    m.add_text(p, text);
    p
}

#[test]
fn hours_fold_into_minutes() {
    assert_eq!(tag_text("1:02:03.456"), "62:03.45");
}

#[test]
fn milliseconds_truncate() {
    assert_eq!(tag_text("5.005"), "00:05.00");
}

#[test]
fn garbage_is_malformed() {
    match ttml_timetag_to_lrc_timetag("abc") {
        Err(ConvertError::MalformedTimestamp(t)) => assert_eq!(t, "abc"),
        other => panic!("unexpected {:?}", other),
    }
}

#[test]
fn seconds_only_fields() {
    let t = ttml_timetag_to_lrc_timetag("07.089").unwrap();
    assert_eq!((t.minutes, t.seconds, t.centis), (0, 7, 8));
    let t = ttml_timetag_to_lrc_timetag("59.999").unwrap();
    assert_eq!((t.minutes, t.seconds, t.centis), (0, 59, 99));
    assert_eq!(tag_text("00.000"), "00:00.00");
}

#[test]
fn minutes_and_seconds() {
    assert_eq!(tag_text("12:34.567"), "12:34.56");
    assert_eq!(tag_text("00:01.200"), "00:01.20");
}

#[test]
fn long_leading_field_is_hours() {
    assert_eq!(tag_text("123:04.567"), "7380:04.56");
    assert_eq!(tag_text("100:00:00.000"), "6000:00.00");
}

#[test]
fn anchored_match_only() {
    for bad in ["1.234x", " 1.234", "1.23", "1.2345", "1:2:3:4.000", "123.456", ":1.000", "1::1.000", ""] {
        assert!(
            matches!(ttml_timetag_to_lrc_timetag(bad), Err(ConvertError::MalformedTimestamp(_))),
            "{bad}"
        );
    }
}

#[test]
fn body_without_paragraphs() {
    let (m, _) = with_body();
    let doc = ttml_to_lrc(&m, "A", "T").unwrap();
    assert_eq!(doc.lines.len(), 0);
    assert_eq!(doc.to_text(), "[ar:A]\n[ti:T]\n");
}

#[test]
fn end_to_end_single_line() {
    let (mut m, body) = with_body();
    let div = m.add_element(body, "div");
    add_paragraph(&mut m, div, "00:01.200", "Hello");
    let doc = ttml_to_lrc(&m, "A", "T").unwrap();
    assert_eq!(doc.to_text(), "[ar:A]\n[ti:T]\n[00:01.20]Hello\n");
}

#[test]
fn span_fails_whole_document() {
    let (mut m, body) = with_body();
    let div = m.add_element(body, "div");
    add_paragraph(&mut m, div, "00:01.000", "one");
    add_paragraph(&mut m, div, "00:02.000", "two");
    let p = add_paragraph(&mut m, div, "00:03.000", "three");
    m.add_element(p, "span");
    add_paragraph(&mut m, div, "00:04.000", "four");
    assert!(matches!(ttml_to_lrc(&m, "A", "T"), Err(ConvertError::UnsupportedFeature)));
}

#[test]
fn document_order_is_kept() {
    let (mut m, body) = with_body();
    let d1 = m.add_element(body, "div");
    add_paragraph(&mut m, d1, "00:09.000", "late");
    add_paragraph(&mut m, d1, "00:01.000", "early");
    let d2 = m.add_element(body, "div");
    add_paragraph(&mut m, d2, "00:05.000", "middle");
    let doc = ttml_to_lrc(&m, "Artist", "Title").unwrap();
    assert_eq!(
        doc.to_text(),
        "[ar:Artist]\n[ti:Title]\n[00:09.00]late\n[00:01.00]early\n[00:05.00]middle\n"
    );
}

#[test]
fn missing_body() {
    let m = Markup::new("tt");
    assert!(matches!(
        ttml_to_lrc(&m, "A", "T"),
        Err(ConvertError::StructureError(Missing::Body))
    ));
}

#[test]
fn missing_begin() {
    let (mut m, body) = with_body();
    let div = m.add_element(body, "div");
    let p = m.add_element(div, "p");
    m.add_text(p, "x");
    assert!(matches!(
        ttml_to_lrc(&m, "A", "T"),
        Err(ConvertError::StructureError(Missing::BeginAttribute))
    ));
}

#[test]
fn missing_text() {
    let (mut m, body) = with_body();
    let div = m.add_element(body, "div");
    let p = m.add_element(div, "p");
    m.add_attribute(p, "begin", "00:01.000");
    assert!(matches!(
        ttml_to_lrc(&m, "A", "T"),
        Err(ConvertError::StructureError(Missing::TextContent))
    ));
}

#[test]
fn bad_begin_value() {
    let (mut m, body) = with_body();
    let div = m.add_element(body, "div");
    add_paragraph(&mut m, div, "00:01.2", "x");
    match ttml_to_lrc(&m, "A", "T") {
        Err(ConvertError::MalformedTimestamp(t)) => assert_eq!(t, "00:01.2"),
        _ => panic!("expected a malformed timestamp"),
    }
}

#[test]
fn empty_metadata_is_rejected() {
    let (m, _) = with_body();
    assert!(matches!(ttml_to_lrc(&m, "", "T"), Err(ConvertError::ValidationError)));
    assert!(matches!(ttml_to_lrc(&m, "A", "T\nx"), Err(ConvertError::ValidationError)));
}

#[test]
fn attribute_lookup_takes_first() {
    let mut m = Markup::new("p");
    m.add_attribute(0, "begin", "1.000");
    m.add_attribute(0, "begin", "2.000");
    assert_eq!(m.attribute_of(0, "begin"), Some("1.000".to_string()));
    assert_eq!(m.attribute_of(0, "end"), None);
}

#[test]
fn selection_is_in_document_order() {
    let mut m = Markup::new("root");
    let a = m.add_element(0, "p");
    let b = m.add_element(a, "p");
    let c = m.add_element(0, "p");
    assert_eq!(m.query_selector_all(0, "p"), vec![a, b, c]);
    assert_eq!(m.query_selector_all(a, "p"), vec![b]);
}

#[test]
fn format_is_idempotent() {
    let src = "<tt><body><div><p begin=\"00:01.200\">Hello</p></div></body></tt>";
    let once = nice_xml(src.to_string()).unwrap();
    let twice = nice_xml(once.clone()).unwrap();
    assert_eq!(once, twice);
    assert_ne!(once, src);
}

#[test]
fn format_rejects_malformed() {
    for bad in ["", "</tt>", "<a/><b/>"] {
        assert!(matches!(nice_xml(bad.to_string()), Err(ConvertError::MalformedMarkup)), "{bad}");
    }
}

#[test]
fn lyrics_by_kind() {
    let entry = |t: &str| SimpleLyrics {
        data: vec![SimpleLyricsData { attributes: SimpleLyricsAttribute { ttml: t.to_string() } }],
    };
    let rel = SimpleRelationships { lyrics: entry("line"), syllable_lyrics: entry("word") };
    assert_eq!(rel.get_lyrics(false).data[0].attributes.ttml, "line");
    assert_eq!(rel.get_lyrics(true).data[0].attributes.ttml, "word");
}

fn pair(k: &str, v: &str) -> (String, String) {
    (k.to_string(), v.to_string())
}

#[test]
fn song_parameter_wins() {
    let pairs = vec![pair("l", "en"), pair("i", "42"), pair("i", "43")];
    assert_eq!(target_of(&pairs, Some("7".to_string())), Some(Target::Song("42".to_string())));
}

#[test]
fn album_from_last_segment() {
    assert_eq!(target_of(&vec![], Some("7".to_string())), Some(Target::Album("7".to_string())));
    let pairs = vec![pair("l", "en")];
    assert_eq!(target_of(&pairs, Some("9".to_string())), Some(Target::Album("9".to_string())));
    assert_eq!(target_of(&pairs, None), None);
}

#[test]
fn every_seconds_only_value() {
    for ss in 0..60u64 {
        for fff in 0..1000u64 {
            let src = format!("{:02}.{:03}", ss, fff);
            let t = ttml_timetag_to_lrc_timetag(&src).unwrap();
            assert_eq!((t.minutes, t.seconds, t.centis), (0, ss, fff / 10), "{src}");
        }
    }
}

#[test]
fn metadata_follows_lrc_rules() {
    let (m, _) = with_body();
    assert!(matches!(ttml_to_lrc(&m, "a]b", "T"), Err(ConvertError::ValidationError)));
    assert!(matches!(ttml_to_lrc(&m, "A", "x[y"), Err(ConvertError::ValidationError)));
    assert!(matches!(ttml_to_lrc(&m, "A\u{7}", "T"), Err(ConvertError::ValidationError)));
    assert!(ttml_to_lrc(&m, "A\tB", "T: subtitle").is_ok());
}

#[test]
fn line_text_follows_lrc_rules() {
    for bad in ["a [b:c] d", "bell\u{7}"] {
        let (mut m, body) = with_body();
        let div = m.add_element(body, "div");
        add_paragraph(&mut m, div, "00:01.000", bad);
        assert!(matches!(ttml_to_lrc(&m, "A", "T"), Err(ConvertError::ValidationError)), "{bad}");
    }
    let (mut m, body) = with_body();
    let div = m.add_element(body, "div");
    add_paragraph(&mut m, div, "00:01.000", "[intro] x: y");
    assert!(ttml_to_lrc(&m, "A", "T").is_ok());
}

#[test]
fn paragraph_faults_come_before_validation() {
    let (mut m, body) = with_body();
    let div = m.add_element(body, "div");
    add_paragraph(&mut m, div, "00:01.000", "a [b:c]");
    let p = add_paragraph(&mut m, div, "00:02.000", "two");
    m.add_element(p, "span");
    assert!(matches!(ttml_to_lrc(&m, "a]b", "T"), Err(ConvertError::UnsupportedFeature)));
    let (mut m, body) = with_body();
    let div = m.add_element(body, "div");
    let p = m.add_element(div, "p");
    m.add_text(p, "x");
    assert!(matches!(
        ttml_to_lrc(&m, "a\nb", "T"),
        Err(ConvertError::StructureError(Missing::BeginAttribute))
    ));
}

#[test]
fn one_digit_seconds() {
    assert_eq!(tag_text("1.005"), "00:01.00");
    assert_eq!(tag_text("9.999"), "00:09.99");
}

#[test]
fn large_hours() {
    assert_eq!(
        tag_text("307445734561825858:00:00.000"),
        "18446744073709551480:00.00"
    );
    assert!(matches!(
        ttml_timetag_to_lrc_timetag("307445734561825859:00:00.000"),
        Err(ConvertError::MalformedTimestamp(_))
    ));
}
