use obscura::dom::webvtt::{
    parse_cue, parse_timestamp, read_timestamp, Moment, Reading, WebVttDocument, WebVttError,
};

#[test]
fn parse_simple_webvtt() {
    let input = r#"WEBVTT

00:00:01.000 --> 00:00:04.000
Hello, world!

00:00:05.000 --> 00:00:08.000
Goodbye, world!
"#;
    let doc = WebVttDocument::parse(input).unwrap();
    assert_eq!(doc.cues.len(), 2);
    assert_eq!(doc.cues[0].text, "Hello, world!");
    assert_eq!(doc.cues[0].start_ms, 1000);
    assert_eq!(doc.cues[0].end_ms, 4000);
    assert_eq!(doc.cues[1].text, "Goodbye, world!");
}

#[test]
fn parse_webvtt_with_id() {
    let input = r#"WEBVTT

cue1
00:00:01.000 --> 00:00:04.000
First cue

cue2
00:00:05.000 --> 00:00:08.000
Second cue
"#;
    let doc = WebVttDocument::parse(input).unwrap();
    assert_eq!(doc.cues.len(), 2);
    assert_eq!(doc.cues[0].id.as_deref(), Some("cue1"));
    assert_eq!(doc.cues[1].id.as_deref(), Some("cue2"));
}

#[test]
fn cues_at_time_works() {
    let input = r#"WEBVTT

00:00:01.000 --> 00:00:04.000
First

00:00:03.000 --> 00:00:06.000
Second
"#;
    let doc = WebVttDocument::parse(input).unwrap();
    let at_2s = doc.cues_at_time(2000);
    assert_eq!(at_2s.len(), 1);
    assert_eq!(at_2s[0].text, "First");

    let at_3_5s = doc.cues_at_time(3500);
    assert_eq!(at_3_5s.len(), 2);
}

#[test]
fn parse_timestamps() {
    assert_eq!(parse_timestamp("01:30:00.000").unwrap(), 5400000);
    assert_eq!(parse_timestamp("00:05:30.500").unwrap(), 330500);
    assert_eq!(parse_timestamp("02:15.000").unwrap(), 135000);
}

#[test]
fn timestamps_pad_and_cut_the_fraction() {
    assert_eq!(parse_timestamp("00:01.5").unwrap(), 1500);
    assert_eq!(parse_timestamp("00:01.12345").unwrap(), 1123);
    assert_eq!(parse_timestamp("00:01").unwrap(), 1000);
    assert_eq!(parse_timestamp("00:01.x").unwrap(), 1000);
    assert_eq!(parse_timestamp("  +1:+2.003  ").unwrap(), 62003);
}

#[test]
fn timestamps_that_are_none() {
    for ts in ["", "12", "1:2:3:4", "a:00", "00:b.000", "x:00:00"] {
        match parse_timestamp(ts) {
            Err(WebVttError::InvalidTimestamp(s)) => assert_eq!(s, ts),
            _ => panic!("{ts}"),
        }
    }
    match parse_timestamp("  zz ") {
        Err(e) => assert_eq!(e.message(), "invalid timestamp: zz"),
        Ok(_) => panic!(),
    }
}

#[test]
fn timestamps_without_a_reading() {
    assert!(matches!(read_timestamp("18446744073709551615:00"), Moment::Unreadable));
    assert!(matches!(read_timestamp("00:00.aéé"), Moment::At(0)));
    assert!(matches!(read_timestamp("00:00.aaé"), Moment::Unreadable));
    assert!(matches!(
        WebVttDocument::read("WEBVTT\n\n18446744073709551615:00 --> 00:01\n"),
        Reading::Unreadable
    ));
}

#[test]
fn header_must_be_there() {
    match WebVttDocument::parse("no header\n") {
        Err(WebVttError::InvalidFormat(s)) => assert_eq!(s, "missing WEBVTT header"),
        _ => panic!(),
    }
    assert_eq!(
        WebVttError::InvalidFormat("x".to_string()).message(),
        "invalid WebVTT format: x"
    );
    assert_eq!(WebVttDocument::parse("").unwrap().cues.len(), 0);
    assert_eq!(WebVttDocument::parse("WEBVTT").unwrap().cues.len(), 0);
}

#[test]
fn a_byte_order_mark_is_skipped() {
    let doc =
        WebVttDocument::parse("\u{feff}WEBVTT\n\n00:01.000 --> 00:02.000\nHi\n").unwrap();
    assert_eq!(doc.cues.len(), 1);
    assert_eq!(doc.cues[0].text, "Hi");
    assert_eq!((doc.cues[0].start_ms, doc.cues[0].end_ms), (1000, 2000));
    assert_eq!(WebVttDocument::parse("\u{feff}").unwrap().cues.len(), 0);
    assert!(WebVttDocument::parse("\u{feff}\nWEBVTT\n").is_err());
    assert!(WebVttDocument::parse("\u{feff}\u{feff}WEBVTT\n").is_err());
}

#[test]
fn texts_are_read_one_after_the_other() {
    let first = "WEBVTT\n\n00:01 --> 00:02\na\n";
    let second = "00:03 --> 00:04\nb\n";
    let doc = WebVttDocument::parse(&format!("{first}\n{second}")).unwrap();
    let texts: Vec<&str> = doc.cues.iter().map(|c| c.text.as_str()).collect();
    assert_eq!(texts, vec!["a", "b"]);
    let doc = WebVttDocument::parse(&format!("WEBVTT\nmeta\n\n{second}")).unwrap();
    assert_eq!(doc.cues.len(), 1);
}

#[test]
fn notes_settings_and_more_lines() {
    let input = "WEBVTT - title\nmeta: data\n\n1\n00:01.000 --> 00:02.000 align:start\nNOTE hidden\nposition: 50%\none\r\ntwo: three\n";
    let doc = WebVttDocument::parse(input).unwrap();
    assert_eq!(doc.cues.len(), 1);
    assert_eq!(doc.cues[0].text, "one\ntwo: three");
    assert_eq!(doc.cues[0].settings.as_deref(), Some("position: 50%"));
    assert_eq!(doc.cues[0].end_ms, 2000);
}

#[test]
fn cue_without_timestamps() {
    match parse_cue(None, None, &[], &[]) {
        Err(e) => assert_eq!(e.message(), "missing timestamps in cue"),
        Ok(_) => panic!(),
    }
    let lines = vec!["00:01 to 00:02".to_string()];
    assert!(matches!(parse_cue(None, None, &lines, &[]), Err(WebVttError::MissingTimestamps)));
}

#[test]
fn cues_are_active_at_both_ends() {
    let doc = WebVttDocument::parse("WEBVTT\n\n00:01 --> 00:02\nx\n").unwrap();
    assert_eq!(doc.cues_at_time(999).len(), 0);
    assert_eq!(doc.cues_at_time(1000).len(), 1);
    assert_eq!(doc.cues_at_time(2000).len(), 1);
    assert_eq!(doc.cues_at_time(2001).len(), 0);
}

#[test]
fn tracks_in_parts_keep_their_order() {
    let one = WebVttDocument::parse("WEBVTT\n\n00:01 --> 00:02\na\n").unwrap();
    let two = WebVttDocument::parse("WEBVTT\n\n00:01 --> 00:02\na\n\n00:01 --> 00:02\nb\n").unwrap();
    assert_eq!(one.cues[0].text, two.cues[0].text);
    assert_eq!(two.cues[1].text, "b");
}
