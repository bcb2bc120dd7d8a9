use rusty_blog::error::ParseError;
use rusty_blog::filerparser::{parse_header, split_key_value, Header};
use rusty_blog::text::{split_lines, trim_str};

fn error_message(r: Result<rusty_blog::filerparser::ParsedDocument, ParseError>) -> String {
    match r {
        Ok(_) => panic!("expected an error"),
        Err(e) => e.0,
    }
}

#[test]
fn parses_header_and_body() {
    let doc = parse_header("---\ntitle: New blog\nauthor: neosam\n---\n\nOnce again\nI try\n").unwrap();
    assert_eq!(doc.header.get("title").map(|s| s.as_str()), Some(" New blog"));
    assert_eq!(doc.header.get("author").map(|s| s.as_str()), Some(" neosam"));
    assert_eq!(doc.header.get("date"), None);
    assert_eq!(doc.body, "\nOnce again\nI try\n");
}

#[test]
fn value_keeps_later_colons() {
    let doc = parse_header("---\ndate: 2035-11-27T09:00:00+02:00\n---\n").unwrap();
    assert_eq!(doc.header.get("date").map(|s| s.as_str()), Some(" 2035-11-27T09:00:00+02:00"));
    assert_eq!(doc.body, "");
}

#[test]
fn line_without_colon_is_a_key_with_empty_value() {
    let doc = parse_header("---\nflag\n---\nbody").unwrap();
    assert_eq!(doc.header.get("flag").map(|s| s.as_str()), Some(""));
    assert_eq!(doc.body, "body\n");
}

#[test]
fn later_key_overrides_earlier() {
    let doc = parse_header("---\na:1\nb:2\na:3\n---\n").unwrap();
    assert_eq!(doc.header.get("a").map(|s| s.as_str()), Some("3"));
    assert_eq!(doc.header.get("b").map(|s| s.as_str()), Some("2"));
}

#[test]
fn carriage_returns_are_dropped() {
    let doc = parse_header("---\r\ntitle:x\r\n---\r\nline one\r\nline two").unwrap();
    assert_eq!(doc.header.get("title").map(|s| s.as_str()), Some("x"));
    assert_eq!(doc.body, "line one\nline two\n");
}

#[test]
fn empty_file_is_refused() {
    assert_eq!(error_message(parse_header("")), "File seems to be empty");
}

#[test]
fn missing_start_is_refused() {
    assert_eq!(error_message(parse_header("title: x\n---\n")), "Expected starting --- but got title: x");
    assert_eq!(error_message(parse_header("\n---\n")), "Expected starting --- but got ");
}

#[test]
fn unclosed_header_is_refused() {
    assert_eq!(error_message(parse_header("---\ntitle: x\n")), "Header is never closed");
    assert_eq!(error_message(parse_header("---")), "Header is never closed");
}

#[test]
fn error_text() {
    let e = ParseError::new("Missing title in post");
    assert_eq!(e.0, "Missing title in post");
    assert_eq!(e.to_string(), "Parse error: Missing title in post");
}

#[test]
fn lines_are_split_like_str_lines() {
    for text in ["", "\n", "a", "a\n", "a\r\nb", "a\r\r\nb\n\nc", "x\ry", "end\r"] {
        let expected: Vec<String> = text.lines().map(|l| l.to_string()).collect();
        assert_eq!(split_lines(text), expected, "text {:?}", text);
    }
}

#[test]
fn trim_is_str_trim() {
    for text in ["", "  ", " a b ", "\u{3000}x\u{85}", "\t2019-11-26T10:00:00+01:00\n", "y"] {
        assert_eq!(trim_str(text), text.trim(), "text {:?}", text);
    }
}

#[test]
fn key_value_split() {
    assert_eq!(split_key_value("a:b:c"), ("a".to_string(), "b:c".to_string()));
    assert_eq!(split_key_value("ab"), ("ab".to_string(), "".to_string()));
    assert_eq!(split_key_value(":x"), ("".to_string(), "x".to_string()));
}

#[test]
fn header_insert_replaces() {
    let mut h = Header::new();
    h.insert("k".to_string(), "1".to_string());
    h.insert("j".to_string(), "2".to_string());
    h.insert("k".to_string(), "3".to_string());
    assert_eq!(h.get("k").map(|s| s.as_str()), Some("3"));
    assert_eq!(h.get("j").map(|s| s.as_str()), Some("2"));
    assert_eq!(h.get("z"), None);
}

#[test]
fn written_document_reads_back() {
    let pairs = [("title", "Hello"), ("author", "me"), ("title", "Again")];
    let body = ["first", "", "third: with colon"];
    let mut text = String::from("---\n");
    for (k, v) in pairs.iter() {
        text.push_str(&format!("{}:{}\n", k, v));
    }
    text.push_str("---\n");
    for l in body.iter() {
        text.push_str(l);
        text.push('\n');
    }
    let doc = parse_header(&text).unwrap();
    assert_eq!(doc.header.get("title").map(|s| s.as_str()), Some("Again"));
    assert_eq!(doc.header.get("author").map(|s| s.as_str()), Some("me"));
    assert_eq!(doc.body, "first\n\nthird: with colon\n");
}

#[test]
fn crlf_file_parses_like_lf_file() {
    for text in ["---\ntitle: a\nauthor:b\n---\nbody\n\nmore", "---\nx:y\n", "", "oops\n---\n"] {
        let crlf_text = text.replace("\n", "\r\n");
        match (parse_header(text), parse_header(&crlf_text)) {
            (Ok(a), Ok(b)) => {
                assert_eq!(a.body, b.body);
                for key in ["title", "author", "x"] {
                    assert_eq!(a.header.get(key), b.header.get(key));
                }
            }
            (Err(a), Err(b)) => assert_eq!(a.0, b.0),
            _ => panic!("different outcomes for {:?}", text),
        }
    }
}
