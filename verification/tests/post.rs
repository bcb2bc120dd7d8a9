use rusty_blog::list::{List, ListIndex};
use rusty_blog::post::{post_date, Post};

const POST: &str = "---\ntitle: New blog\ndate: 2035-11-27T09:00:00+02:00\nauthor: neosam\n---\n\nOnce again.\n";

fn chrono_text(s: &str) -> String {
    chrono::DateTime::parse_from_rfc3339(s).unwrap().to_string()
}

#[test]
fn post_from_str() {
    let p = Post::from_str(POST, "2035-11-27-unpublished-post").unwrap();
    assert_eq!(p.name, "2035-11-27-unpublished-post");
    assert_eq!(p.title, " New blog");
    assert_eq!(p.author, " neosam");
    assert_eq!(p.body, "\nOnce again.\n");
    assert_eq!(p.date, "2035-11-27 09:00:00 +02:00");
    assert_eq!(p.date, chrono_text("2035-11-27T09:00:00+02:00"));
}

#[test]
fn post_missing_fields() {
    let e = Post::from_str("---\nauthor: a\ndate: x\n---\n", "p").unwrap_err();
    assert_eq!(e.0, "Missing title in post");
    let e = Post::from_str("---\ntitle: t\ndate: x\n---\n", "p").unwrap_err();
    assert_eq!(e.0, "Missing author in post");
    let e = Post::from_str("---\ntitle: t\nauthor: a\n---\n", "p").unwrap_err();
    assert_eq!(e.0, "Missing date in post");
    let e = Post::from_str("", "p").unwrap_err();
    assert_eq!(e.0, "File seems to be empty");
}

#[test]
fn unreadable_date_falls_back_to_epoch() {
    assert_eq!(post_date(" not a date "), "1970-01-01 00:00:00 +00:00");
    let epoch = chrono::DateTime::parse_from_rfc3339("1970-01-01T00:00:00+00:00").unwrap().to_string();
    assert_eq!(post_date(""), epoch);
}

#[test]
fn date_is_trimmed_before_parsing() {
    assert_eq!(post_date("\t2019-11-26T10:30:00-05:00  "), chrono_text("2019-11-26T10:30:00-05:00"));
    assert_eq!(post_date("2019-11-26T10:30:00.5Z"), "2019-11-26 10:30:00.500 +00:00");
}

#[test]
fn list_index_and_posts() {
    let index = ListIndex::from_str("---\ntitle: Main\n---\nfirst\r\nmissing\nsecond", "main").unwrap();
    assert_eq!(index.name, "main");
    assert_eq!(index.title, " Main");
    assert_eq!(index.post_names, vec!["first".to_string(), "missing".to_string(), "second".to_string()]);
    let first = Post::from_str(POST, "first").unwrap();
    let second = Post::from_str(POST, "second").unwrap();
    let list = List::from_index(index, vec![Some(first), None, Some(second)]);
    assert_eq!(list.name, "main");
    assert_eq!(list.title, " Main");
    let names: Vec<&str> = list.posts.iter().map(|p| p.name.as_str()).collect();
    assert_eq!(names, vec!["first", "second"]);
}

#[test]
fn list_without_title() {
    let e = ListIndex::from_str("---\nauthor: x\n---\na\n", "l").err().unwrap();
    assert_eq!(e.0, "Missing title in list");
    let e = ListIndex::from_str("---\n", "l").err().unwrap();
    assert_eq!(e.0, "Header is never closed");
}

#[test]
fn list_file_path() {
    assert_eq!(List::file_path("./", "main"), ".//lists/main.txt");
    assert_eq!(List::file_path("/blog", "all"), "/blog/lists/all.txt");
}

#[test]
fn surrounding_white_space_does_not_change_the_date() {
    assert_eq!(post_date("  2019-11-24T08:00:00+01:00 \n"), post_date("2019-11-24T08:00:00+01:00"));
    assert_eq!(post_date("2019-11-24T08:00:00+01:00"), "2019-11-24 08:00:00 +01:00");
}
