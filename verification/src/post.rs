//! Blog posts.
use vstd::prelude::*;

use crate::error::ParseError;
use crate::filerparser::{
    body_of, document_text, is_header_key, is_line_text, law_parse_written_document, lemma_map_of_last,
    parse_header, spec_parse_header, Pairs,
};
use crate::text::{trim, trim_str};

verus! {

/// What `chrono::DateTime::parse_from_rfc3339` gives for a text, shown as
/// `Display` shows a `DateTime<FixedOffset>`; `None` when the text is not an
/// RFC 3339 date and time.
pub uninterp spec fn rfc3339_display(s: Seq<char>) -> Option<Seq<char>>;

/// Parses `s` with `chrono::DateTime::parse_from_rfc3339` and formats the
/// date with its `Display` impl.
///
/// The contract claims that the result is the value that `rfc3339_display`
/// names for `s`: the text of the parsed date, or `None` when chrono refuses
/// the text.  Nothing is said of what that text is.
#[verifier::external_body]
fn parse_rfc3339_display(s: &str) -> (r: Option<String>)
    ensures
        match r {
            Some(d) => rfc3339_display(s@) == Some(d@),
            None => rfc3339_display(s@) is None,
        },
{
    match chrono::DateTime::parse_from_rfc3339(s) {
        Ok(date) => Some(date.to_string()),
        Err(_) => None,
    }
}

/// What chrono's `Display` shows for the `DateTime<FixedOffset>` of the given
/// date and time of day at an offset east of UTC, in seconds.
pub uninterp spec fn fixed_offset_date_display(
    year: i32,
    month: u32,
    day: u32,
    hour: u32,
    minute: u32,
    second: u32,
    offset: i32,
) -> Seq<char>;

/// A year of the proleptic Gregorian calendar with a 29th of February.
pub open spec fn is_leap_year(year: int) -> bool {
    (year % 4 == 0 && year % 100 != 0) || year % 400 == 0
}

/// The number of days of a month.
pub open spec fn days_in_month(year: int, month: int) -> int {
    if month == 2 {
        if is_leap_year(year) {
            29
        } else {
            28
        }
    } else if month == 4 || month == 6 || month == 9 || month == 11 {
        30
    } else {
        31
    }
}

/// Builds a date with `chrono::FixedOffset::east_opt` and
/// `TimeZone::with_ymd_and_hms`, and shows it with the `Display` impl of
/// `DateTime<FixedOffset>`.
///
/// The `requires` leaves out the inputs on which chrono gives no date (an
/// offset of a day or more, a day that the month lacks, a time of day out of
/// range, a year at the edge of chrono's range), where the unwraps would
/// panic.  The contract claims only that the result is the value
/// `fixed_offset_date_display` names for the arguments.
#[verifier::external_body]
fn display_fixed_offset_date(
    year: i32,
    month: u32,
    day: u32,
    hour: u32,
    minute: u32,
    second: u32,
    offset: i32,
) -> (r: String)
    requires
        -262000 <= year <= 262000,
        1 <= month <= 12,
        1 <= day <= days_in_month(year as int, month as int),
        hour < 24,
        minute < 60,
        second < 60,
        -86400 < offset < 86400,
    ensures
        r@ == fixed_offset_date_display(year, month, day, hour, minute, second, offset),
{
    let zone = chrono::FixedOffset::east_opt(offset).unwrap();
    chrono::TimeZone::with_ymd_and_hms(&zone, year, month, day, hour, minute, second).unwrap().to_string()
}

/// The text of the date that stands for a missing or unreadable one: the
/// start of the Unix epoch at offset zero, as chrono shows it.
pub open spec fn epoch_text() -> Seq<char> {
    fixed_offset_date_display(1970, 1, 1, 0, 0, 0, 0)
}

/// The date shown for the raw `date` value of a post header: the value is
/// trimmed and read as an RFC 3339 date; the epoch stands in when it is not one.
pub open spec fn date_text(raw: Seq<char>) -> Seq<char> {
    match rfc3339_display(trim(raw)) {
        Some(d) => d,
        None => epoch_text(),
    }
}

/// White space around the `date` value of a post does not change the date
/// that is shown.
pub proof fn law_date_ignores_surrounding_white_space(raw: Seq<char>)
    ensures
        date_text(trim(raw)) == date_text(raw),
{
    crate::text::lemma_trim_idempotent(raw);
}

/// The date shown for the raw `date` value of a post header.
pub fn post_date(raw: &str) -> (r: String)
    ensures
        r@ == date_text(raw@),
        rfc3339_display(trim(raw@)) matches Some(d) ==> r@ == d,
        rfc3339_display(trim(raw@)) is None ==> r@ == epoch_text(),
{
    let trimmed = trim_str(raw);
    match parse_rfc3339_display(trimmed.as_str()) {
        Some(d) => d,
        None => display_fixed_offset_date(1970, 1, 1, 0, 0, 0, 0),
    }
}

/// A blog post.
#[derive(Clone, Debug)]
pub struct Post {
    /// The name of the post, as it stands in links.
    pub name: String,
    /// The title, from the `title` header key.
    pub title: String,
    /// The markdown body.
    pub body: String,
    /// The author, from the `author` header key.
    pub author: String,
    /// The date, from the `date` header key, as it is shown.
    pub date: String,
}

/// A post as plain values.
pub struct PostModel {
    pub name: Seq<char>,
    pub title: Seq<char>,
    pub body: Seq<char>,
    pub author: Seq<char>,
    pub date: Seq<char>,
}

impl View for Post {
    type V = PostModel;

    open spec fn view(&self) -> PostModel {
        PostModel {
            name: self.name@,
            title: self.title@,
            body: self.body@,
            author: self.author@,
            date: self.date@,
        }
    }
}

/// What reading a post file gives: the post, or the message of the error.
pub open spec fn spec_post(data: Seq<char>, name: Seq<char>) -> Result<PostModel, Seq<char>> {
    match spec_parse_header(data) {
        Err(m) => Err(m),
        Ok((h, b)) => if !h.contains_key("title"@) {
            Err("Missing title in post"@)
        } else if !h.contains_key("author"@) {
            Err("Missing author in post"@)
        } else if !h.contains_key("date"@) {
            Err("Missing date in post"@)
        } else {
            Ok(
                PostModel {
                    name: name,
                    title: h["title"@],
                    body: b,
                    author: h["author"@],
                    date: date_text(h["date"@]),
                },
            )
        },
    }
}

impl Post {
    /// Reads a post from the text of its file.
    ///
    /// The header must have the keys `title`, `author` and `date`.
    pub fn from_str(data: &str, name: &str) -> (r: Result<Post, ParseError>)
        ensures
            match r {
                Ok(p) => spec_post(data@, name@) == Ok::<_, Seq<char>>(p@),
                Err(e) => spec_post(data@, name@) == Err::<PostModel, _>(e.0@),
            },
            r is Ok ==> spec_parse_header(data@) is Ok,
            r matches Ok(p) ==> ({
                let h = spec_parse_header(data@)->Ok_0.0;
                &&& h.contains_key("title"@) && p.title@ == h["title"@]
                &&& h.contains_key("author"@) && p.author@ == h["author"@]
                &&& h.contains_key("date"@) && p.date@ == date_text(h["date"@])
                &&& p.body@ == spec_parse_header(data@)->Ok_0.1
                &&& p.name@ == name@
            }),
    {
        let doc = parse_header(data)?;
        let title = match doc.header.get("title") {
            Some(t) => t.clone(),
            None => return Err(ParseError::new("Missing title in post")),
        };
        let author = match doc.header.get("author") {
            Some(a) => a.clone(),
            None => return Err(ParseError::new("Missing author in post")),
        };
        let date = match doc.header.get("date") {
            Some(d) => post_date(d.as_str()),
            None => return Err(ParseError::new("Missing date in post")),
        };
        let p = Post { name: String::from_str(name), title, body: doc.body, author, date };
        Ok(p)
    }
}

/// The date shown for a post is what the RFC 3339 reading gives for the whole
/// trimmed `date` value, and the epoch when that value is not a date.
pub proof fn law_date_reads_whole_trimmed_value(raw: Seq<char>)
    ensures
        rfc3339_display(trim(raw)) matches Some(d) ==> date_text(raw) == d,
        rfc3339_display(trim(raw)) is None ==> date_text(raw) == fixed_offset_date_display(
            1970,
            1,
            1,
            0,
            0,
            0,
            0,
        ),
{
}

/// A post takes its title, author and body from its parsed file unchanged:
/// the title and the author are the header values of `title` and `author`
/// (a value keeps every colon after the first one of its line), the body is
/// the parsed body, and the date is read from the header value of `date`.
pub proof fn law_post_fields(data: Seq<char>, name: Seq<char>)
    requires
        spec_parse_header(data) is Ok,
        spec_parse_header(data)->Ok_0.0.contains_key("title"@),
        spec_parse_header(data)->Ok_0.0.contains_key("author"@),
        spec_parse_header(data)->Ok_0.0.contains_key("date"@),
    ensures
        spec_post(data, name) is Ok,
        ({
            let h = spec_parse_header(data)->Ok_0.0;
            let p = spec_post(data, name)->Ok_0;
            &&& p.title == h["title"@]
            &&& p.author == h["author"@]
            &&& p.body == spec_parse_header(data)->Ok_0.1
            &&& p.name == name
            &&& p.date == date_text(h["date"@])
        }),
{
}

/// A post read from a written file has as title, author and date value the
/// values of the last `title`, `author` and `date` lines of its header, whole,
/// colons included, and as body its body lines, each followed by a line feed.
pub proof fn law_post_from_written_file(
    pairs: Pairs,
    body: Seq<Seq<char>>,
    name: Seq<char>,
    it: int,
    ia: int,
    id: int,
)
    requires
        forall|i: int| 0 <= i < pairs.len() ==> is_header_key(#[trigger] pairs[i].0),
        forall|i: int| 0 <= i < pairs.len() ==> is_line_text(#[trigger] pairs[i].1),
        forall|i: int| 0 <= i < body.len() ==> is_line_text(#[trigger] body[i]),
        0 <= it < pairs.len() && pairs[it].0 == "title"@,
        0 <= ia < pairs.len() && pairs[ia].0 == "author"@,
        0 <= id < pairs.len() && pairs[id].0 == "date"@,
        forall|j: int| it < j < pairs.len() ==> (#[trigger] pairs[j]).0 != "title"@,
        forall|j: int| ia < j < pairs.len() ==> (#[trigger] pairs[j]).0 != "author"@,
        forall|j: int| id < j < pairs.len() ==> (#[trigger] pairs[j]).0 != "date"@,
    ensures
        spec_post(document_text(pairs, body), name) is Ok,
        ({
            let p = spec_post(document_text(pairs, body), name)->Ok_0;
            &&& p.title == pairs[it].1
            &&& p.author == pairs[ia].1
            &&& p.date == date_text(pairs[id].1)
            &&& p.body == body_of(body)
            &&& p.name == name
        }),
{
    law_parse_written_document(pairs, body);
    lemma_map_of_last(pairs, it);
    lemma_map_of_last(pairs, ia);
    lemma_map_of_last(pairs, id);
}

} // verus!
