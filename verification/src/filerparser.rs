//! Parser of the blog files.
//!
//! A blog file starts with a line which only contains `---`.  The next lines
//! are key/value pairs separated by a colon.  The header is terminated by
//! another line of three dashes.  The rest until the end is the body.
use vstd::prelude::*;

use crate::error::ParseError;
use crate::text::{chars_of, first_index, lemma_first_index, lemma_first_index_at, lines, split_lines, strip_cr, views};

verus! {

broadcast use vstd::string::group_string_axioms;

/// Key/value pairs, as views.
pub type Pairs = Seq<(Seq<char>, Seq<char>)>;

/// The map that inserting the pairs one after the other gives.
pub open spec fn map_of(s: Pairs) -> Map<Seq<char>, Seq<char>>
    decreases s.len(),
{
    if s.len() == 0 {
        Map::empty()
    } else {
        map_of(s.drop_last()).insert(s.last().0, s.last().1)
    }
}

/// The value of a key in the map of some pairs is the value of the last pair
/// with that key.
pub proof fn lemma_map_of_last(s: Pairs, i: int)
    requires
        0 <= i < s.len(),
        forall|j: int| i < j < s.len() ==> (#[trigger] s[j]).0 != s[i].0,
    ensures
        map_of(s).dom().contains(s[i].0),
        map_of(s)[s[i].0] == s[i].1,
    decreases s.len(),
{
    if i < s.len() - 1 {
        let t = s.drop_last();
        assert(t[i] == s[i]);
        assert(s[s.len() - 1].0 != s[i].0);
        assert forall|j: int| i < j < t.len() implies (#[trigger] t[j]).0 != t[i].0 by {
            assert(t[j] == s[j]);
        }
        lemma_map_of_last(t, i);
    }
}

/// No key occurs twice.
pub open spec fn keys_unique(s: Pairs) -> bool {
    forall|i: int, j: int| 0 <= i < j < s.len() ==> s[i].0 != s[j].0
}

pub proof fn lemma_map_of_dom(s: Pairs, k: Seq<char>)
    ensures
        map_of(s).dom().contains(k) <==> exists|i: int| 0 <= i < s.len() && s[i].0 == k,
    decreases s.len(),
{
    if s.len() > 0 {
        let t = s.drop_last();
        lemma_map_of_dom(t, k);
        if map_of(s).dom().contains(k) && k != s.last().0 {
            let i = choose|i: int| 0 <= i < t.len() && t[i].0 == k;
            assert(s[i] == t[i]);
        }
        if exists|i: int| 0 <= i < s.len() && s[i].0 == k {
            let i = choose|i: int| 0 <= i < s.len() && s[i].0 == k;
            if i < s.len() - 1 {
                assert(t[i] == s[i]);
            }
        }
    }
}

pub proof fn lemma_map_of_value(s: Pairs, i: int)
    requires
        keys_unique(s),
        0 <= i < s.len(),
    ensures
        map_of(s).dom().contains(s[i].0),
        map_of(s)[s[i].0] == s[i].1,
    decreases s.len(),
{
    lemma_map_of_dom(s, s[i].0);
    if i < s.len() - 1 {
        let t = s.drop_last();
        assert(t[i] == s[i]);
        assert(keys_unique(t)) by {
            assert forall|a: int, b: int| 0 <= a < b < t.len() implies t[a].0 != t[b].0 by {
                assert(t[a] == s[a] && t[b] == s[b]);
            }
        }
        lemma_map_of_value(t, i);
    }
}

/// The key and the value of a header line: the key is what stands before the
/// first colon, the value all that follows it (empty when there is no colon).
pub open spec fn split_kv(line: Seq<char>) -> (Seq<char>, Seq<char>) {
    let i = first_index(line, ':');
    if i < line.len() {
        (line.take(i), line.skip(i + 1))
    } else {
        (line, Seq::empty())
    }
}

/// The header that the given header lines define; a later line overrides an
/// earlier one with the same key.
pub open spec fn header_of(ls: Seq<Seq<char>>) -> Map<Seq<char>, Seq<char>>
    decreases ls.len(),
{
    if ls.len() == 0 {
        Map::empty()
    } else {
        header_of(ls.drop_last()).insert(split_kv(ls.last()).0, split_kv(ls.last()).1)
    }
}

/// The body that the given body lines make: each line followed by a line feed.
pub open spec fn body_of(ls: Seq<Seq<char>>) -> Seq<char>
    decreases ls.len(),
{
    if ls.len() == 0 {
        Seq::empty()
    } else {
        body_of(ls.drop_last()) + ls.last() + seq!['\n']
    }
}

/// The line that opens and closes the header.
pub open spec fn dashes() -> Seq<char> {
    seq!['-', '-', '-']
}

/// What parsing a blog file gives: the header and the body, or the message
/// of the error.
pub open spec fn spec_parse_header(content: Seq<char>) -> Result<
    (Map<Seq<char>, Seq<char>>, Seq<char>),
    Seq<char>,
> {
    let ls = lines(content);
    if ls.len() == 0 {
        Err("File seems to be empty"@)
    } else if ls[0] != dashes() {
        Err("Expected starting --- but got "@ + ls[0])
    } else {
        let t = ls.drop_first();
        let c = first_index(t, dashes());
        if c < t.len() {
            Ok((header_of(t.take(c)), body_of(t.skip(c + 1))))
        } else {
            Err("Header is never closed"@)
        }
    }
}

/// The views of key/value entries.
pub open spec fn pairs_of(entries: Seq<(String, String)>) -> Pairs {
    entries.map_values(|e: (String, String)| (e.0@, e.1@))
}

/// The header of a blog file: a map from keys to values.
pub struct Header {
    entries: Vec<(String, String)>,
}

impl Header {
    /// The entries, as views.
    pub closed spec fn pairs(&self) -> Pairs {
        pairs_of(self.entries@)
    }

    #[verifier::type_invariant]
    spec fn wf(&self) -> bool {
        keys_unique(self.pairs())
    }

    /// An empty header.
    pub fn new() -> (h: Header)
        ensures
            h@ == Map::<Seq<char>, Seq<char>>::empty(),
    {
        let h = Header { entries: Vec::new() };
        assert(h.pairs() =~= Seq::<(Seq<char>, Seq<char>)>::empty());
        h
    }

    /// Sets the value of a key, replacing the value it had.
    pub fn insert(&mut self, key: String, value: String)
        ensures
            final(self)@ == old(self)@.insert(key@, value@),
    {
        proof {
            use_type_invariant(&*self);
        }
        let ghost old_pairs = self.pairs();
        let n = self.entries.len();
        let mut i: usize = 0;
        while i < n
            invariant
                n == self.entries@.len(),
                old_pairs == self.pairs(),
                old_pairs == old(self).pairs(),
                keys_unique(old_pairs),
                i <= n,
                forall|j: int| 0 <= j < i ==> old_pairs[j].0 != key@,
            decreases n - i,
        {
            if self.entries[i].0 == key {
                let ghost new_entry = (key@, value@);
                assert(old_pairs[i as int].0 == key@);
                let mut entries: Vec<(String, String)> = Vec::new();
                std::mem::swap(&mut entries, &mut self.entries);
                entries.set(i, (key, value));
                let ghost new_pairs = pairs_of(entries@);
                proof {
                    assert(new_pairs =~= old_pairs.update(i as int, new_entry));
                    assert(keys_unique(new_pairs)) by {
                        assert forall|a: int, b: int| 0 <= a < b < new_pairs.len() implies new_pairs[a].0 != new_pairs[b].0 by {
                            assert(old_pairs[a].0 == new_pairs[a].0);
                            assert(old_pairs[b].0 == new_pairs[b].0);
                        }
                    }
                    assert(map_of(new_pairs) =~= map_of(old_pairs).insert(new_entry.0, new_entry.1)) by {
                        assert forall|k: Seq<char>| #![trigger map_of(new_pairs).dom().contains(k)]
                            map_of(new_pairs).dom().contains(k) <==> map_of(old_pairs).insert(new_entry.0, new_entry.1).dom().contains(k) by {
                            lemma_map_of_dom(new_pairs, k);
                            lemma_map_of_dom(old_pairs, k);
                            if exists|a: int| 0 <= a < old_pairs.len() && old_pairs[a].0 == k {
                                let a = choose|a: int| 0 <= a < old_pairs.len() && old_pairs[a].0 == k;
                                assert(new_pairs[a].0 == k);
                            }
                            if k == new_entry.0 {
                                assert(new_pairs[i as int].0 == k);
                            }
                        }
                        assert forall|k: Seq<char>| #![trigger map_of(new_pairs)[k]]
                            map_of(new_pairs).dom().contains(k) implies map_of(new_pairs)[k] == map_of(old_pairs).insert(new_entry.0, new_entry.1)[k] by {
                            lemma_map_of_dom(new_pairs, k);
                            let a = choose|a: int| 0 <= a < new_pairs.len() && new_pairs[a].0 == k;
                            lemma_map_of_value(new_pairs, a);
                            if a != i {
                                lemma_map_of_value(old_pairs, a);
                            }
                        }
                    }
                }
                self.entries = entries;
                return;
            }
            i = i + 1;
        }
        let ghost new_entry = (key@, value@);
        let mut entries: Vec<(String, String)> = Vec::new();
        std::mem::swap(&mut entries, &mut self.entries);
        entries.push((key, value));
        proof {
            let new_pairs = pairs_of(entries@);
            assert(new_pairs =~= old_pairs.push(new_entry));
            assert(new_pairs.drop_last() =~= old_pairs);
            assert(keys_unique(new_pairs)) by {
                assert forall|a: int, b: int| 0 <= a < b < new_pairs.len() implies new_pairs[a].0 != new_pairs[b].0 by {
                    if b < n {
                        assert(old_pairs[a].0 == new_pairs[a].0);
                        assert(old_pairs[b].0 == new_pairs[b].0);
                    } else {
                        assert(old_pairs[a].0 == new_pairs[a].0);
                    }
                }
            }
        }
        self.entries = entries;
    }

    /// The value of a key, if the header has it.
    pub fn get(&self, key: &str) -> (r: Option<&String>)
        ensures
            match r {
                Some(v) => self@.contains_key(key@) && v@ == self@[key@],
                None => !self@.contains_key(key@),
            },
    {
        proof {
            use_type_invariant(self);
        }
        let wanted = String::from_str(key);
        let ghost pairs = self.pairs();
        let n = self.entries.len();
        let mut i: usize = 0;
        while i < n
            invariant
                n == self.entries@.len(),
                pairs == self.pairs(),
                keys_unique(pairs),
                wanted@ == key@,
                i <= n,
                forall|j: int| 0 <= j < i ==> pairs[j].0 != wanted@,
            decreases n - i,
        {
            if self.entries[i].0 == wanted {
                proof {
                    assert(pairs[i as int] == (self.entries@[i as int].0@, self.entries@[i as int].1@));
                    assert(pairs[i as int].0 == wanted@);
                    lemma_map_of_value(pairs, i as int);
                }
                return Some(&self.entries[i].1);
            }
            i = i + 1;
        }
        proof {
            lemma_map_of_dom(pairs, key@);
        }
        None
    }
}

impl View for Header {
    type V = Map<Seq<char>, Seq<char>>;

    open spec fn view(&self) -> Map<Seq<char>, Seq<char>> {
        map_of(self.pairs())
    }
}

/// Contains the content of a blog entry.
///
/// A blog entry has key/value pairs as header and a String as body.
pub struct ParsedDocument {
    /// Key/value pairs for the header.
    pub header: Header,
    /// The content of the entry.
    pub body: String,
}

/// Splits a header line into its key and its value.
pub fn split_key_value(line: &str) -> (r: (String, String))
    ensures
        (r.0@, r.1@) == split_kv(line@),
{
    let chars = chars_of(line);
    let n = chars.len();
    let mut i: usize = 0;
    while i < n && chars[i] != ':'
        invariant
            chars@ == line@,
            n == line@.len(),
            i <= n,
            forall|j: int| 0 <= j < i ==> line@[j] != ':',
        decreases n - i,
    {
        i = i + 1;
    }
    proof {
        lemma_first_index_at(line@, ':', i as int);
    }
    if i < n {
        let key = String::from_str(line.substring_char(0, i));
        let value = String::from_str(line.substring_char(i + 1, n));
        assert(line@.take(i as int) =~= line@.subrange(0, i as int));
        assert(line@.skip(i + 1) =~= line@.subrange(i + 1, n as int));
        (key, value)
    } else {
        (String::from_str(line), String::new())
    }
}

/// Parse a blog entry.
///
/// The blog entry should start with a line which only contains `---`.  The
/// next lines are key/value pairs separated by a colon.  The header is
/// terminated by another three dashes.  The rest until the end is the body.
pub fn parse_header(content: &str) -> (r: Result<ParsedDocument, ParseError>)
    ensures
        match r {
            Ok(doc) => spec_parse_header(content@) == Ok::<_, Seq<char>>((doc.header@, doc.body@)),
            Err(e) => spec_parse_header(content@) == Err::<(Map<Seq<char>, Seq<char>>, Seq<char>), _>(e.0@),
        },
{
    let ls = split_lines(content);
    let ghost lv = views(ls@);
    let n = ls.len();
    if n == 0 {
        return Err(ParseError::new("File seems to be empty"));
    }
    let dash = String::from_str("---");
    proof {
        reveal_strlit("---");
        assert(dash@ == dashes());
        assert(lv[0] == ls@[0]@);
    }
    if !(ls[0] == dash) {
        let mut message = String::from_str("Expected starting --- but got ");
        message.append(ls[0].as_str());
        return Err(ParseError(message));
    }
    let ghost t = lv.drop_first();
    let mut header = Header::new();
    let mut i: usize = 1;
    loop
        invariant
            lv == views(ls@),
            lv == lines(content@),
            n == ls@.len(),
            lv.len() == n,
            lv[0] == dashes(),
            t == lv.drop_first(),
            dash@ == dashes(),
            1 <= i <= n,
            forall|j: int| 1 <= j < i ==> lv[j] != dashes(),
            header@ == header_of(lv.subrange(1, i as int)),
        ensures
            1 <= i < n,
            lv[i as int] == dashes(),
            forall|j: int| 1 <= j < i ==> lv[j] != dashes(),
            header@ == header_of(lv.subrange(1, i as int)),
        decreases n - i,
    {
        if i == n {
            proof {
                lemma_first_index(t, dashes());
                let c = first_index(t, dashes());
                if c < t.len() {
                    assert(t[c] == lv[c + 1]);
                }
            }
            return Err(ParseError::new("Header is never closed"));
        }
        if ls[i] == dash {
            assert(lv[i as int] == ls@[i as int]@);
            break;
        }
        let (key, value) = split_key_value(ls[i].as_str());
        proof {
            assert(lv[i as int] == ls@[i as int]@);
            assert(lv.subrange(1, i + 1).drop_last() =~= lv.subrange(1, i as int));
        }
        header.insert(key, value);
        i = i + 1;
    }
    proof {
        assert forall|j: int| 0 <= j < i - 1 implies t[j] != dashes() by {
            assert(t[j] == lv[j + 1]);
        }
        assert(t[i - 1] == lv[i as int]);
        lemma_first_index_at(t, dashes(), i - 1);
        assert(t.take(i - 1) =~= lv.subrange(1, i as int));
        reveal_strlit("\n");
    }
    let mut body = String::new();
    let mut j: usize = i + 1;
    assert(lv.subrange(i + 1, i + 1) =~= Seq::<Seq<char>>::empty());
    while j < n
        invariant
            lv == views(ls@),
            n == ls@.len(),
            lv.len() == n,
            i + 1 <= j <= n,
            body@ == body_of(lv.subrange(i + 1, j as int)),
            "\n"@ == seq!['\n'],
        decreases n - j,
    {
        body.append(ls[j].as_str());
        body.append("\n");
        proof {
            let s = lv.subrange(i + 1, j + 1);
            assert(s.drop_last() =~= lv.subrange(i + 1, j as int));
            assert(s.last() == ls@[j as int]@);
        }
        j = j + 1;
    }
    assert(t.skip(i as int) =~= lv.subrange(i + 1, n as int));
    Ok(ParsedDocument { header, body })
}

/// A line of a header: the key, a colon and the value.
pub open spec fn header_line(k: Seq<char>, v: Seq<char>) -> Seq<char> {
    k + seq![':'] + v
}

/// The header lines of the given pairs, in their order.
pub open spec fn header_lines(pairs: Pairs) -> Seq<Seq<char>> {
    pairs.map_values(|p: (Seq<char>, Seq<char>)| header_line(p.0, p.1))
}

/// The text of a blog file with the given header pairs and body lines.
pub open spec fn document_text(pairs: Pairs, body: Seq<Seq<char>>) -> Seq<char> {
    dashes() + seq!['\n'] + body_of(header_lines(pairs)) + dashes() + seq!['\n'] + body_of(body)
}

/// A text that can stand on a line and is read back as it is: it holds no
/// line feed and does not end with a carriage return.
pub open spec fn is_line_text(l: Seq<char>) -> bool {
    &&& !l.contains('\n')
    &&& !(l.len() > 0 && l.last() == '\r')
}

/// A key that a header line can hold: a line text without colon.
pub open spec fn is_header_key(k: Seq<char>) -> bool {
    is_line_text(k) && !k.contains(':')
}

pub proof fn lemma_lines_line_then(l: Seq<char>, rest: Seq<char>)
    requires
        !l.contains('\n'),
    ensures
        lines(l + seq!['\n'] + rest) == seq![strip_cr(l)] + lines(rest),
{
    let t = l + seq!['\n'] + rest;
    assert forall|j: int| 0 <= j < l.len() implies t[j] != '\n' by {
        assert(t[j] == l[j]);
        if t[j] == '\n' {
            assert(l.contains('\n'));
        }
    }
    assert(t[l.len() as int] == '\n');
    crate::text::lemma_lines_step(t, l.len() as int);
    assert(t.take(l.len() as int) =~= l);
    assert(t.skip(l.len() as int + 1) =~= rest);
}

pub proof fn lemma_body_of_front(ls: Seq<Seq<char>>)
    requires
        ls.len() > 0,
    ensures
        body_of(ls) == ls[0] + seq!['\n'] + body_of(ls.drop_first()),
    decreases ls.len(),
{
    if ls.len() == 1 {
        assert(ls.drop_last() =~= Seq::<Seq<char>>::empty());
        assert(ls.drop_first() =~= Seq::<Seq<char>>::empty());
        assert(body_of(ls) =~= ls[0] + seq!['\n'] + body_of(ls.drop_first()));
    } else {
        let init = ls.drop_last();
        lemma_body_of_front(init);
        assert(init.drop_first() =~= ls.drop_first().drop_last());
        assert(ls.drop_first().last() == ls.last());
        assert(body_of(ls) =~= ls[0] + seq!['\n'] + body_of(ls.drop_first()));
    }
}

/// Lines without line feed, each ended by a line feed, are read back as
/// those lines, each without the carriage return it may end with.
pub proof fn lemma_lines_of_body(ls: Seq<Seq<char>>, rest: Seq<char>)
    requires
        forall|i: int| 0 <= i < ls.len() ==> !(#[trigger] ls[i]).contains('\n'),
    ensures
        lines(body_of(ls) + rest) == ls.map_values(|l: Seq<char>| strip_cr(l)) + lines(rest),
    decreases ls.len(),
{
    if ls.len() == 0 {
        assert(body_of(ls) + rest =~= rest);
        assert(ls.map_values(|l: Seq<char>| strip_cr(l)) =~= Seq::<Seq<char>>::empty());
        assert(Seq::<Seq<char>>::empty() + lines(rest) =~= lines(rest));
    } else {
        let tail = ls.drop_first();
        lemma_body_of_front(ls);
        assert(!ls[0].contains('\n'));
        lemma_lines_of_body(tail, rest);
        assert(body_of(ls) + rest =~= ls[0] + seq!['\n'] + (body_of(tail) + rest));
        lemma_lines_line_then(ls[0], body_of(tail) + rest);
        assert(ls.map_values(|l: Seq<char>| strip_cr(l)) =~= seq![strip_cr(ls[0])] + tail.map_values(
            |l: Seq<char>| strip_cr(l),
        ));
    }
}

pub proof fn lemma_split_header_line(k: Seq<char>, v: Seq<char>)
    requires
        !k.contains(':'),
    ensures
        split_kv(header_line(k, v)) == (k, v),
{
    let l = header_line(k, v);
    assert forall|j: int| 0 <= j < k.len() implies l[j] != ':' by {
        assert(l[j] == k[j]);
        if l[j] == ':' {
            assert(k.contains(':'));
        }
    }
    assert(l[k.len() as int] == ':');
    lemma_first_index_at(l, ':', k.len() as int);
    assert(l.take(k.len() as int) =~= k);
    assert(l.skip(k.len() as int + 1) =~= v);
}

pub proof fn lemma_header_of_lines(pairs: Pairs)
    requires
        forall|i: int| 0 <= i < pairs.len() ==> !(#[trigger] pairs[i]).0.contains(':'),
    ensures
        header_of(header_lines(pairs)) == map_of(pairs),
    decreases pairs.len(),
{
    if pairs.len() > 0 {
        let init = pairs.drop_last();
        assert(header_lines(pairs).drop_last() =~= header_lines(init));
        assert(forall|i: int| 0 <= i < init.len() ==> #[trigger] init[i] == pairs[i]);
        lemma_header_of_lines(init);
        lemma_split_header_line(pairs.last().0, pairs.last().1);
        assert(header_lines(pairs).last() == header_line(pairs.last().0, pairs.last().1));
    }
}

/// Reading back a written blog file: a file made of the opening dashes, one
/// `key:value` line per pair, the closing dashes and the body lines parses
/// into the header that inserting the pairs in order gives (a later pair
/// overrides an earlier one with the same key) and into the body lines, each
/// followed by a line feed.  Keys hold no colon; no key, value or body line
/// holds a line feed or ends with a carriage return.
pub proof fn law_parse_written_document(pairs: Pairs, body: Seq<Seq<char>>)
    requires
        forall|i: int| 0 <= i < pairs.len() ==> is_header_key(#[trigger] pairs[i].0),
        forall|i: int| 0 <= i < pairs.len() ==> is_line_text(#[trigger] pairs[i].1),
        forall|i: int| 0 <= i < body.len() ==> is_line_text(#[trigger] body[i]),
    ensures
        spec_parse_header(document_text(pairs, body)) == Ok::<_, Seq<char>>(
            (map_of(pairs), body_of(body)),
        ),
{
    let h = header_lines(pairs);
    let d = dashes();
    assert forall|i: int| 0 <= i < h.len() implies !(#[trigger] h[i]).contains('\n') && strip_cr(h[i]) == h[i] && h[i] != d by {
        let k = pairs[i].0;
        let v = pairs[i].1;
        assert(h[i] == header_line(k, v));
        assert(is_header_key(k) && is_line_text(v));
        if h[i].contains('\n') {
            let j = choose|j: int| 0 <= j < h[i].len() && h[i][j] == '\n';
            if j < k.len() {
                assert(h[i][j] == k[j]);
            } else if j > k.len() {
                assert(h[i][j] == v[j - k.len() - 1]);
            }
        }
        if v.len() == 0 {
            assert(h[i].last() == ':');
        } else {
            assert(h[i].last() == v.last());
        }
        assert(h[i][k.len() as int] == ':');
        if h[i] == d {
            assert(d.len() == 3 && d[0] == '-' && d[1] == '-' && d[2] == '-');
            assert(k.len() < 3);
        }
    }
    assert forall|i: int| 0 <= i < body.len() implies !(#[trigger] body[i]).contains('\n') && strip_cr(body[i]) == body[i] by {
        assert(is_line_text(body[i]));
    }
    assert(!d.contains('\n')) by {
        if d.contains('\n') {
            let j = choose|j: int| 0 <= j < d.len() && d[j] == '\n';
        }
    }
    let nl = seq!['\n'];
    let b = body_of(body);
    let text = document_text(pairs, body);
    assert(text =~= d + nl + (body_of(h) + (d + nl + b)));
    lemma_lines_line_then(d, body_of(h) + (d + nl + b));
    lemma_lines_of_body(h, d + nl + b);
    lemma_lines_line_then(d, b);
    lemma_lines_of_body(body, Seq::empty());
    assert(b + Seq::<char>::empty() =~= b);
    assert(lines(Seq::<char>::empty()) =~= Seq::<Seq<char>>::empty());
    assert(h.map_values(|l: Seq<char>| strip_cr(l)) =~= h);
    assert(body.map_values(|l: Seq<char>| strip_cr(l)) + Seq::<Seq<char>>::empty() =~= body);
    assert(strip_cr(d) == d);
    let ls = lines(text);
    assert(ls =~= seq![d] + (h + (seq![d] + body)));
    let t = ls.drop_first();
    assert(t =~= h + seq![d] + body);
    assert forall|j: int| 0 <= j < h.len() implies t[j] != d by {
        assert(t[j] == h[j]);
    }
    assert(t[h.len() as int] == d);
    lemma_first_index_at(t, d, h.len() as int);
    assert(t.take(h.len() as int) =~= h);
    assert(t.skip(h.len() as int + 1) =~= body);
    assert forall|i: int| 0 <= i < pairs.len() implies !(#[trigger] pairs[i]).0.contains(':') by {
        assert(is_header_key(pairs[i].0));
    }
    lemma_header_of_lines(pairs);
}

/// A later header line overrides an earlier one: the value of a key is the
/// value of the last line with that key, and a key that no line has is not
/// in the header.
pub proof fn law_last_header_line_wins(ls: Seq<Seq<char>>, k: Seq<char>)
    ensures
        header_of(ls).contains_key(k) <==> exists|i: int| 0 <= i < ls.len() && split_kv(#[trigger] ls[i]).0 == k,
        forall|i: int|
            0 <= i < ls.len() && split_kv(#[trigger] ls[i]).0 == k && (forall|j: int|
                i < j < ls.len() ==> split_kv(#[trigger] ls[j]).0 != k) ==> header_of(ls)[k] == split_kv(
                ls[i],
            ).1,
    decreases ls.len(),
{
    if ls.len() > 0 {
        let init = ls.drop_last();
        law_last_header_line_wins(init, k);
        assert forall|i: int| 0 <= i < init.len() implies #[trigger] init[i] == ls[i] by {}
        if header_of(ls).contains_key(k) && split_kv(ls.last()).0 != k {
            let i = choose|i: int| 0 <= i < init.len() && split_kv(#[trigger] init[i]).0 == k;
            assert(ls[i] == init[i]);
        }
        if exists|i: int| 0 <= i < ls.len() && split_kv(#[trigger] ls[i]).0 == k {
            let i = choose|i: int| 0 <= i < ls.len() && split_kv(#[trigger] ls[i]).0 == k;
            if i < ls.len() - 1 {
                assert(split_kv(init[i]).0 == k);
            }
        }
        assert forall|i: int|
            0 <= i < ls.len() && split_kv(#[trigger] ls[i]).0 == k && (forall|j: int|
                i < j < ls.len() ==> split_kv(#[trigger] ls[j]).0 != k) implies header_of(ls)[k] == split_kv(
            ls[i],
        ).1 by {
            if i < ls.len() - 1 {
                assert(split_kv(ls[ls.len() - 1]).0 != k);
                assert(split_kv(init[i]).0 == k);
                assert forall|j: int| i < j < init.len() implies split_kv(#[trigger] init[j]).0 != k by {
                    assert(init[j] == ls[j]);
                }
            }
        }
    }
}

/// The body of a parsed file splits back into the lines that follow the
/// closing dashes, each without the carriage return it may end with.
pub proof fn law_body_lines(content: Seq<char>)
    requires
        spec_parse_header(content) is Ok,
    ensures
        ({
            let t = lines(content).drop_first();
            let c = first_index(t, dashes());
            lines(spec_parse_header(content)->Ok_0.1) == t.skip(c + 1).map_values(
                |l: Seq<char>| strip_cr(l),
            )
        }),
{
    let ls = lines(content);
    let t = ls.drop_first();
    let c = first_index(t, dashes());
    let b = t.skip(c + 1);
    lemma_first_index(t, dashes());
    assert(c < t.len());
    crate::text::lemma_lines_have_no_line_feed(content);
    assert forall|i: int| 0 <= i < b.len() implies !(#[trigger] b[i]).contains('\n') by {
        assert(b[i] == ls[i + c + 2]);
    }
    lemma_lines_of_body(b, Seq::empty());
    assert(body_of(b) + Seq::<char>::empty() =~= body_of(b));
    assert(lines(Seq::<char>::empty()) =~= Seq::<Seq<char>>::empty());
    assert(b.map_values(|l: Seq<char>| strip_cr(l)) + Seq::<Seq<char>>::empty() =~= b.map_values(
        |l: Seq<char>| strip_cr(l),
    ));
}

/// A file written with `\r\n` line endings parses as the same file written
/// with `\n` alone: the same header and body, or the same error.  The file
/// holds no carriage return of its own.
pub proof fn law_crlf_parses_like_lf(s: Seq<char>)
    requires
        !s.contains('\r'),
    ensures
        spec_parse_header(crate::text::crlf(s)) == spec_parse_header(s),
{
    crate::text::lemma_lines_crlf(s);
}

} // verus!
