//! Character level helpers on strings: splitting into lines, searching a
//! character and trimming white space.
use vstd::prelude::*;

verus! {

broadcast use vstd::string::group_string_axioms;

/// The position of the first `c` in `s`, or the length of `s` when `s` has none.
pub open spec fn first_index<A>(s: Seq<A>, c: A) -> int
    decreases s.len(),
{
    if s.len() == 0 {
        0
    } else if s[0] == c {
        0
    } else {
        1 + first_index(s.drop_first(), c)
    }
}

/// A line without the carriage return that stood before its line feed.
pub open spec fn strip_cr(l: Seq<char>) -> Seq<char> {
    if l.len() > 0 && l.last() == '\r' {
        l.drop_last()
    } else {
        l
    }
}

/// The lines of a text: it is split at every `\n`, a `\r` right before a
/// `\n` is dropped, and a final line ending does not open an empty line.
pub open spec fn lines(s: Seq<char>) -> Seq<Seq<char>>
    decreases s.len(),
{
    if s.len() == 0 {
        seq![]
    } else {
        let i = first_index(s, '\n');
        if 0 <= i < s.len() {
            seq![strip_cr(s.take(i))] + lines(s.skip(i + 1))
        } else {
            seq![s]
        }
    }
}

/// The views of a sequence of strings.
pub open spec fn views(v: Seq<String>) -> Seq<Seq<char>> {
    v.map_values(|l: String| l@)
}

pub proof fn lemma_first_index<A>(s: Seq<A>, c: A)
    ensures
        0 <= first_index(s, c) <= s.len(),
        first_index(s, c) < s.len() ==> s[first_index(s, c)] == c,
        forall|j: int| 0 <= j < first_index(s, c) ==> s[j] != c,
    decreases s.len(),
{
    if s.len() > 0 && s[0] != c {
        lemma_first_index(s.drop_first(), c);
        assert forall|j: int| 0 <= j < first_index(s, c) implies s[j] != c by {
            if j > 0 {
                assert(s[j] == s.drop_first()[j - 1]);
            }
        }
    }
}

/// `first_index` is the first position of `c`: no `c` stands before `k`, and
/// `k` is the length or a `c`.
pub proof fn lemma_first_index_at<A>(s: Seq<A>, c: A, k: int)
    requires
        0 <= k <= s.len(),
        k < s.len() ==> s[k] == c,
        forall|j: int| 0 <= j < k ==> s[j] != c,
    ensures
        first_index(s, c) == k,
    decreases k,
{
    if k > 0 {
        assert(s[0] != c);
        let t = s.drop_first();
        assert forall|j: int| 0 <= j < k - 1 implies t[j] != c by {
            assert(t[j] == s[j + 1]);
        }
        if k - 1 < t.len() {
            assert(t[k - 1] == s[k]);
        }
        lemma_first_index_at(t, c, k - 1);
    }
}

/// Splitting at the first line feed.
pub proof fn lemma_lines_step(t: Seq<char>, k: int)
    requires
        0 <= k < t.len(),
        t[k] == '\n',
        forall|j: int| 0 <= j < k ==> t[j] != '\n',
    ensures
        lines(t) == seq![strip_cr(t.take(k))] + lines(t.skip(k + 1)),
{
    lemma_first_index_at(t, '\n', k);
}

/// A text without line feed is one line, or none when empty.
pub proof fn lemma_lines_last(t: Seq<char>)
    requires
        forall|j: int| 0 <= j < t.len() ==> t[j] != '\n',
    ensures
        lines(t) == (if t.len() == 0 { seq![] } else { seq![t] }),
{
    if t.len() > 0 {
        lemma_first_index_at(t, '\n', t.len() as int);
    }
}

/// The characters of a string.
pub fn chars_of(s: &str) -> (v: Vec<char>)
    ensures
        v@ == s@,
{
    let mut v: Vec<char> = Vec::new();
    for c in it: s.chars()
        invariant
            it.seq() == s@,
            v@ == it.seq().take(it.index()),
    {
        v.push(c);
        assert(v@ == it.seq().take(it.index() + 1));
    }
    v
}


/// The lines of a string, as `str::lines` yields them.
pub fn split_lines(s: &str) -> (r: Vec<String>)
    ensures
        views(r@) == lines(s@),
{
    let chars = chars_of(s);
    let n = chars.len();
    let mut result: Vec<String> = Vec::new();
    let mut start: usize = 0;
    let mut i: usize = 0;
    assert(s@.skip(0) =~= s@);
    assert(views(result@) =~= Seq::<Seq<char>>::empty());
    while i < n
        invariant
            chars@ == s@,
            n == s@.len(),
            start <= i <= n,
            forall|j: int| start <= j < i ==> s@[j] != '\n',
            views(result@) + lines(s@.skip(start as int)) == lines(s@),
        decreases n - i,
    {
        if chars[i] == '\n' {
            let end = if i > start && chars[i - 1] == '\r' {
                i - 1
            } else {
                i
            };
            let line = String::from_str(s.substring_char(start, end));
            proof {
                let t = s@.skip(start as int);
                let k = i - start;
                assert forall|j: int| 0 <= j < k implies t[j] != '\n' by {
                    assert(t[j] == s@[start + j]);
                }
                lemma_lines_step(t, k);
                assert(t.take(k) =~= s@.subrange(start as int, i as int));
                assert(strip_cr(t.take(k)) =~= s@.subrange(start as int, end as int));
                assert(t.skip(k + 1) =~= s@.skip(i + 1));
                assert(views(result@.push(line)) =~= views(result@).push(line@));
            }
            result.push(line);
            start = i + 1;
        }
        i = i + 1;
    }
    proof {
        let t = s@.skip(start as int);
        assert forall|j: int| 0 <= j < t.len() implies t[j] != '\n' by {
            assert(t[j] == s@[start + j]);
        }
        lemma_lines_last(t);
    }
    if start < n {
        let line = String::from_str(s.substring_char(start, n));
        proof {
            assert(s@.skip(start as int) =~= s@.subrange(start as int, n as int));
            assert(views(result@.push(line)) =~= views(result@).push(line@));
        }
        result.push(line);
    } else {
        assert(views(result@) + seq![] =~= views(result@));
    }
    result
}

/// A character with the Unicode `White_Space` property, as `char::is_whitespace` decides.
pub open spec fn is_white_space(c: char) -> bool {
    ||| ('\u{9}' <= c && c <= '\u{d}')
    ||| c == ' '
    ||| c == '\u{85}'
    ||| c == '\u{a0}'
    ||| c == '\u{1680}'
    ||| ('\u{2000}' <= c && c <= '\u{200a}')
    ||| c == '\u{2028}'
    ||| c == '\u{2029}'
    ||| c == '\u{202f}'
    ||| c == '\u{205f}'
    ||| c == '\u{3000}'
}

/// The number of white space characters at the start of `s`.
pub open spec fn leading_ws(s: Seq<char>) -> int
    decreases s.len(),
{
    if s.len() > 0 && is_white_space(s[0]) {
        1 + leading_ws(s.drop_first())
    } else {
        0
    }
}

/// The number of white space characters at the end of `s`.
pub open spec fn trailing_ws(s: Seq<char>) -> int
    decreases s.len(),
{
    if s.len() > 0 && is_white_space(s.last()) {
        1 + trailing_ws(s.drop_last())
    } else {
        0
    }
}

/// `s` without its leading and trailing white space, as `str::trim` gives it.
pub open spec fn trim(s: Seq<char>) -> Seq<char> {
    let a = leading_ws(s);
    if a >= s.len() {
        Seq::empty()
    } else {
        s.subrange(a, s.len() - trailing_ws(s))
    }
}

pub proof fn lemma_leading_ws_at(s: Seq<char>, k: int)
    requires
        0 <= k <= s.len(),
        k < s.len() ==> !is_white_space(s[k]),
        forall|j: int| 0 <= j < k ==> is_white_space(s[j]),
    ensures
        leading_ws(s) == k,
    decreases k,
{
    if k > 0 {
        let t = s.drop_first();
        assert(is_white_space(s[0]));
        assert forall|j: int| 0 <= j < k - 1 implies is_white_space(t[j]) by {
            assert(t[j] == s[j + 1]);
        }
        if k - 1 < t.len() {
            assert(t[k - 1] == s[k]);
        }
        lemma_leading_ws_at(t, k - 1);
    }
}

pub proof fn lemma_trailing_ws_at(s: Seq<char>, k: int)
    requires
        0 <= k <= s.len(),
        k < s.len() ==> !is_white_space(s[s.len() - 1 - k]),
        forall|j: int| s.len() - k <= j < s.len() ==> is_white_space(s[j]),
    ensures
        trailing_ws(s) == k,
    decreases k,
{
    if k > 0 {
        let t = s.drop_last();
        assert(is_white_space(s[s.len() - 1]));
        assert forall|j: int| t.len() - (k - 1) <= j < t.len() implies is_white_space(t[j]) by {
            assert(t[j] == s[j]);
        }
        if k - 1 < t.len() {
            assert(t[t.len() - 1 - (k - 1)] == s[s.len() - 1 - k]);
        }
        lemma_trailing_ws_at(t, k - 1);
    }
}

/// Whether a character is white space.
pub fn is_whitespace_char(c: char) -> (b: bool)
    ensures
        b == is_white_space(c),
{
    ('\u{9}' <= c && c <= '\u{d}') || c == ' ' || c == '\u{85}' || c == '\u{a0}' || c == '\u{1680}'
        || ('\u{2000}' <= c && c <= '\u{200a}') || c == '\u{2028}' || c == '\u{2029}' || c
        == '\u{202f}' || c == '\u{205f}' || c == '\u{3000}'
}

/// A string without its leading and trailing white space.
pub fn trim_str(s: &str) -> (r: String)
    ensures
        r@ == trim(s@),
{
    let chars = chars_of(s);
    let n = chars.len();
    let mut a: usize = 0;
    while a < n && is_whitespace_char(chars[a])
        invariant
            chars@ == s@,
            n == s@.len(),
            a <= n,
            forall|j: int| 0 <= j < a ==> is_white_space(s@[j]),
        decreases n - a,
    {
        a = a + 1;
    }
    proof {
        lemma_leading_ws_at(s@, a as int);
    }
    if a == n {
        return String::new();
    }
    let mut b: usize = n;
    while b > a && is_whitespace_char(chars[b - 1])
        invariant
            chars@ == s@,
            n == s@.len(),
            a < n,
            !is_white_space(s@[a as int]),
            a <= b <= n,
            forall|j: int| b <= j < n ==> is_white_space(s@[j]),
        decreases b,
    {
        b = b - 1;
    }
    proof {
        assert(b > a);
        lemma_trailing_ws_at(s@, n - b);
    }
    String::from_str(s.substring_char(a, b))
}

/// No line holds a line feed.
pub proof fn lemma_lines_have_no_line_feed(s: Seq<char>)
    ensures
        forall|i: int| 0 <= i < lines(s).len() ==> !(#[trigger] lines(s)[i]).contains('\n'),
    decreases s.len(),
{
    if s.len() > 0 {
        let k = first_index(s, '\n');
        lemma_first_index(s, '\n');
        if 0 <= k < s.len() {
            let l = strip_cr(s.take(k));
            lemma_lines_have_no_line_feed(s.skip(k + 1));
            assert forall|i: int| 0 <= i < lines(s).len() implies !(#[trigger] lines(s)[i]).contains('\n') by {
                if i == 0 {
                    assert(lines(s)[0] == l);
                    if l.contains('\n') {
                        let j = choose|j: int| 0 <= j < l.len() && l[j] == '\n';
                        assert(l[j] == s[j]);
                    }
                } else {
                    assert(lines(s)[i] == lines(s.skip(k + 1))[i - 1]);
                }
            }
        } else {
            assert forall|i: int| 0 <= i < lines(s).len() implies !(#[trigger] lines(s)[i]).contains('\n') by {
                assert(lines(s)[i] == s);
                if s.contains('\n') {
                    let j = choose|j: int| 0 <= j < s.len() && s[j] == '\n';
                }
            }
        }
    }
}

pub proof fn lemma_leading_ws(s: Seq<char>)
    ensures
        0 <= leading_ws(s) <= s.len(),
        leading_ws(s) < s.len() ==> !is_white_space(s[leading_ws(s)]),
        forall|j: int| 0 <= j < leading_ws(s) ==> is_white_space(s[j]),
    decreases s.len(),
{
    if s.len() > 0 && is_white_space(s[0]) {
        let t = s.drop_first();
        lemma_leading_ws(t);
        assert forall|j: int| 0 <= j < leading_ws(s) implies is_white_space(s[j]) by {
            if j > 0 {
                assert(s[j] == t[j - 1]);
            }
        }
        if leading_ws(s) < s.len() {
            assert(s[leading_ws(s)] == t[leading_ws(t)]);
        }
    }
}

pub proof fn lemma_trailing_ws(s: Seq<char>)
    ensures
        0 <= trailing_ws(s) <= s.len(),
        trailing_ws(s) < s.len() ==> !is_white_space(s[s.len() - 1 - trailing_ws(s)]),
        forall|j: int| s.len() - trailing_ws(s) <= j < s.len() ==> is_white_space(s[j]),
    decreases s.len(),
{
    if s.len() > 0 && is_white_space(s.last()) {
        let t = s.drop_last();
        lemma_trailing_ws(t);
        assert forall|j: int| s.len() - trailing_ws(s) <= j < s.len() implies is_white_space(s[j]) by {
            if j < s.len() - 1 {
                assert(s[j] == t[j]);
            }
        }
        if trailing_ws(s) < s.len() {
            assert(s[s.len() - 1 - trailing_ws(s)] == t[t.len() - 1 - trailing_ws(t)]);
        }
    }
}

/// Trimming twice is trimming once.
pub proof fn lemma_trim_idempotent(s: Seq<char>)
    ensures
        trim(trim(s)) == trim(s),
{
    lemma_leading_ws(s);
    lemma_trailing_ws(s);
    let a = leading_ws(s);
    let r = trim(s);
    if a < s.len() {
        let b = s.len() - trailing_ws(s);
        // the first character that is not white space stays before the end
        assert(b > a) by {
            if b <= a {
                assert(is_white_space(s[a]));
            }
        }
        assert(r =~= s.subrange(a, b));
        assert(r[0] == s[a]);
        assert(r[r.len() - 1] == s[b - 1]);
        lemma_leading_ws_at(r, 0);
        lemma_trailing_ws_at(r, 0);
        assert(r.subrange(0, r.len() as int) =~= r);
    } else {
        assert(r.len() == 0);
    }
}

/// The text with each line feed preceded by a carriage return.
pub open spec fn crlf(s: Seq<char>) -> Seq<char>
    decreases s.len(),
{
    if s.len() == 0 {
        Seq::empty()
    } else if s[0] == '\n' {
        seq!['\r', '\n'] + crlf(s.drop_first())
    } else {
        seq![s[0]] + crlf(s.drop_first())
    }
}

pub proof fn lemma_crlf_concat(a: Seq<char>, b: Seq<char>)
    ensures
        crlf(a + b) == crlf(a) + crlf(b),
    decreases a.len(),
{
    if a.len() == 0 {
        assert(a + b =~= b);
        assert(crlf(a) + crlf(b) =~= crlf(b));
    } else {
        assert((a + b).drop_first() =~= a.drop_first() + b);
        assert((a + b)[0] == a[0]);
        lemma_crlf_concat(a.drop_first(), b);
        if a[0] == '\n' {
            assert(crlf(a + b) =~= crlf(a) + crlf(b));
        } else {
            assert(crlf(a + b) =~= crlf(a) + crlf(b));
        }
    }
}

pub proof fn lemma_crlf_no_line_feed(a: Seq<char>)
    requires
        !a.contains('\n'),
    ensures
        crlf(a) == a,
    decreases a.len(),
{
    if a.len() > 0 {
        assert(a[0] != '\n') by {
            if a[0] == '\n' {
                assert(a.contains('\n'));
            }
        }
        let t = a.drop_first();
        assert(!t.contains('\n')) by {
            if t.contains('\n') {
                let j = choose|j: int| 0 <= j < t.len() && t[j] == '\n';
                assert(a[j + 1] == '\n');
            }
        }
        lemma_crlf_no_line_feed(t);
        assert(crlf(a) =~= a);
    }
}

/// Line endings written as `\r\n` split into the same lines as `\n` alone,
/// for a text that holds no carriage return of its own.
pub proof fn lemma_lines_crlf(s: Seq<char>)
    requires
        !s.contains('\r'),
    ensures
        lines(crlf(s)) == lines(s),
    decreases s.len(),
{
    if s.len() > 0 {
        let i = first_index(s, '\n');
        lemma_first_index(s, '\n');
        if i < s.len() {
            let p = s.take(i);
            let r = s.skip(i + 1);
            assert(s =~= p + seq!['\n'] + r);
            assert(s =~= p + (seq!['\n'] + r));
            assert(!p.contains('\n')) by {
                if p.contains('\n') {
                    let j = choose|j: int| 0 <= j < p.len() && p[j] == '\n';
                    assert(s[j] == '\n');
                }
            }
            assert(!r.contains('\r')) by {
                if r.contains('\r') {
                    let j = choose|j: int| 0 <= j < r.len() && r[j] == '\r';
                    assert(s[i + 1 + j] == '\r');
                }
            }
            assert(p.len() == 0 || p.last() != '\r') by {
                if p.len() > 0 && p.last() == '\r' {
                    assert(s[p.len() - 1] == '\r');
                }
            }
            lemma_crlf_concat(p, seq!['\n'] + r);
            lemma_crlf_concat(seq!['\n'], r);
            lemma_crlf_no_line_feed(p);
            assert(seq!['\n'].drop_first() =~= Seq::<char>::empty());
            assert(crlf(Seq::<char>::empty()) =~= Seq::<char>::empty());
            assert(crlf(seq!['\n']) =~= seq!['\r', '\n']);
            let q = p + seq!['\r'];
            assert(crlf(s) =~= q + seq!['\n'] + crlf(r));
            assert(!q.contains('\n')) by {
                if q.contains('\n') {
                    let j = choose|j: int| 0 <= j < q.len() && q[j] == '\n';
                    if j < p.len() {
                        assert(p[j] == '\n');
                    }
                }
            }
            // split both texts at their first line feed
            let t = crlf(s);
            assert forall|j: int| 0 <= j < q.len() implies t[j] != '\n' by {
                assert(t[j] == q[j]);
                if q[j] == '\n' {
                    assert(q.contains('\n'));
                }
            }
            assert(t[q.len() as int] == '\n');
            lemma_lines_step(t, q.len() as int);
            assert(t.take(q.len() as int) =~= q);
            assert(t.skip(q.len() as int + 1) =~= crlf(r));
            assert(strip_cr(q) =~= p);
            lemma_lines_step(s, i);
            assert(strip_cr(p) == p);
            lemma_lines_crlf(r);
        } else {
            assert(!s.contains('\n')) by {
                if s.contains('\n') {
                    let j = choose|j: int| 0 <= j < s.len() && s[j] == '\n';
                }
            }
            lemma_crlf_no_line_feed(s);
        }
    }
}

/// `r` stands in `s` at position `a`, and all that comes before and after it
/// in `s` is white space.
pub open spec fn stands_between_white_space(s: Seq<char>, r: Seq<char>, a: int) -> bool {
    &&& 0 <= a && a + r.len() <= s.len()
    &&& s.subrange(a, a + r.len()) == r
    &&& forall|j: int| 0 <= j < a ==> is_white_space(#[trigger] s[j])
    &&& forall|j: int| a + r.len() <= j < s.len() ==> is_white_space(#[trigger] s[j])
}

/// Trimming keeps a contiguous part of the text that neither starts nor ends
/// with white space, and everything it drops before and after that part is
/// white space; an all white space text trims to nothing.
pub proof fn law_trim(s: Seq<char>)
    ensures
        trim(s).len() == 0 ==> forall|j: int| 0 <= j < s.len() ==> is_white_space(#[trigger] s[j]),
        trim(s).len() > 0 ==> {
            &&& !is_white_space(trim(s)[0])
            &&& !is_white_space(trim(s).last())
            &&& exists|a: int| #[trigger] stands_between_white_space(s, trim(s), a)
        },
{
    lemma_leading_ws(s);
    lemma_trailing_ws(s);
    let a = leading_ws(s);
    let r = trim(s);
    if a >= s.len() {
        assert(r.len() == 0);
    } else {
        let b = s.len() - trailing_ws(s);
        assert(b > a) by {
            if b <= a {
                assert(is_white_space(s[a]));
            }
        }
        assert(r =~= s.subrange(a, b));
        assert(r[0] == s[a]);
        assert(r.last() == s[b - 1]);
        assert(s.subrange(a, a + r.len()) == r);
        assert(stands_between_white_space(s, r, a));
    }
}

} // verus!
