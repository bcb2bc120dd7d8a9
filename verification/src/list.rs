//! Lists of posts.
use vstd::prelude::*;

use crate::error::ParseError;
use crate::filerparser::{
    body_of, dashes, document_text, is_header_key, is_line_text, law_body_lines, law_parse_written_document,
    lemma_lines_of_body, lemma_map_of_last, parse_header, spec_parse_header, Pairs,
};
use crate::post::Post;
use crate::text::{first_index, lines, split_lines, strip_cr, views};

verus! {

/// The index of a list file: its title and the names of its posts, one per
/// body line.
pub struct ListIndex {
    pub name: String,
    pub title: String,
    pub post_names: Vec<String>,
}

/// What reading a list file gives: the title and the post names, or the
/// message of the error.
pub open spec fn spec_list_index(data: Seq<char>) -> Result<(Seq<char>, Seq<Seq<char>>), Seq<char>> {
    match spec_parse_header(data) {
        Err(m) => Err(m),
        Ok((h, b)) => if !h.contains_key("title"@) {
            Err("Missing title in list"@)
        } else {
            Ok((h["title"@], lines(b)))
        },
    }
}

impl ListIndex {
    /// Reads the index of a list from the text of its file.
    ///
    /// The header must have the key `title`; each body line names a post.
    pub fn from_str(data: &str, name: &str) -> (r: Result<ListIndex, ParseError>)
        ensures
            match r {
                Ok(l) => l.name@ == name@ && spec_list_index(data@) == Ok::<_, Seq<char>>(
                    (l.title@, views(l.post_names@)),
                ),
                Err(e) => spec_list_index(data@) == Err::<(Seq<char>, Seq<Seq<char>>), _>(e.0@),
            },
            r matches Ok(l) ==> {
                &&& spec_parse_header(data@) is Ok
                &&& spec_parse_header(data@)->Ok_0.0.contains_key("title"@)
                &&& l.title@ == spec_parse_header(data@)->Ok_0.0["title"@]
                &&& views(l.post_names@) == lines(spec_parse_header(data@)->Ok_0.1)
            },
    {
        let doc = parse_header(data)?;
        let title = match doc.header.get("title") {
            Some(t) => t.clone(),
            None => return Err(ParseError::new("Missing title in list")),
        };
        let post_names = split_lines(doc.body.as_str());
        Ok(ListIndex { name: String::from_str(name), title, post_names })
    }
}

/// Every line of the body of a list file names a post, blank lines included:
/// the post names are the lines that follow the closing dashes, in order,
/// each without the carriage return it may end with.
pub proof fn law_list_names_are_body_lines(data: Seq<char>)
    requires
        spec_parse_header(data) is Ok,
        spec_parse_header(data)->Ok_0.0.contains_key("title"@),
    ensures
        spec_list_index(data) is Ok,
        spec_list_index(data)->Ok_0.0 == spec_parse_header(data)->Ok_0.0["title"@],
        spec_list_index(data)->Ok_0.1 == lines(spec_parse_header(data)->Ok_0.1),
        ({
            let t = lines(data).drop_first();
            let c = first_index(t, dashes());
            spec_list_index(data)->Ok_0.1 == t.skip(c + 1).map_values(|l: Seq<char>| strip_cr(l))
        }),
{
    law_body_lines(data);
}

/// A list read from a written file has as title the value of the last `title`
/// line of its header and as post names exactly its body lines, blank lines
/// included.
pub proof fn law_list_from_written_file(pairs: Pairs, body: Seq<Seq<char>>, it: int)
    requires
        forall|i: int| 0 <= i < pairs.len() ==> is_header_key(#[trigger] pairs[i].0),
        forall|i: int| 0 <= i < pairs.len() ==> is_line_text(#[trigger] pairs[i].1),
        forall|i: int| 0 <= i < body.len() ==> is_line_text(#[trigger] body[i]),
        0 <= it < pairs.len() && pairs[it].0 == "title"@,
        forall|j: int| it < j < pairs.len() ==> (#[trigger] pairs[j]).0 != "title"@,
    ensures
        spec_list_index(document_text(pairs, body)) == Ok::<_, Seq<char>>((pairs[it].1, body)),
{
    law_parse_written_document(pairs, body);
    lemma_map_of_last(pairs, it);
    assert forall|i: int| 0 <= i < body.len() implies !(#[trigger] body[i]).contains('\n') && strip_cr(
        body[i],
    ) == body[i] by {
        assert(is_line_text(body[i]));
    }
    lemma_lines_of_body(body, Seq::empty());
    assert(body_of(body) + Seq::<char>::empty() =~= body_of(body));
    assert(lines(Seq::<char>::empty()) =~= Seq::<Seq<char>>::empty());
    assert(body.map_values(|l: Seq<char>| strip_cr(l)) + Seq::<Seq<char>>::empty() =~= body);
}

/// The posts that could be loaded, in their order.
pub open spec fn loaded_posts(s: Seq<Option<Post>>) -> Seq<Post>
    decreases s.len(),
{
    if s.len() == 0 {
        Seq::empty()
    } else {
        match s.last() {
            Some(p) => loaded_posts(s.drop_last()).push(p),
            None => loaded_posts(s.drop_last()),
        }
    }
}

/// The loaded posts are at most as many as the entries, and each of them is
/// the post of one entry.
pub proof fn lemma_loaded_posts(s: Seq<Option<Post>>)
    ensures
        loaded_posts(s).len() <= s.len(),
        forall|k: int|
            0 <= k < loaded_posts(s).len() ==> exists|j: int|
                0 <= j < s.len() && s[j] == Some(#[trigger] loaded_posts(s)[k]),
    decreases s.len(),
{
    if s.len() > 0 {
        let init = s.drop_last();
        lemma_loaded_posts(init);
        assert forall|k: int|
            0 <= k < loaded_posts(s).len() implies exists|j: int|
                0 <= j < s.len() && s[j] == Some(#[trigger] loaded_posts(s)[k]) by {
            if k < loaded_posts(init).len() {
                assert(loaded_posts(s)[k] == loaded_posts(init)[k]);
                let j = choose|j: int| 0 <= j < init.len() && init[j] == Some(loaded_posts(init)[k]);
                assert(s[j] == init[j]);
            } else {
                assert(s[s.len() - 1] == Some(loaded_posts(s)[k]));
            }
        }
    }
}

/// Keeping the loaded posts of two runs of entries one after the other keeps
/// those of the first run, then those of the second.
pub proof fn law_loaded_posts_concat(a: Seq<Option<Post>>, b: Seq<Option<Post>>)
    ensures
        loaded_posts(a + b) == loaded_posts(a) + loaded_posts(b),
    decreases b.len(),
{
    if b.len() == 0 {
        assert(a + b =~= a);
        assert(loaded_posts(a) + loaded_posts(b) =~= loaded_posts(a));
    } else {
        assert((a + b).drop_last() =~= a + b.drop_last());
        assert((a + b).last() == b.last());
        law_loaded_posts_concat(a, b.drop_last());
        assert(loaded_posts(a + b) =~= loaded_posts(a) + loaded_posts(b));
    }
}

/// A loaded post is kept and an entry that could not be loaded gives nothing.
pub proof fn law_loaded_posts_single(p: Post)
    ensures
        loaded_posts(seq![Some(p)]) == seq![p],
        loaded_posts(seq![None::<Post>]) == Seq::<Post>::empty(),
{
    let e = Seq::<Option<Post>>::empty();
    assert(loaded_posts(e) == Seq::<Post>::empty());
    assert(seq![Some(p)].drop_last() =~= e);
    assert(seq![None::<Post>].drop_last() =~= e);
    assert(seq![Some(p)].last() == Some(p));
    assert(seq![None::<Post>].last() == None::<Post>);
    assert(loaded_posts(seq![Some(p)]) == loaded_posts(e).push(p));
    assert(Seq::<Post>::empty().push(p) =~= seq![p]);
}

/// When every post could be loaded, every one is kept, in order.
pub proof fn law_all_loaded_posts_kept(s: Seq<Option<Post>>)
    requires
        forall|i: int| 0 <= i < s.len() ==> (#[trigger] s[i]) is Some,
    ensures
        loaded_posts(s).len() == s.len(),
        forall|i: int| 0 <= i < s.len() ==> loaded_posts(s)[i] == (#[trigger] s[i])->Some_0,
    decreases s.len(),
{
    if s.len() > 0 {
        let t = s.drop_last();
        assert forall|i: int| 0 <= i < t.len() implies (#[trigger] t[i]) is Some by {
            assert(t[i] == s[i]);
        }
        law_all_loaded_posts_kept(t);
        assert(s[s.len() - 1] is Some);
        assert forall|i: int| 0 <= i < s.len() implies loaded_posts(s)[i] == (#[trigger] s[i])->Some_0 by {
            if i < s.len() - 1 {
                assert(t[i] == s[i]);
            }
        }
    }
}

/// The kept posts are the entries that hold a post, in their order: the
/// loaded entries of `s`, unwrapped.
pub proof fn law_loaded_posts_are_the_loaded_entries(s: Seq<Option<Post>>)
    ensures
        loaded_posts(s) == s.filter(|o: Option<Post>| o is Some).map_values(|o: Option<Post>| o->Some_0),
        loaded_posts(s).len() == s.filter(|o: Option<Post>| o is Some).len(),
    decreases s.len(),
{
    reveal(Seq::filter);
    let f = s.filter(|o: Option<Post>| o is Some);
    if s.len() > 0 {
        law_loaded_posts_are_the_loaded_entries(s.drop_last());
        let g = s.drop_last().filter(|o: Option<Post>| o is Some);
        assert(f == (if s.last() is Some { g.push(s.last()) } else { g }));
        if s.last() is Some {
            assert(f.map_values(|o: Option<Post>| o->Some_0) =~= g.map_values(|o: Option<Post>| o->Some_0).push(
                s.last()->Some_0,
            ));
        }
    } else {
        assert(f.map_values(|o: Option<Post>| o->Some_0) =~= Seq::<Post>::empty());
    }
}

/// A list of posts.
#[derive(Clone, Debug)]
pub struct List {
    pub name: String,
    pub title: String,
    pub posts: Vec<Post>,
}

impl List {
    /// The list of an index, with the posts that could be loaded for its
    /// names; a post that could not be loaded is left out.
    ///
    /// `loaded` has one entry per post name of the index, in their order:
    /// the post of that name, or `None` when it could not be loaded.
    pub fn from_index(index: ListIndex, loaded: Vec<Option<Post>>) -> (l: List)
        requires
            loaded@.len() == index.post_names@.len(),
            forall|i: int|
                0 <= i < loaded@.len() ==> (#[trigger] loaded@[i] matches Some(p) ==> p.name@
                    == index.post_names@[i]@),
        ensures
            l.name == index.name,
            l.title == index.title,
            l.posts@ == loaded_posts(loaded@),
            l.posts@.len() <= index.post_names@.len(),
            (forall|i: int| 0 <= i < loaded@.len() ==> (#[trigger] loaded@[i]) is Some) ==> {
                &&& l.posts@.len() == loaded@.len()
                &&& forall|i: int| 0 <= i < loaded@.len() ==> l.posts@[i] == (#[trigger] loaded@[i])->Some_0
            },
            forall|k: int|
                0 <= k < l.posts@.len() ==> views(index.post_names@).contains(
                    (#[trigger] l.posts@[k]).name@,
                ),
    {
        let mut posts: Vec<Post> = Vec::new();
        let mut rest = loaded;
        let ghost all = rest@;
        let n = rest.len();
        let mut i: usize = 0;
        assert(all.take(0) =~= Seq::<Option<Post>>::empty());
        assert(all.skip(0) =~= all);
        while i < n
            invariant
                n == all.len(),
                i <= n,
                posts@ == loaded_posts(all.take(i as int)),
                rest@ == all.skip(i as int),
                all.len() == index.post_names@.len(),
                forall|i: int|
                    0 <= i < all.len() ==> (#[trigger] all[i] matches Some(p) ==> p.name@
                        == index.post_names@[i]@),
            decreases n - i,
        {
            let item = rest.remove(0);
            proof {
                assert(item == all[i as int]);
                assert(all.take(i + 1).drop_last() =~= all.take(i as int));
                assert(rest@ =~= all.skip(i + 1));
            }
            if let Some(p) = item {
                posts.push(p);
            }
            i = i + 1;
        }
        assert(all.take(n as int) =~= all);
        proof {
            lemma_loaded_posts(all);
            if forall|i: int| 0 <= i < all.len() ==> (#[trigger] all[i]) is Some {
                law_all_loaded_posts_kept(all);
            }
        }
        let l = List { name: index.name, title: index.title, posts };
        assert forall|k: int| 0 <= k < l.posts@.len() implies views(index.post_names@).contains(
            (#[trigger] l.posts@[k]).name@,
        ) by {
            assert(l.posts@[k] == loaded_posts(all)[k]);
            let j = choose|j: int| 0 <= j < all.len() && all[j] == Some(loaded_posts(all)[k]);
            assert(all[j] matches Some(p) ==> p.name@ == index.post_names@[j]@);
            assert(views(index.post_names@)[j] == l.posts@[k].name@);
        }
        l
    }

    /// The path of the file of a list: `lists/<name>.txt` under the
    /// documents path.
    pub fn file_path(doc_path: &str, name: &str) -> (p: String)
        ensures
            p@ == doc_path@ + "/lists/"@ + name@ + ".txt"@,
    {
        let mut p = String::from_str(doc_path);
        p.append("/lists/");
        p.append(name);
        p.append(".txt");
        p
    }
}

} // verus!
