//! The data that the post and list templates are rendered from.
use vstd::prelude::*;

use crate::list::List;
use crate::post::Post;

verus! {

/// What `mdbook::utils::render_markdown` gives for a markdown text.
pub uninterp spec fn markdown_html(text: Seq<char>, smart_punctuation: bool) -> Seq<char>;

/// Calls `mdbook::utils::render_markdown`, which renders markdown to HTML
/// with tables, footnotes, strikethrough, task lists and heading attributes,
/// and smart punctuation when asked.
///
/// The contract claims only that the result is the value `markdown_html`
/// names for the arguments; the HTML itself is not stated.
#[verifier::external_body]
fn render_markdown(text: &str, smart_punctuation: bool) -> (html: String)
    ensures
        html@ == markdown_html(text@, smart_punctuation),
{
    mdbook::utils::render_markdown(text, smart_punctuation)
}

/// The HTML of the body of a post, with smart punctuation.
pub fn markdown_body(post: &Post) -> (html: String)
    ensures
        html@ == markdown_html(post.body@, true),
{
    render_markdown(post.body.as_str(), true)
}

/// The name of this software, as the pages show it.
pub open spec fn software_name() -> Seq<char> {
    "rusty-blog"@
}

/// The version of this software, as the pages show it.
pub open spec fn software_version() -> Seq<char> {
    "0.1.0"@
}

/// Data about the blog that every page shows.
#[derive(Clone, Debug)]
pub struct BlogData {
    pub ctxt: String,
    pub software_version: String,
    pub software_name: String,
}

impl BlogData {
    /// The blog data for the given deployment context.
    pub fn new(ctxt: &str) -> (b: BlogData)
        ensures
            b.ctxt@ == ctxt@,
            b.software_version@ == software_version(),
            b.software_name@ == software_name(),
    {
        BlogData {
            ctxt: String::from_str(ctxt),
            software_version: String::from_str("0.1.0"),
            software_name: String::from_str("rusty-blog"),
        }
    }
}

/// The data a post page is rendered from.
#[derive(Clone, Debug)]
pub struct PostData {
    pub blog: BlogData,
    pub name: String,
    pub title: String,
    pub body: String,
    pub date: String,
    pub author: String,
}

/// `d` shows the post `p` with the HTML body `body` in the context `ctxt`.
pub open spec fn shows_post(d: PostData, p: Post, ctxt: Seq<char>, body: Seq<char>) -> bool {
    &&& d.blog.ctxt@ == ctxt
    &&& d.blog.software_version@ == software_version()
    &&& d.blog.software_name@ == software_name()
    &&& d.name@ == p.name@
    &&& d.title@ == p.title@
    &&& d.author@ == p.author@
    &&& d.date@ == p.date@
    &&& d.body@ == body
}

impl PostData {
    /// The data of a post page, with the HTML of the post's body.
    pub fn from_post(post: &Post, ctxt: &str, body: String) -> (d: PostData)
        ensures
            shows_post(d, *post, ctxt@, body@),
    {
        PostData {
            blog: BlogData::new(ctxt),
            name: post.name.clone(),
            title: post.title.clone(),
            author: post.author.clone(),
            body,
            date: post.date.clone(),
        }
    }
}

/// The data a list page is rendered from.
#[derive(Clone, Debug)]
pub struct ListData {
    pub blog: BlogData,
    pub name: String,
    pub title: String,
    pub posts: Vec<PostData>,
}

impl ListData {
    /// The data of a list page, with the HTML body of each of its posts.
    pub fn from_list(list: &List, ctxt: &str, bodies: Vec<String>) -> (d: ListData)
        requires
            bodies@.len() == list.posts@.len(),
        ensures
            d.blog.ctxt@ == ctxt@,
            d.blog.software_version@ == software_version(),
            d.blog.software_name@ == software_name(),
            d.name@ == list.name@,
            d.title@ == list.title@,
            d.posts@.len() == list.posts@.len(),
            forall|i: int|
                0 <= i < d.posts@.len() ==> shows_post(
                    #[trigger] d.posts@[i],
                    list.posts@[i],
                    ctxt@,
                    bodies@[i]@,
                ),
    {
        let mut posts: Vec<PostData> = Vec::new();
        let n = list.posts.len();
        let mut i: usize = 0;
        while i < n
            invariant
                n == list.posts@.len(),
                n == bodies@.len(),
                i <= n,
                posts@.len() == i,
                forall|j: int|
                    0 <= j < i ==> shows_post(
                        #[trigger] posts@[j],
                        list.posts@[j],
                        ctxt@,
                        bodies@[j]@,
                    ),
            decreases n - i,
        {
            let body = bodies[i].clone();
            posts.push(PostData::from_post(&list.posts[i], ctxt, body));
            i = i + 1;
        }
        ListData {
            blog: BlogData::new(ctxt),
            name: list.name.clone(),
            title: list.title.clone(),
            posts,
        }
    }
}

} // verus!
