//! The cache of the HTML that the markdown of the posts renders to.
use vstd::prelude::*;

verus! {

/// What `std::path::Path::join` gives for a base path and a name, as text,
/// under the path rules of the platform the crate is built for.
pub uninterp spec fn path_join(base: Seq<char>, name: Seq<char>) -> Seq<char>;

/// What `std::path::Path::with_extension` gives for a path and an extension,
/// as text, under the path rules of the platform the crate is built for.
pub uninterp spec fn path_with_extension(path: Seq<char>, ext: Seq<char>) -> Seq<char>;

/// Calls `std::path::Path::join` on `base` and `name` and gives the path back
/// as text.
///
/// The contract claims only that the result is the value `path_join` names
/// for the two arguments; what that path is depends on the platform's path
/// rules and is not stated.
#[verifier::external_body]
fn join_path(base: &str, name: &str) -> (r: String)
    ensures
        r@ == path_join(base@, name@),
{
    std::path::Path::new(base).join(name).to_string_lossy().into_owned()
}

/// Calls `std::path::Path::with_extension` on `path` and gives the path back
/// as text.
///
/// `with_extension` panics on an extension that holds a path separator, so
/// such an extension is left out.  The contract claims only that the result
/// is the value `path_with_extension` names for the two arguments.
#[verifier::external_body]
fn set_extension(path: &str, ext: &str) -> (r: String)
    requires
        !ext@.contains('/'),
        !ext@.contains('\\'),
    ensures
        r@ == path_with_extension(path@, ext@),
{
    std::path::Path::new(path).with_extension(ext).to_string_lossy().into_owned()
}

/// The path of a cached page: the name joined to the work directory, with the
/// extension `html`.
pub open spec fn cache_file(work_dir: Seq<char>, name: Seq<char>) -> Seq<char> {
    path_with_extension(path_join(work_dir, name), "html"@)
}

/// The path of the markdown file of a post: the name joined to the markdown
/// directory, with the extension `md`.
pub open spec fn markdown_file(md_dir: Seq<char>, name: Seq<char>) -> Seq<char> {
    path_with_extension(path_join(md_dir, name), "md"@)
}

/// What to do to get the HTML of a post.
pub enum CacheAction {
    /// The cached page at this path is up to date: read it.
    ReadCached(String),
    /// Render the markdown and store the page at this path.
    Render(String),
}

/// The cached page is used when it exists and is not older than the
/// markdown file; `times` holds, when the cached page exists, its
/// modification time and that of the markdown file.
pub open spec fn cache_is_fresh(times: Option<(i128, i128)>) -> bool {
    match times {
        Some((cached, source)) => cached >= source,
        None => false,
    }
}

/// A cached page is read exactly when it exists and its modification time is
/// not before that of the markdown file; a missing page, or one older than
/// the markdown file, is rendered again.
pub proof fn law_cache_read_unless_missing_or_older(cached: i128, source: i128)
    ensures
        cache_is_fresh(Some((cached, source))) <==> cached >= source,
        cache_is_fresh(Some((cached, source))) <==> !(cached < source),
        !cache_is_fresh(None),
{
}

/// Utility to cache the HTML of the markdown files.
pub struct MarkdownCache {
    /// Path to the directory where the converted HTML code lies.
    work_dir: String,
    /// Path to the markdown directory.
    md_dir: String,
}

impl MarkdownCache {
    /// The directory of the cached pages.
    pub closed spec fn work_dir(&self) -> Seq<char> {
        self.work_dir@
    }

    /// The directory of the markdown files.
    pub closed spec fn md_dir(&self) -> Seq<char> {
        self.md_dir@
    }

    /// A cache of the pages under `path` for the markdown files under `md_dir`.
    pub fn new(path: &str, md_dir: &str) -> (c: MarkdownCache)
        ensures
            c.work_dir() == path@,
            c.md_dir() == md_dir@,
    {
        MarkdownCache { work_dir: String::from_str(path), md_dir: String::from_str(md_dir) }
    }

    /// The cache of a blog: pages under `work/md-cache/` and markdown files
    /// under `posts/`, both in the documents path.
    pub fn for_documents(doc_path: &str) -> (c: MarkdownCache)
        ensures
            c.work_dir() == doc_path@ + "/work/md-cache/"@,
            c.md_dir() == doc_path@ + "/posts/"@,
    {
        let mut work_dir = String::from_str(doc_path);
        work_dir.append("/work/md-cache/");
        let mut md_dir = String::from_str(doc_path);
        md_dir.append("/posts/");
        MarkdownCache { work_dir, md_dir }
    }

    /// The directory of the cached pages.
    pub fn cache_dir(&self) -> (d: &str)
        ensures
            d@ == self.work_dir(),
    {
        self.work_dir.as_str()
    }

    /// Generate the path to the cached html file.
    pub fn gen_path(&self, name: &str) -> (p: String)
        ensures
            p@ == cache_file(self.work_dir(), name@),
    {
        let joined = join_path(self.work_dir.as_str(), name);
        proof {
            reveal_strlit("html");
        }
        set_extension(joined.as_str(), "html")
    }

    /// Generate the path to the markdown file.
    pub fn gen_md_path(&self, name: &str) -> (p: String)
        ensures
            p@ == markdown_file(self.md_dir(), name@),
    {
        let joined = join_path(self.md_dir.as_str(), name);
        proof {
            reveal_strlit("md");
        }
        set_extension(joined.as_str(), "md")
    }

    /// Get a cached content if it is found and not outdated, or generate it.
    ///
    /// If the cached file does not exist, or if it is older than the markdown
    /// file, the page is to be rendered and stored.  If there is a cached file
    /// that is not older, it is to be read.  `times` holds, when the cached page
    /// exists, its modification time and that of the markdown file.
    pub fn get_or_insert(&self, name: &str, times: Option<(i128, i128)>) -> (a: CacheAction)
        ensures
            match a {
                CacheAction::ReadCached(p) => cache_is_fresh(times) && p@ == cache_file(
                    self.work_dir(),
                    name@,
                ),
                CacheAction::Render(p) => !cache_is_fresh(times) && p@ == cache_file(
                    self.work_dir(),
                    name@,
                ),
            },
            times matches Some((cached, source)) ==> (a is ReadCached <==> cached >= source),
            times is None ==> a is Render,
    {
        let file = self.gen_path(name);
        match times {
            Some((cached, source)) => {
                if cached >= source {
                    CacheAction::ReadCached(file)
                } else {
                    CacheAction::Render(file)
                }
            },
            None => CacheAction::Render(file),
        }
    }
}

} // verus!
