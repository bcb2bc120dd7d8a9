use rusty_blog::config::{default_caching, default_context, default_doc_path, default_hostname, default_port, Config};
use rusty_blog::list::List;
use rusty_blog::markdowncache::{CacheAction, MarkdownCache};
use rusty_blog::post::Post;
use rusty_blog::render::{markdown_body, BlogData, ListData, PostData};
use rusty_blog::servicemappings::static_file_path;
use rusty_blog::template::template_path;

fn post(name: &str, body: &str) -> Post {
    Post {
        name: name.to_string(),
        title: "T".to_string(),
        body: body.to_string(),
        author: "A".to_string(),
        date: "D".to_string(),
    }
}

#[test]
fn config_defaults() {
    let c = Config::default();
    assert_eq!(c.hostname, "127.0.0.1");
    assert_eq!(c.port, 8080);
    assert_eq!(c.doc_path, "./");
    assert_eq!(c.context, "");
    assert!(c.caching);
    assert_eq!(default_hostname(), c.hostname);
    assert_eq!(default_port(), c.port);
    assert_eq!(default_doc_path(), c.doc_path);
    assert_eq!(default_context(), c.context);
    assert_eq!(default_caching(), c.caching);
}

#[test]
fn cache_paths() {
    let cache = MarkdownCache::new("/tmp/work/md-cache/", "/tmp/posts/");
    assert_eq!(cache.gen_path("2019-11-26-simple-post"), "/tmp/work/md-cache/2019-11-26-simple-post.html");
    assert_eq!(cache.gen_md_path("2019-11-26-simple-post"), "/tmp/posts/2019-11-26-simple-post.md");
    assert_eq!(cache.gen_md_path("a.b"), "/tmp/posts/a.md");
    let cache = MarkdownCache::for_documents("./blog");
    assert_eq!(cache.gen_md_path("p"), "./blog/posts/p.md");
    assert_eq!(cache.gen_path("p"), "./blog/work/md-cache/p.html");
}

#[test]
fn cache_decision() {
    let cache = MarkdownCache::new("/c", "/m");
    match cache.get_or_insert("x", Some((10, 5))) {
        CacheAction::ReadCached(p) => assert_eq!(p, "/c/x.html"),
        CacheAction::Render(_) => panic!("cache is fresh"),
    }
    match cache.get_or_insert("x", Some((5, 5))) {
        CacheAction::ReadCached(p) => assert_eq!(p, "/c/x.html"),
        CacheAction::Render(_) => panic!("cache is as new as the source"),
    }
    match cache.get_or_insert("x", Some((4, 5))) {
        CacheAction::Render(p) => assert_eq!(p, "/c/x.html"),
        CacheAction::ReadCached(_) => panic!("cache is older than the source"),
    }
    match cache.get_or_insert("x", None) {
        CacheAction::Render(p) => assert_eq!(p, "/c/x.html"),
        CacheAction::ReadCached(_) => panic!("no cache file"),
    }
}

#[test]
fn markdown_rendering() {
    assert_eq!(markdown_body(&post("p", "*a*")), "<p><em>a</em></p>\n");
    assert_eq!(markdown_body(&post("p", "\"a\"")), "<p>\u{201c}a\u{201d}</p>\n");
    assert_eq!(markdown_body(&post("p", "x")), mdbook::utils::render_markdown("x", true));
}

#[test]
fn blog_data() {
    let b = BlogData::new("https://blog");
    assert_eq!(b.ctxt, "https://blog");
    assert_eq!(b.software_name, "rusty-blog");
    assert_eq!(b.software_version, "0.1.0");
}

#[test]
fn post_and_list_data() {
    let p = post("p", "x");
    let d = PostData::from_post(&p, "ctx", "<p>x</p>".to_string());
    assert_eq!(d.blog.ctxt, "ctx");
    assert_eq!((d.name.as_str(), d.title.as_str(), d.author.as_str(), d.date.as_str()), ("p", "T", "A", "D"));
    assert_eq!(d.body, "<p>x</p>");
    let list = List { name: "main".to_string(), title: "M".to_string(), posts: vec![post("a", "1"), post("b", "2")] };
    let l = ListData::from_list(&list, "ctx", vec!["one".to_string(), "two".to_string()]);
    assert_eq!(l.name, "main");
    assert_eq!(l.title, "M");
    assert_eq!(l.posts.len(), 2);
    assert_eq!(l.posts[0].name, "a");
    assert_eq!(l.posts[1].body, "two");
    assert_eq!(l.posts[1].blog.ctxt, "ctx");
}

#[test]
fn file_paths() {
    assert_eq!(template_path("./", "post"), ".//templates/post.html");
    assert_eq!(static_file_path("/blog", "images/a.jpeg"), "/blog/static/images/a.jpeg");
}
