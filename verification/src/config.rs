//! Settings of the blog, with the default of each of them.
use vstd::prelude::*;

verus! {

/// The default hostname is on local loopback.
pub fn default_hostname() -> (s: String)
    ensures
        s@ == "127.0.0.1"@,
{
    String::from_str("127.0.0.1")
}

/// The default port is 8080.
pub fn default_port() -> (p: u32)
    ensures
        p == 8080,
{
    8080
}

/// The default doc path is the current working directory.
pub fn default_doc_path() -> (s: String)
    ensures
        s@ == "./"@,
{
    String::from_str("./")
}

/// The default deployment context is the empty string.
pub fn default_context() -> (s: String)
    ensures
        s@ == Seq::<char>::empty(),
{
    String::new()
}

/// By default, caching is enabled.
pub fn default_caching() -> (b: bool)
    ensures
        b,
{
    true
}

/// Contains the configuration for the application.
#[derive(Clone, Debug)]
pub struct Config {
    /// Hostname which should be bound.
    ///
    /// Use 127.0.0.1 to bind it to the localhost only.  Then the blog will
    /// not be accessible from the outside.  Use 0.0.0.0 to make the page
    /// accessible from the network.
    pub hostname: String,
    /// The server will be bound to this port.
    pub port: u32,
    /// Path to the documents.
    pub doc_path: String,
    /// The https path to the root of the blog, used to build links.
    pub context: String,
    /// If enabled, the theme is loaded once on startup; if not, on every
    /// page request, which helps while editing the theme.
    pub caching: bool,
}

impl Config {
    /// True when every field holds the value of its default function.
    pub open spec fn is_default(&self) -> bool {
        &&& self.hostname@ == "127.0.0.1"@
        &&& self.port == 8080
        &&& self.doc_path@ == "./"@
        &&& self.context@ == Seq::<char>::empty()
        &&& self.caching
    }
}

impl Default for Config {
    fn default() -> (c: Config)
        ensures
            c.is_default(),
    {
        Config {
            hostname: default_hostname(),
            port: default_port(),
            doc_path: default_doc_path(),
            context: default_context(),
            caching: default_caching(),
        }
    }
}

} // verus!
