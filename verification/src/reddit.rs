//! The content-source client's configuration and its item type. The HTTP
//! fetch itself lives outside the crate; the logic here only ever sees the
//! plain items it produced.

use vstd::prelude::*;

verus! {

/// One ranked item of a topic: a title and a permalink.
#[derive(Debug)]
pub struct Post {
    pub title: String,
    pub link: String,
}

impl Post {
    /// The two-line block a digest prints for the item.
    pub open spec fn spec_line(self) -> Seq<char> {
        self.title@ + "\n"@ + self.link@ + "\n"@
    }

    /// A field-by-field copy.
    pub fn duplicate(&self) -> (r: Post)
        ensures
            r == *self,
    {
        Post { title: self.title.clone(), link: self.link.clone() }
    }
}

impl PartialEq for Post {
    fn eq(&self, other: &Post) -> (r: bool) {
        self.title.eq(&other.title) && self.link.eq(&other.link)
    }
}

impl vstd::std_specs::cmp::PartialEqSpecImpl for Post {
    open spec fn obeys_eq_spec() -> bool {
        true
    }

    open spec fn eq_spec(&self, other: &Post) -> bool {
        self.title@ == other.title@ && self.link@ == other.link@
    }
}

/// Where the content source is reached. Fetching runs outside the crate;
/// this only carries the configuration.
pub struct RedditClient {
    pub base_url: String,
}

impl RedditClient {
    /// A client for the public site.
    pub fn new() -> (r: RedditClient)
        ensures
            r.base_url@ == "https://reddit.com"@,
    {
        RedditClient::new_with("https://reddit.com")
    }

    /// A client for any base address, as tests and mirrors need.
    pub fn new_with(base_url: &str) -> (r: RedditClient)
        ensures
            r.base_url@ == base_url@,
    {
        RedditClient { base_url: base_url.to_owned() }
    }
}

} // verus!
