//! Importing threads from other boards through the backend node.
use vstd::prelude::*;

verus! {

/// What an import asks the backend for: the thread's address, the board it comes from when
/// that is named, and the topics to announce it on.
pub struct ImportRequest {
    pub url: String,
    pub platform: Option<String>,
    pub topics: Vec<String>,
}

/// The request that imports a Reddit thread.
pub fn reddit_import_request(url: &str, topics: Vec<String>) -> (r: ImportRequest)
    ensures
        r.url@ == url@,
        r.platform matches Some(p) && p@ == "reddit"@,
        r.topics@ == topics@,
{
    ImportRequest { url: url.to_owned(), platform: Some("reddit".to_owned()), topics }
}

/// The request that imports a 4chan thread: the board is found from the address.
pub fn fourchan_import_request(url: &str, topics: Vec<String>) -> (r: ImportRequest)
    ensures
        r.url@ == url@,
        r.platform is None,
        r.topics@ == topics@,
{
    ImportRequest { url: url.to_owned(), platform: None, topics }
}

} // verus!
