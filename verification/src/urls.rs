//! Addresses of files and blobs on the backend node.
use vstd::prelude::*;

use crate::text::{append_text, chars_of, concat_text, text_starts_with};

verus! {

/// Where a file's bytes are fetched from: an absolute link as given, a path below the base,
/// or, when the record names no link, the file endpoint of the base.
pub open spec fn download_url_spec(base: Seq<char>, link: Option<Seq<char>>, file_id: Seq<char>) -> Seq<char> {
    match link {
        Some(url) => if "http://"@.is_prefix_of(url) || "https://"@.is_prefix_of(url) {
            url
        } else if "/"@.is_prefix_of(url) {
            base + url
        } else {
            base + "/"@ + url
        },
        None => base + "/files/"@ + file_id,
    }
}

/// Resolves the link that a file record carries against the base address of the node.
pub fn resolve_download_url(base_url: &str, download_url: Option<&str>, file_id: &str) -> (r: String)
    ensures
        r@ == download_url_spec(
            base_url@,
            match download_url {
                Some(u) => Some(u@),
                None => None,
            },
            file_id@,
        ),
{
    match download_url {
        Some(url) => {
            if text_starts_with(url, "http://") || text_starts_with(url, "https://") {
                url.to_owned()
            } else if text_starts_with(url, "/") {
                concat_text(base_url, url)
            } else {
                let mut r = concat_text(base_url, "/");
                append_text(&mut r, url);
                r
            }
        },
        None => resolve_file_url(base_url, file_id),
    }
}

/// The address of a content blob.
pub fn resolve_blob_url(base_url: &str, blob_id: &str) -> (r: String)
    ensures
        r@ == base_url@ + "/blobs/"@ + blob_id@,
{
    let mut r = concat_text(base_url, "/blobs/");
    append_text(&mut r, blob_id);
    r
}

/// The address of a file.
pub fn resolve_file_url(base_url: &str, file_id: &str) -> (r: String)
    ensures
        r@ == base_url@ + "/files/"@ + file_id@,
{
    let mut r = concat_text(base_url, "/files/");
    append_text(&mut r, file_id);
    r
}

/// A link that names its scheme (`http://` or `https://`) is used as given, whatever the base
/// address; any other link lands under the base address and ends with the link; a file without
/// a link is fetched by id under the base address.
pub proof fn lemma_download_links(base: Seq<char>, link: Seq<char>, file_id: Seq<char>)
    ensures
        "http://"@.is_prefix_of(link) || "https://"@.is_prefix_of(link) ==> download_url_spec(base, Some(link), file_id) == link,
        !("http://"@.is_prefix_of(link) || "https://"@.is_prefix_of(link)) ==> {
            let r = download_url_spec(base, Some(link), file_id);
            &&& base.is_prefix_of(r)
            &&& link.is_suffix_of(r)
            &&& r.len() >= base.len() + link.len()
        },
        base.is_prefix_of(download_url_spec(base, None, file_id)),
        file_id.is_suffix_of(download_url_spec(base, None, file_id)),
{
    reveal_strlit("/");
    let r = download_url_spec(base, Some(link), file_id);
    if !("http://"@.is_prefix_of(link) || "https://"@.is_prefix_of(link)) {
        if "/"@.is_prefix_of(link) {
            assert(r =~= base + link);
            assert(r.subrange(0, base.len() as int) =~= base);
            assert(r.subrange(r.len() - link.len(), r.len() as int) =~= link);
        } else {
            assert(r =~= base + "/"@ + link);
            assert(r.subrange(0, base.len() as int) =~= base);
            assert(r.subrange(r.len() - link.len(), r.len() as int) =~= link);
        }
    }
    let n = download_url_spec(base, None, file_id);
    assert(n.subrange(0, base.len() as int) =~= base);
    assert(n.subrange(n.len() - file_id.len(), n.len() as int) =~= file_id);
}

} // verus!
