//! Talking to the backend node: the base address, the bearer credential, and the live event
//! stream (its line format and the pause before reconnecting).
use vstd::prelude::*;

use crate::text::{append_text, chars_of, string_of, text_equals, text_is_empty, text_starts_with, trim_text, trimmed};

verus! {

// --- the base address ----------------------------------------------------------------------

/// The address with `http://` in front when it names no scheme.
pub open spec fn with_scheme(base: Seq<char>) -> Seq<char> {
    if "http://"@.is_prefix_of(base) || "https://"@.is_prefix_of(base) {
        base
    } else {
        "http://"@ + base
    }
}

/// The address without trailing slashes.
pub open spec fn without_trailing_slashes(s: Seq<char>) -> Seq<char>
    decreases s.len(),
{
    if s.len() > 0 && s.last() == '/' {
        without_trailing_slashes(s.drop_last())
    } else {
        s
    }
}

/// The base address as the client keeps it.
pub open spec fn sanitized(base: Seq<char>) -> Seq<char> {
    without_trailing_slashes(with_scheme(base))
}

/// Whether the `url` crate parses the text as an absolute URL.
pub uninterp spec fn url_accepted(text: Seq<char>) -> bool;

/// Asks the `url` crate (`Url::parse`, as reqwest re-exports it) whether the text parses as an
/// absolute URL. The contract names the answer and claims only that it depends on the text alone.
#[verifier::external_body]
fn url_parses(text: &str) -> (r: bool)
    ensures
        r == url_accepted(text@),
{
    reqwest::Url::parse(text).is_ok()
}

/// The text of the URL that the `url` crate makes of `path` resolved against the base address
/// `base`, or `None` when the base does not parse or the path cannot be resolved.
pub uninterp spec fn joined_url(base: Seq<char>, path: Seq<char>) -> Option<Seq<char>>;

/// Resolves `path` against `base` with the `url` crate (`Url::parse`, then `Url::join`, read back
/// with `as_str`). The contract names the result and claims only that it depends on the two
/// texts alone; how the crate resolves a path is left unsaid.
#[verifier::external_body]
fn url_join(base: &str, path: &str) -> (r: Option<String>)
    ensures
        match r {
            Some(u) => joined_url(base@, path@) == Some(u@),
            None => joined_url(base@, path@) is None,
        },
{
    match reqwest::Url::parse(base) {
        Ok(b) => match b.join(path) {
            Ok(u) => Some(u.as_str().to_owned()),
            Err(_) => None,
        },
        Err(_) => None,
    }
}

/// The text of the URL that the `url` crate makes by parsing `base` and replacing its path with
/// `path` (`Url::parse`, then `Url::set_path`), or `None` when the base does not parse.
pub uninterp spec fn url_with_path(base: Seq<char>, path: Seq<char>) -> Option<Seq<char>>;

/// Parses `base` with the `url` crate and sets its path to `path` (`Url::set_path`, read back
/// with `as_str`). The contract names the result and claims only that it depends on the two
/// texts alone; how the crate escapes the path is left unsaid.
#[verifier::external_body]
fn url_set_path(base: &str, path: &str) -> (r: Option<String>)
    ensures
        match r {
            Some(u) => url_with_path(base@, path@) == Some(u@),
            None => url_with_path(base@, path@) is None,
        },
{
    match reqwest::Url::parse(base) {
        Ok(mut u) => {
            u.set_path(path);
            Some(u.as_str().to_owned())
        },
        Err(_) => None,
    }
}

/// The path without leading slashes.
pub open spec fn without_leading_slashes(p: Seq<char>) -> Seq<char>
    decreases p.len(),
{
    if p.len() > 0 && p[0] == '/' {
        without_leading_slashes(p.skip(1))
    } else {
        p
    }
}

/// The address of an endpoint of the node for the desktop client: the base address with its
/// path replaced by `path`, leading slashes dropped; `None` when the base does not parse.
pub fn endpoint_url(base: &str, path: &str) -> (r: Option<String>)
    ensures
        match r {
            Some(u) => url_with_path(base@, without_leading_slashes(path@)) == Some(u@),
            None => url_with_path(base@, without_leading_slashes(path@)) is None,
        },
{
    let v = chars_of(path);
    let mut k: usize = 0;
    assert(v@.skip(0) =~= path@);
    while k < v.len() && v[k] == '/'
        invariant
            k <= v@.len(),
            v@ == path@,
            without_leading_slashes(path@) == without_leading_slashes(v@.skip(k as int)),
        decreases v@.len() - k,
    {
        assert(v@.skip(k as int).skip(1) =~= v@.skip(k + 1));
        k = k + 1;
    }
    let rest = string_of(v.split_at(k).1);
    assert(rest@ =~= v@.skip(k as int));
    url_set_path(base, rest.as_str())
}

/// The base address of the backend as configured: kept as it is when it parses as a URL,
/// refused otherwise.
pub fn backend_base(raw: &str) -> (r: Option<String>)
    ensures
        match r {
            Some(u) => url_accepted(raw@) && u@ == raw@,
            None => !url_accepted(raw@),
        },
{
    if url_parses(raw) {
        Some(raw.to_owned())
    } else {
        None
    }
}

/// The address of a request to the backend: the request's path resolved against the base
/// address, as the HTTP client will send it; `None` when it cannot be resolved.
pub fn request_url(base: &str, path: &str) -> (r: Option<String>)
    ensures
        match r {
            Some(u) => joined_url(base@, path@) == Some(u@),
            None => joined_url(base@, path@) is None,
        },
{
    url_join(base, path)
}

/// A base address that does not parse as a URL.
pub struct InvalidBaseUrl {
    pub url: String,
}

/// Completes and checks the base address of the backend: adds `http://` when no scheme is
/// given, drops trailing slashes, and refuses what does not parse as a URL.
pub fn sanitize_base_url(base: String) -> (r: Result<String, InvalidBaseUrl>)
    ensures
        match r {
            Ok(u) => u@ == sanitized(base@) && url_accepted(u@),
            Err(e) => e.url@ == sanitized(base@) && !url_accepted(e.url@),
        },
{
    let full = if text_starts_with(base.as_str(), "http://") || text_starts_with(base.as_str(), "https://") {
        base
    } else {
        let mut s = "http://".to_owned();
        append_text(&mut s, base.as_str());
        s
    };
    let v = chars_of(full.as_str());
    let mut n = v.len();
    assert(v@.subrange(0, n as int) =~= v@);
    while n > 0 && v[n - 1] == '/'
        invariant
            n <= v@.len(),
            v@ == full@,
            sanitized(base@) == without_trailing_slashes(v@.subrange(0, n as int)),
        decreases n,
    {
        assert(v@.subrange(0, n as int).drop_last() =~= v@.subrange(0, n - 1));
        n = n - 1;
    }
    let kept = string_of(v.as_slice().split_at(n).0);
    assert(kept@ =~= v@.subrange(0, n as int));
    if url_parses(kept.as_str()) {
        Ok(kept)
    } else {
        Err(InvalidBaseUrl { url: kept })
    }
}

// --- the bearer credential -------------------------------------------------------------------

/// The `Authorization` header value for a token: `Bearer` and the token without surrounding
/// white space, or nothing when the token is blank.
pub open spec fn bearer_value(token: Seq<char>) -> Option<Seq<char>> {
    if trimmed(token).len() == 0 {
        None
    } else {
        Some("Bearer "@ + trimmed(token))
    }
}

/// The `Authorization` header value for a token, if the token is not blank.
pub fn bearer_header(token: &str) -> (r: Option<String>)
    ensures
        match r {
            Some(h) => bearer_value(token@) == Some(h@),
            None => bearer_value(token@) is None,
        },
{
    let t = trim_text(token);
    if text_is_empty(t.as_str()) {
        None
    } else {
        let mut h = "Bearer ".to_owned();
        append_text(&mut h, t.as_str());
        Some(h)
    }
}

// --- the event stream ------------------------------------------------------------------------

/// The line without its trailing carriage returns and line feeds.
pub open spec fn strip_line_end(line: Seq<char>) -> Seq<char>
    decreases line.len(),
{
    if line.len() > 0 && (line.last() == '\r' || line.last() == '\n') {
        strip_line_end(line.drop_last())
    } else {
        line
    }
}

/// The data collected so far and the event data to hand on, after one line of the stream: an
/// empty line ends an event (when data was collected); a `data:` line adds its value (one
/// leading space dropped), joined to earlier values by a line feed; other lines change nothing.
pub open spec fn stream_step(data: Seq<char>, line: Seq<char>) -> (Seq<char>, Option<Seq<char>>) {
    let t = strip_line_end(line);
    if t.len() == 0 {
        if data.len() > 0 {
            (Seq::empty(), Some(data))
        } else {
            (data, None)
        }
    } else if "data:"@.is_prefix_of(t) {
        let rest = t.skip(5);
        let value = if " "@.is_prefix_of(rest) {
            rest.skip(1)
        } else {
            rest
        };
        (if data.len() > 0 {
            data + "\n"@ + value
        } else {
            value
        }, None)
    } else {
        (data, None)
    }
}

/// The state of one connection to the event stream: the data of the event under way.
pub struct EventStreamDecoder {
    pub data: String,
}

impl EventStreamDecoder {
    /// A decoder with no data collected.
    pub fn new() -> (d: Self)
        ensures
            d.data@.len() == 0,
    {
        EventStreamDecoder { data: String::new() }
    }

    /// Takes one line of the stream (its line ending may be included) and returns the data of
    /// the event that the line ends, if it ends one.
    pub fn feed_line(&mut self, line: &str) -> (ev: Option<String>)
        ensures
            (final(self).data@, match ev {
                Some(e) => Some(e@),
                None => None,
            }) == stream_step(old(self).data@, line@),
    {
        let v = chars_of(line);
        let mut n = v.len();
        assert(v@.subrange(0, n as int) =~= v@);
        while n > 0 && (v[n - 1] == '\r' || v[n - 1] == '\n')
            invariant
                n <= v@.len(),
                v@ == line@,
                strip_line_end(line@) == strip_line_end(v@.subrange(0, n as int)),
            decreases n,
        {
            assert(v@.subrange(0, n as int).drop_last() =~= v@.subrange(0, n - 1));
            n = n - 1;
        }
        let t = v.as_slice().split_at(n).0;
        assert(t@ =~= strip_line_end(line@));
        proof {
            reveal_strlit("data:");
            reveal_strlit(" ");
            reveal_strlit("\n");
        }
        if n == 0 {
            if !text_is_empty(self.data.as_str()) {
                let mut ev = String::new();
                std::mem::swap(&mut ev, &mut self.data);
                return Some(ev);
            }
            return None;
        }
        let is_data = n >= 5 && t[0] == 'd' && t[1] == 'a' && t[2] == 't' && t[3] == 'a' && t[4] == ':';
        proof {
            if t@.len() >= 5 {
                if is_data {
                    assert(t@.subrange(0, 5) =~= "data:"@);
                }
                if "data:"@.is_prefix_of(t@) {
                    assert(t@.subrange(0, 5)[0] == 'd');
                    assert(t@.subrange(0, 5)[1] == 'a');
                    assert(t@.subrange(0, 5)[2] == 't');
                    assert(t@.subrange(0, 5)[3] == 'a');
                    assert(t@.subrange(0, 5)[4] == ':');
                }
            }
        }
        if is_data {
            let skip = if n > 5 && t[5] == ' ' {
                6
            } else {
                5
            };
            proof {
                let rest = t@.skip(5);
                if n > 5 && t@[5] == ' ' {
                    assert(rest.subrange(0, 1) =~= " "@);
                } else if rest.len() > 0 && " "@.is_prefix_of(rest) {
                    assert(rest.subrange(0, 1)[0] == ' ');
                }
                assert(t@.skip(skip as int) =~= if " "@.is_prefix_of(rest) {
                    rest.skip(1)
                } else {
                    rest
                });
            }
            let value = string_of(t.split_at(skip).1);
            if !text_is_empty(self.data.as_str()) {
                append_text(&mut self.data, "\n");
            }
            append_text(&mut self.data, value.as_str());
        }
        None
    }
}

/// Whether event data is the keep-alive that the backend sends to hold the connection open.
pub fn is_keep_alive(data: &str) -> (r: bool)
    ensures
        r == (data@ == "keep-alive"@),
{
    text_equals(data, "keep-alive")
}

/// What becomes of the data of one event taken from the stream.
#[derive(Debug, Clone, Copy, PartialEq, Eq, Structural)]
pub enum EventAction {
    /// The keep-alive: dropped without a word.
    Ignore,
    /// An event for the application.
    Forward,
    /// Data that is not an event: dropped with a warning.
    Malformed,
}

/// Decides what to do with the data of one event. `kind` is the `type` tag of the data read as a
/// JSON object, `None` when the data is not such an object or carries no text tag. The
/// keep-alive is ignored before anything else; an event with a kind is passed on; other data
/// is malformed.
pub fn event_action(data: &str, kind: Option<&str>) -> (a: EventAction)
    ensures
        a == (if data@ == "keep-alive"@ {
            EventAction::Ignore
        } else if kind is Some {
            EventAction::Forward
        } else {
            EventAction::Malformed
        }),
{
    if is_keep_alive(data) {
        EventAction::Ignore
    } else {
        match kind {
            Some(_) => EventAction::Forward,
            None => EventAction::Malformed,
        }
    }
}

/// The longest pause, in seconds, before reconnecting.
pub const MAX_BACKOFF_SECS: u64 = 30;

/// The pause that follows a pause of `backoff_secs` seconds: twice as long, at most thirty seconds.
pub open spec fn next_backoff(backoff_secs: int) -> int {
    if backoff_secs * 2 < MAX_BACKOFF_SECS {
        backoff_secs * 2
    } else {
        MAX_BACKOFF_SECS as int
    }
}

/// After a connection fails or the stream ends: the pause before reconnecting, which is the
/// current back-off, and the back-off for the next time, doubled up to thirty seconds.
pub fn plan_reconnect(backoff_secs: u64) -> (r: (u64, u64))
    ensures
        r.0 == backoff_secs,
        r.1 == next_backoff(backoff_secs as int),
{
    let next = if backoff_secs < MAX_BACKOFF_SECS / 2 {
        backoff_secs * 2
    } else {
        MAX_BACKOFF_SECS
    };
    (backoff_secs, next)
}

/// The pause before the `k`-th reconnection (counting from zero) when every connection ends,
/// starting from one second.
pub open spec fn nth_pause(k: nat) -> int
    decreases k,
{
    if k == 0 {
        1
    } else {
        next_backoff(nth_pause((k - 1) as nat))
    }
}

/// Starting from one second, the pauses run 1, 2, 4, 8, 16 seconds and then stay at thirty:
/// the `k`-th is `2^k` while that is below thirty, and thirty after.
pub proof fn lemma_backoff_bounded(k: nat)
    ensures
        k <= 4 ==> nth_pause(k) == vstd::arithmetic::power2::pow2(k),
        k >= 5 ==> nth_pause(k) == MAX_BACKOFF_SECS,
        1 <= nth_pause(k) <= MAX_BACKOFF_SECS,
    decreases k,
{
    vstd::arithmetic::power2::lemma2_to64();
    if k > 0 {
        lemma_backoff_bounded((k - 1) as nat);
    }
}

} // verus!
