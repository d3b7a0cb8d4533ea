//! The forms of the application: what a submitted form asks the backend for, or why it is
//! refused; the topics the reader follows; and the outcome of blocking a peer's addresses.
use vstd::prelude::*;

use crate::models::{CreatePostInput, CreateThreadInput};
use crate::text::{append_text, text_equals, text_is_empty, trim_text, trimmed};

verus! {

/// Why a form was not sent.
pub enum FormError {
    EmptyTitle,
    EmptyBody,
    EmptyImportUrl,
}

impl FormError {
    pub open spec fn text(&self) -> Seq<char> {
        match self {
            FormError::EmptyTitle => "Title cannot be empty"@,
            FormError::EmptyBody => "Post body cannot be empty"@,
            FormError::EmptyImportUrl => "Paste a full 4chan thread URL"@,
        }
    }

    /// The message shown beside the form.
    pub fn message(&self) -> (r: String)
        ensures
            r@ == self.text(),
    {
        match self {
            FormError::EmptyTitle => "Title cannot be empty".to_owned(),
            FormError::EmptyBody => "Post body cannot be empty".to_owned(),
            FormError::EmptyImportUrl => "Paste a full 4chan thread URL".to_owned(),
        }
    }
}

/// The request for a new thread: the title and body without surrounding white space (no body
/// when it is blank), announced on `topics`, with social visibility. A blank title is refused.
pub fn thread_request(title: &str, body: &str, topics: Vec<String>) -> (r: Result<CreateThreadInput, FormError>)
    ensures
        trimmed(title@).len() == 0 <==> r is Err,
        r matches Err(e) ==> e is EmptyTitle,
        r matches Ok(input) ==> {
            &&& input.title@ == trimmed(title@)
            &&& (trimmed(body@).len() == 0 ==> input.body is None)
            &&& (trimmed(body@).len() > 0 ==> (input.body matches Some(b) && b@ == trimmed(body@)))
            &&& input.topics@ == topics@
            &&& input.creator_peer_id is None
            &&& input.pinned is None
            &&& input.created_at is None
            &&& input.visibility matches Some(v) && v@ == "social"@
        },
{
    let t = trim_text(title);
    if text_is_empty(t.as_str()) {
        return Err(FormError::EmptyTitle);
    }
    let b = trim_text(body);
    let body = if text_is_empty(b.as_str()) {
        None
    } else {
        Some(b)
    };
    Ok(
        CreateThreadInput {
            title: t,
            body,
            creator_peer_id: None,
            pinned: None,
            created_at: None,
            topics,
            visibility: Some("social".to_owned()),
        },
    )
}

/// The request for a new post in thread `thread_id`: the body without surrounding white space,
/// answering `reply_to`, rebroadcast when the reader hosts the thread. A blank body is refused.
pub fn post_request(thread_id: &str, body: &str, reply_to: Vec<String>, hosting: bool) -> (r: Result<CreatePostInput, FormError>)
    ensures
        trimmed(body@).len() == 0 <==> r is Err,
        r matches Err(e) ==> e is EmptyBody,
        r matches Ok(input) ==> {
            &&& input.thread_id@ == thread_id@
            &&& input.body@ == trimmed(body@)
            &&& input.parent_post_ids@ == reply_to@
            &&& input.rebroadcast == hosting
            &&& input.author_peer_id is None
            &&& input.created_at is None
        },
{
    let b = trim_text(body);
    if text_is_empty(b.as_str()) {
        return Err(FormError::EmptyBody);
    }
    Ok(
        CreatePostInput {
            thread_id: thread_id.to_owned(),
            author_peer_id: None,
            body: b,
            parent_post_ids: reply_to,
            created_at: None,
            rebroadcast: hosting,
        },
    )
}

/// The address of a thread to import, without surrounding white space; a blank one is refused.
pub fn import_url(url: &str) -> (r: Result<String, FormError>)
    ensures
        match r {
            Ok(u) => trimmed(url@).len() > 0 && u@ == trimmed(url@),
            Err(e) => trimmed(url@).len() == 0 && e is EmptyImportUrl,
        },
{
    let u = trim_text(url);
    if text_is_empty(u.as_str()) {
        Err(FormError::EmptyImportUrl)
    } else {
        Ok(u)
    }
}

/// A text field's value as an optional field of a request: nothing when it is empty.
pub fn optional_text(s: &str) -> (r: Option<String>)
    ensures
        s@.len() == 0 ==> r is None,
        s@.len() > 0 ==> (r matches Some(t) && t@ == s@),
{
    if text_is_empty(s) {
        None
    } else {
        Some(s.to_owned())
    }
}

// --- topics --------------------------------------------------------------------------------

pub open spec fn topic_texts(topics: Seq<String>) -> Seq<Seq<char>> {
    topics.map_values(|t: String| t@)
}

/// Whether `topic` is followed.
pub fn follows(topics: &Vec<String>, topic: &str) -> (r: bool)
    ensures
        r == topic_texts(topics@).contains(topic@),
{
    let mut i: usize = 0;
    while i < topics.len()
        invariant
            i <= topics@.len(),
            forall|k: int| 0 <= k < i ==> topics@[k]@ != topic@,
        decreases topics@.len() - i,
    {
        if text_equals(topics[i].as_str(), topic) {
            assert(topic_texts(topics@)[i as int] == topic@);
            return true;
        }
        i = i + 1;
    }
    proof {
        if topic_texts(topics@).contains(topic@) {
            let k = choose|k: int| 0 <= k < topic_texts(topics@).len() && topic_texts(topics@)[k] == topic@;
            assert(topics@[k]@ == topic@);
        }
    }
    false
}

/// The followed topics after subscribing to `topic`: added at the end unless already there.
pub open spec fn subscribed(topics: Seq<Seq<char>>, topic: Seq<char>) -> Seq<Seq<char>> {
    if topics.contains(topic) {
        topics
    } else {
        topics.push(topic)
    }
}

/// The followed topics after unsubscribing from `topic`: every copy of it removed.
pub open spec fn unsubscribed(topics: Seq<Seq<char>>, topic: Seq<char>) -> Seq<Seq<char>>
    decreases topics.len(),
{
    if topics.len() == 0 {
        Seq::empty()
    } else {
        let rest = unsubscribed(topics.drop_last(), topic);
        if topics.last() == topic {
            rest
        } else {
            rest.push(topics.last())
        }
    }
}

proof fn lemma_unsubscribed_lacks(topics: Seq<Seq<char>>, topic: Seq<char>)
    ensures
        !unsubscribed(topics, topic).contains(topic),
    decreases topics.len(),
{
    if topics.len() > 0 {
        lemma_unsubscribed_lacks(topics.drop_last(), topic);
        let rest = unsubscribed(topics.drop_last(), topic);
        if topics.last() != topic {
            let u = rest.push(topics.last());
            if u.contains(topic) {
                let k = choose|k: int| 0 <= k < u.len() && u[k] == topic;
                assert(k < rest.len() ==> rest[k] == topic);
            }
        }
    }
}

/// Follows `topic`, once.
pub fn subscribe_topic(topics: &mut Vec<String>, topic: &str)
    ensures
        topic_texts(final(topics)@) == subscribed(topic_texts(old(topics)@), topic@),
{
    if !follows(topics, topic) {
        let ghost before = topic_texts(topics@);
        topics.push(topic.to_owned());
        assert(topic_texts(topics@) =~= before.push(topic@));
    }
}

/// Stops following `topic`.
pub fn unsubscribe_topic(topics: &mut Vec<String>, topic: &str)
    ensures
        topic_texts(final(topics)@) == unsubscribed(topic_texts(old(topics)@), topic@),
{
    let ghost all = topic_texts(topics@);
    let mut kept: Vec<String> = Vec::new();
    let mut i: usize = 0;
    while i < topics.len()
        invariant
            all == topic_texts(topics@),
            i <= topics@.len(),
            topic_texts(kept@) == unsubscribed(all.take(i as int), topic@),
        decreases topics@.len() - i,
    {
        let ghost prefix = all.take(i + 1);
        assert(prefix.drop_last() =~= all.take(i as int));
        assert(prefix.last() == topics@[i as int]@);
        if !text_equals(topics[i].as_str(), topic) {
            let ghost before = topic_texts(kept@);
            kept.push(topics[i].clone());
            assert(topic_texts(kept@) =~= before.push(topics@[i as int]@));
        }
        i = i + 1;
    }
    assert(all.take(all.len() as int) =~= all);
    *topics = kept;
}

/// Subscribing twice follows a topic as once; unsubscribing afterwards leaves it unfollowed.
pub proof fn lemma_topic_subscriptions(topics: Seq<Seq<char>>, topic: Seq<char>)
    ensures
        subscribed(subscribed(topics, topic), topic) == subscribed(topics, topic),
        !unsubscribed(subscribed(topics, topic), topic).contains(topic),
{
    if !topics.contains(topic) {
        assert(topics.push(topic)[topics.len() as int] == topic);
    }
    lemma_unsubscribed_lacks(subscribed(topics, topic), topic);
}

// --- blocking a peer's addresses -------------------------------------------------------------

/// The reason recorded with each address block of a peer.
pub fn peer_block_reason(peer_id: &str) -> (r: String)
    ensures
        r@ == "Blocked peer: "@ + peer_id@,
{
    let mut r = "Blocked peer: ".to_owned();
    append_text(&mut r, peer_id);
    r
}

/// What blocking a peer's addresses came to.
pub enum IpBlockOutcome {
    /// At least one address was blocked; all the peer's addresses are reported.
    Blocked(Vec<String>),
    /// Nothing was blocked, for the reason given.
    Failed(String),
}

/// The report of the failures: each address and its error, joined by `, `.
pub open spec fn failure_list(ips: Seq<String>, errors: Seq<Option<String>>, n: int) -> Seq<char>
    decreases n,
{
    if n <= 0 {
        Seq::empty()
    } else {
        let rest = failure_list(ips, errors, n - 1);
        match errors[n - 1] {
            Some(e) => {
                let item = ips[n - 1]@ + ": "@ + e@;
                if rest.len() == 0 {
                    item
                } else {
                    rest + ", "@ + item
                }
            },
            None => rest,
        }
    }
}

/// Whether some address was blocked.
pub open spec fn some_blocked(errors: Seq<Option<String>>) -> bool {
    exists|k: int| 0 <= k < errors.len() && errors[k] is None
}

/// Summarizes the blocking of a peer's addresses `ips`, where `errors[k]` is the error that
/// blocking `ips[k]` met (`None` when it was blocked).
pub fn ip_block_outcome(ips: &Vec<String>, errors: &Vec<Option<String>>) -> (r: IpBlockOutcome)
    requires
        errors@.len() == ips@.len(),
    ensures
        match r {
            IpBlockOutcome::Blocked(all) => ips@.len() > 0 && some_blocked(errors@) && all@ == ips@,
            IpBlockOutcome::Failed(msg) => if ips@.len() == 0 {
                msg@ == "No IP addresses found for this peer"@
            } else {
                !some_blocked(errors@) && msg@ == "Failed to block IPs: "@ + failure_list(ips@, errors@, ips@.len() as int)
            },
        },
{
    if ips.len() == 0 {
        return IpBlockOutcome::Failed("No IP addresses found for this peer".to_owned());
    }
    let mut list = String::new();
    let mut any = false;
    let mut k: usize = 0;
    while k < ips.len()
        invariant
            errors@.len() == ips@.len(),
            k <= ips@.len(),
            list@ == failure_list(ips@, errors@, k as int),
            any == exists|j: int| 0 <= j < k && errors@[j] is None,
        decreases ips@.len() - k,
    {
        match &errors[k] {
            Some(e) => {
                if !text_is_empty(list.as_str()) {
                    append_text(&mut list, ", ");
                }
                append_text(&mut list, ips[k].as_str());
                append_text(&mut list, ": ");
                append_text(&mut list, e.as_str());
            },
            None => {
                any = true;
            },
        }
        k = k + 1;
    }
    if any {
        IpBlockOutcome::Blocked(ips.clone())
    } else {
        let mut msg = "Failed to block IPs: ".to_owned();
        append_text(&mut msg, list.as_str());
        IpBlockOutcome::Failed(msg)
    }
}

} // verus!
