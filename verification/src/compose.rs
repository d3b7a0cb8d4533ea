//! The reply being written in a thread: which posts it answers and its text.
use vstd::prelude::*;

use crate::text::{append_text, text_starts_with};

verus! {

/// The line that quotes post `id`: `>>id` and a line break.
pub open spec fn quote_line(id: Seq<char>) -> Seq<char> {
    ">>"@ + id + "\n"@
}

/// The text after quoting post `id`: the quote line in front, unless the text already starts
/// with it.
pub open spec fn quoted(body: Seq<char>, id: Seq<char>) -> Seq<char> {
    if quote_line(id).is_prefix_of(body) {
        body
    } else {
        quote_line(id) + body
    }
}

/// Makes post `post_id` the one post that the reply answers.
pub fn set_reply_target(reply_to: &mut Vec<String>, post_id: &str)
    ensures
        final(reply_to)@.len() == 1,
        final(reply_to)@[0]@ == post_id@,
{
    reply_to.clear();
    reply_to.push(post_id.to_owned());
}

/// Answers post `post_id` and quotes it at the top of the reply.
pub fn quote_post(reply_to: &mut Vec<String>, body: &mut String, post_id: &str)
    ensures
        final(reply_to)@.len() == 1,
        final(reply_to)@[0]@ == post_id@,
        final(body)@ == quoted(old(body)@, post_id@),
{
    set_reply_target(reply_to, post_id);
    let mut line = ">>".to_owned();
    append_text(&mut line, post_id);
    append_text(&mut line, "\n");
    if !text_starts_with(body.as_str(), line.as_str()) {
        append_text(&mut line, body.as_str());
        *body = line;
    }
}

/// Quoting the same post twice leaves the reply as quoting it once.
pub proof fn lemma_quote_idempotent(body: Seq<char>, id: Seq<char>)
    ensures
        quoted(quoted(body, id), id) == quoted(body, id),
{
    let line = quote_line(id);
    if !line.is_prefix_of(body) {
        assert((line + body).subrange(0, line.len() as int) =~= line);
    }
}

} // verus!
