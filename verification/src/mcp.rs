//! The tool server: which tools it offers, how a tool call becomes a request to the backend
//! node, and how answers and failures are framed.
use vstd::prelude::*;

use crate::order::{
    key_order, lemma_stable_sorted_congruent, lemma_stable_sorted_members, lemma_stable_sorted_ordered,
    lemma_text_lt_strict_weak, ordered_by, stable_sort, stable_sorted, text_lt,
};
use crate::text::{append_text, chars_of, push_char, text_equals};

verus! {

// --- text pieces -------------------------------------------------------------------------

/// Whether a byte is sent as it is in a query: letters, digits and `-`, `_`, `.`, `~`.
pub open spec fn unreserved(b: u8) -> bool {
    (65 <= b <= 90) || (97 <= b <= 122) || (48 <= b <= 57) || b == 45 || b == 95 || b == 46 || b == 126
}

/// The upper-case hexadecimal digit for a value below 16.
pub open spec fn hex_digit(v: u8) -> char {
    if v < 10 {
        (48 + v) as char
    } else {
        (55 + v) as char
    }
}

/// How one byte appears in an encoded query.
pub open spec fn encode_byte(b: u8) -> Seq<char> {
    if unreserved(b) {
        seq![b as char]
    } else {
        seq!['%', hex_digit(b / 16), hex_digit(b % 16)]
    }
}

/// The percent-encoding of a byte string.
pub open spec fn percent_encoded(bytes: Seq<u8>) -> Seq<char>
    decreases bytes.len(),
{
    if bytes.len() == 0 {
        Seq::empty()
    } else {
        percent_encoded(bytes.drop_last()) + encode_byte(bytes.last())
    }
}

/// The value of a hexadecimal digit, either case; 0 for any other character.
pub open spec fn hex_value(c: char) -> int {
    let n = c as int;
    if 48 <= n <= 57 {
        n - 48
    } else if 65 <= n <= 70 {
        n - 55
    } else if 97 <= n <= 102 {
        n - 87
    } else {
        0
    }
}

/// Percent-decoding: `%` and two hexadecimal digits give one byte, any other character gives
/// its code.
pub open spec fn percent_decoded(s: Seq<char>) -> Seq<int>
    decreases s.len(),
{
    if s.len() == 0 {
        Seq::empty()
    } else if s[0] == '%' && s.len() >= 3 {
        seq![hex_value(s[1]) * 16 + hex_value(s[2])] + percent_decoded(s.skip(3))
    } else {
        seq![s[0] as int] + percent_decoded(s.skip(1))
    }
}

/// How many characters the encoding of a byte string takes: one per byte sent as it is, three
/// per escaped byte.
pub open spec fn encoded_len(bytes: Seq<u8>) -> int
    decreases bytes.len(),
{
    if bytes.len() == 0 {
        0
    } else {
        encoded_len(bytes.drop_last()) + if unreserved(bytes.last()) {
            1int
        } else {
            3int
        }
    }
}

proof fn lemma_encoded_front(bytes: Seq<u8>)
    requires
        bytes.len() > 0,
    ensures
        percent_encoded(bytes) == encode_byte(bytes[0]) + percent_encoded(bytes.skip(1)),
    decreases bytes.len(),
{
    if bytes.len() == 1 {
        assert(bytes.drop_last() =~= Seq::<u8>::empty());
        assert(bytes.skip(1) =~= Seq::<u8>::empty());
        assert(percent_encoded(bytes) =~= encode_byte(bytes[0]) + percent_encoded(bytes.skip(1)));
    } else {
        let d = bytes.drop_last();
        lemma_encoded_front(d);
        assert(bytes.skip(1).drop_last() =~= d.skip(1));
        assert(bytes.skip(1).last() == bytes.last());
        assert(percent_encoded(bytes) =~= encode_byte(bytes[0]) + percent_encoded(bytes.skip(1)));
    }
}

proof fn lemma_hex_digit(v: u8)
    requires
        v < 16,
    ensures
        hex_value(hex_digit(v)) == v,
        (hex_digit(v) as int) < 128,
{
}

/// The percent-encoding of any byte string is ASCII, takes one character per byte sent as it is
/// and three per escaped byte, and percent-decodes back to exactly the bytes.
pub proof fn lemma_percent_encoding_round_trip(bytes: Seq<u8>)
    ensures
        forall|k: int| 0 <= k < percent_encoded(bytes).len() ==> (#[trigger] percent_encoded(bytes)[k] as int) < 128,
        percent_encoded(bytes).len() == encoded_len(bytes),
        percent_decoded(percent_encoded(bytes)) == bytes.map_values(|b: u8| b as int),
    decreases bytes.len(),
{
    if bytes.len() == 0 {
        assert(percent_decoded(percent_encoded(bytes)) =~= bytes.map_values(|b: u8| b as int));
    } else {
        let d = bytes.drop_last();
        lemma_percent_encoding_round_trip(d);
        let b = bytes.last();
        lemma_hex_digit(b / 16);
        lemma_hex_digit(b % 16);
        let e = percent_encoded(bytes);
        assert(e == percent_encoded(d) + encode_byte(b));
        assert forall|k: int| 0 <= k < e.len() implies (#[trigger] e[k] as int) < 128 by {
            if k >= percent_encoded(d).len() {
                let j = k - percent_encoded(d).len();
                assert(e[k] == encode_byte(b)[j]);
            } else {
                assert(e[k] == percent_encoded(d)[k]);
            }
        }
        let t = bytes.skip(1);
        lemma_encoded_front(bytes);
        lemma_percent_encoding_round_trip(t);
        let f = bytes[0];
        lemma_hex_digit(f / 16);
        lemma_hex_digit(f % 16);
        let rest = percent_encoded(t);
        assert(e == encode_byte(f) + rest);
        if unreserved(f) {
            assert(e.skip(1) =~= rest);
            assert(e[0] == f as char);
        } else {
            assert(e.skip(3) =~= rest);
            assert(e[0] == '%' && e[1] == hex_digit(f / 16) && e[2] == hex_digit(f % 16));
            assert(hex_value(e[1]) * 16 + hex_value(e[2]) == f) by (nonlinear_arith)
                requires hex_value(e[1]) == f / 16, hex_value(e[2]) == f % 16;
        }
        assert(percent_decoded(e) =~= bytes.map_values(|b: u8| b as int));
    }
}

fn hex_char(v: u8) -> (c: char)
    requires
        v < 16,
    ensures
        c == hex_digit(v),
{
    if v < 10 {
        (48 + v) as char
    } else {
        (55 + v) as char
    }
}

/// Percent-encodes the UTF-8 bytes of `input` for use in a query string.
pub fn urlencoding(input: &str) -> (r: String)
    ensures
        r@ == percent_encoded(vstd::utf8::encode_utf8(input@)),
{
    let bytes = input.as_bytes();
    let mut out = String::new();
    let mut i: usize = 0;
    while i < bytes.len()
        invariant
            bytes@ == vstd::utf8::encode_utf8(input@),
            i <= bytes@.len(),
            out@ == percent_encoded(bytes@.subrange(0, i as int)),
        decreases bytes@.len() - i,
    {
        let b = bytes[i];
        proof {
            assert(bytes@.subrange(0, i + 1).drop_last() =~= bytes@.subrange(0, i as int));
        }
        if (65 <= b && b <= 90) || (97 <= b && b <= 122) || (48 <= b && b <= 57) || b == 45 || b == 95 || b == 46
            || b == 126 {
            push_char(&mut out, b as char);
        } else {
            push_char(&mut out, '%');
            push_char(&mut out, hex_char(b / 16));
            push_char(&mut out, hex_char(b % 16));
        }
        assert(out@ =~= percent_encoded(bytes@.subrange(0, i + 1)));
        i = i + 1;
    }
    assert(bytes@.subrange(0, bytes@.len() as int) =~= bytes@);
    out
}

/// The decimal digits of `n`.
pub open spec fn decimal(n: nat) -> Seq<char>
    decreases n,
{
    if n < 10 {
        seq![(48 + n) as char]
    } else {
        decimal(n / 10).push((48 + n % 10) as char)
    }
}

/// Appends the decimal digits of `n` to `s`.
pub fn append_decimal(s: &mut String, n: u64)
    ensures
        final(s)@ == old(s)@ + decimal(n as nat),
    decreases n,
{
    if n < 10 {
        push_char(s, ((48 + n) as u8) as char);
        assert(s@ =~= old(s)@ + decimal(n as nat));
    } else {
        append_decimal(s, n / 10);
        push_char(s, ((48 + n % 10) as u8) as char);
        assert(s@ =~= old(s)@ + decimal(n as nat));
    }
}

/// Whether `needle` occurs in `hay`.
pub open spec fn occurs_in(hay: Seq<char>, needle: Seq<char>) -> bool {
    exists|i: int| 0 <= i && i + needle.len() <= hay.len() && #[trigger] hay.subrange(i, i + needle.len()) == needle
}

/// Whether `needle` occurs in `hay`.
pub fn text_contains(hay: &str, needle: &str) -> (r: bool)
    ensures
        r == occurs_in(hay@, needle@),
{
    let h = chars_of(hay);
    let n = chars_of(needle);
    let hl = h.len();
    let nl = n.len();
    if nl > hl {
        return false;
    }
    if nl == 0 {
        assert(h@.subrange(0int, 0int + n@.len()) =~= n@);
        return true;
    }
    let last = hl - nl;
    let mut i: usize = 0;
    while i <= last
        invariant
            h@ == hay@,
            n@ == needle@,
            hl == h@.len(),
            nl == n@.len(),
            last == hl - nl,
            nl > 0,
            i <= last + 1,
            forall|k: int| 0 <= k < i ==> #[trigger] h@.subrange(k, k + n@.len()) != n@,
        decreases last + 1 - i,
    {
        let mut j: usize = 0;
        let mut same = true;
        while j < nl
            invariant
                h@ == hay@,
                n@ == needle@,
                hl == h@.len(),
                nl == n@.len(),
                i + nl <= hl,
                j <= nl,
                same == forall|m: int| 0 <= m < j ==> h@[i + m] == n@[m],
            decreases nl - j,
        {
            if h[i + j] != n[j] {
                same = false;
            }
            j = j + 1;
        }
        if same {
            assert(h@.subrange(i as int, i + n@.len()) =~= n@);
            return true;
        }
        proof {
            let m = choose|m: int| 0 <= m < n@.len() && h@[i + m] != n@[m];
            assert(h@.subrange(i as int, i + n@.len())[m] != n@[m]);
        }
        i = i + 1;
    }
    false
}

// --- the tool catalog --------------------------------------------------------------------

/// The type of a tool parameter.
#[derive(PartialEq, Eq, Structural, Clone, Copy, Debug)]
pub enum ParamKind {
    Integer,
    Text,
    TextList,
}

/// One parameter of a tool.
pub struct ToolParam {
    pub name: String,
    pub kind: ParamKind,
    pub description: Option<String>,
    pub required: bool,
}

/// One tool: its name, what it does, and its parameters in order.
pub struct ToolInfo {
    pub name: String,
    pub description: String,
    pub params: Vec<ToolParam>,
}

/// A parameter as plain values.
pub struct ParamView {
    pub name: Seq<char>,
    pub kind: ParamKind,
    pub description: Option<Seq<char>>,
    pub required: bool,
}

/// A tool as plain values.
pub struct ToolView {
    pub name: Seq<char>,
    pub description: Seq<char>,
    pub params: Seq<ParamView>,
}

impl View for ToolParam {
    type V = ParamView;

    open spec fn view(&self) -> ParamView {
        ParamView {
            name: self.name@,
            kind: self.kind,
            description: match self.description {
                Some(d) => Some(d@),
                None => None,
            },
            required: self.required,
        }
    }
}

impl View for ToolInfo {
    type V = ToolView;

    open spec fn view(&self) -> ToolView {
        ToolView { name: self.name@, description: self.description@, params: self.params@.map_values(|p: ToolParam| p@) }
    }
}

pub open spec fn param_view(name: Seq<char>, kind: ParamKind, description: Option<Seq<char>>, required: bool) -> ParamView {
    ParamView { name, kind, description, required }
}

pub open spec fn tool_view(name: Seq<char>, description: Seq<char>, params: Seq<ParamView>) -> ToolView {
    ToolView { name, description, params }
}

/// The tools that the server offers, grouped as reading, writing, peers, direct messages,
/// moderation and health.
pub open spec fn tool_catalog() -> Seq<ToolView> {
    Seq::new(21, |i: int| tool_entry(i))
}

/// Entry `i` of the tool catalog.
pub open spec fn tool_entry(i: int) -> ToolView {
    if i == 0 {
        tool_view("list_threads"@, "List recent threads on this node (most recent first)."@, seq![param_view("limit"@, ParamKind::Integer, Some("Max threads to return (default 50)"@), false)])
    } else if i == 1 {
        tool_view("read_thread"@, "Read a thread including all posts, peer metadata, and attached files."@, seq![param_view("thread_id"@, ParamKind::Text, None, true)])
    } else if i == 2 {
        tool_view("read_latest_posts"@, "Get the N most recent posts in a thread."@, seq![param_view("thread_id"@, ParamKind::Text, None, true), param_view("n"@, ParamKind::Integer, Some("How many posts (default 10)"@), false)])
    } else if i == 3 {
        tool_view("read_recent_posts"@, "Get recent posts across all threads (cross-thread feed)."@, seq![param_view("limit"@, ParamKind::Integer, Some("Max posts (default 50)"@), false)])
    } else if i == 4 {
        tool_view("read_parents"@, "Get the parent posts (reply targets) of a specific post."@, seq![param_view("thread_id"@, ParamKind::Text, None, true), param_view("post_id"@, ParamKind::Text, None, true)])
    } else if i == 5 {
        tool_view("search"@, "Full-text search across posts and file names."@, seq![param_view("query"@, ParamKind::Text, None, true), param_view("limit"@, ParamKind::Integer, Some("Max results (default 20)"@), false)])
    } else if i == 6 {
        tool_view("create_thread"@, "Create a new thread. The local node becomes the creator and the thread is broadcast to peers."@, seq![param_view("title"@, ParamKind::Text, None, true), param_view("body"@, ParamKind::Text, Some("Optional initial post body"@), false), param_view("topics"@, ParamKind::TextList, Some("Optional list of topic IDs to announce on for public discovery"@), false), param_view("agent_name"@, ParamKind::Text, Some("Optional agent identity to record in post metadata"@), false)])
    } else if i == 7 {
        tool_view("create_post"@, "Reply in a thread. Optionally specify parent_post_ids to fork or thread under existing posts."@, seq![param_view("thread_id"@, ParamKind::Text, None, true), param_view("body"@, ParamKind::Text, None, true), param_view("parent_post_ids"@, ParamKind::TextList, None, false), param_view("agent_name"@, ParamKind::Text, Some("Optional agent identity recorded in post metadata"@), false)])
    } else if i == 8 {
        tool_view("react"@, "Add an emoji reaction to a post."@, seq![param_view("post_id"@, ParamKind::Text, None, true), param_view("emoji"@, ParamKind::Text, Some("A single emoji, e.g. '\u{1F44D}'"@), true)])
    } else if i == 9 {
        tool_view("unreact"@, "Remove a previously-added reaction."@, seq![param_view("post_id"@, ParamKind::Text, None, true), param_view("emoji"@, ParamKind::Text, None, true)])
    } else if i == 10 {
        tool_view("get_self"@, "Get this node's identity (peer id, friend code, profile, addresses)."@, Seq::empty())
    } else if i == 11 {
        tool_view("list_peers"@, "List known peers (followed, discovered, or imported via friendcode)."@, Seq::empty())
    } else if i == 12 {
        tool_view("add_peer"@, "Add a peer by friendcode. Establishes a follow relationship and subscribes to their announcements."@, seq![param_view("friendcode"@, ParamKind::Text, None, true)])
    } else if i == 13 {
        tool_view("list_conversations"@, "List active DM conversations."@, Seq::empty())
    } else if i == 14 {
        tool_view("read_messages"@, "Read decrypted DMs from a specific peer."@, seq![param_view("peer_id"@, ParamKind::Text, None, true), param_view("limit"@, ParamKind::Integer, None, false)])
    } else if i == 15 {
        tool_view("send_dm"@, "Send an encrypted direct message to a peer."@, seq![param_view("to_peer_id"@, ParamKind::Text, None, true), param_view("body"@, ParamKind::Text, None, true)])
    } else if i == 16 {
        tool_view("get_unread_count"@, "Get the total number of unread DMs across all conversations."@, Seq::empty())
    } else if i == 17 {
        tool_view("block_peer"@, "Block a peer's posts and DMs from this node."@, seq![param_view("peer_id"@, ParamKind::Text, None, true), param_view("reason"@, ParamKind::Text, None, false)])
    } else if i == 18 {
        tool_view("unblock_peer"@, "Reverse a peer block."@, seq![param_view("peer_id"@, ParamKind::Text, None, true)])
    } else if i == 19 {
        tool_view("list_blocked_peers"@, "List peers currently blocked on this node."@, Seq::empty())
    } else {
        tool_view("health"@, "Get backend health, identity summary, and DHT status."@, Seq::empty())
    }
}

fn param(name: &str, kind: ParamKind, description: Option<&str>, required: bool) -> (p: ToolParam)
    ensures
        p@ == param_view(
            name@,
            kind,
            match description {
                Some(d) => Some(d@),
                None => None,
            },
            required,
        ),
{
    ToolParam {
        name: name.to_owned(),
        kind,
        description: match description {
            Some(d) => Some(d.to_owned()),
            None => None,
        },
        required,
    }
}

fn tool(name: &str, description: &str, params: Vec<ToolParam>) -> (t: ToolInfo)
    ensures
        t@ == tool_view(name@, description@, params@.map_values(|p: ToolParam| p@)),
{
    ToolInfo { name: name.to_owned(), description: description.to_owned(), params }
}

/// The tool catalog.
pub fn list_tools() -> (r: Vec<ToolInfo>)
    ensures
        r@.map_values(|t: ToolInfo| t@) == tool_catalog(),
{
    let mut r: Vec<ToolInfo> = Vec::new();
    let mut ps: Vec<ToolParam> = Vec::new();
    ps.push(param("limit", ParamKind::Integer, Some("Max threads to return (default 50)"), false));
    assert(ps@.map_values(|p: ToolParam| p@) =~= tool_entry(0).params);
    r.push(tool("list_threads", "List recent threads on this node (most recent first).", ps));
    assert(r@[0]@ == tool_entry(0));
    let mut ps: Vec<ToolParam> = Vec::new();
    ps.push(param("thread_id", ParamKind::Text, None, true));
    assert(ps@.map_values(|p: ToolParam| p@) =~= tool_entry(1).params);
    r.push(tool("read_thread", "Read a thread including all posts, peer metadata, and attached files.", ps));
    assert(r@[1]@ == tool_entry(1));
    let mut ps: Vec<ToolParam> = Vec::new();
    ps.push(param("thread_id", ParamKind::Text, None, true));
    ps.push(param("n", ParamKind::Integer, Some("How many posts (default 10)"), false));
    assert(ps@.map_values(|p: ToolParam| p@) =~= tool_entry(2).params);
    r.push(tool("read_latest_posts", "Get the N most recent posts in a thread.", ps));
    assert(r@[2]@ == tool_entry(2));
    let mut ps: Vec<ToolParam> = Vec::new();
    ps.push(param("limit", ParamKind::Integer, Some("Max posts (default 50)"), false));
    assert(ps@.map_values(|p: ToolParam| p@) =~= tool_entry(3).params);
    r.push(tool("read_recent_posts", "Get recent posts across all threads (cross-thread feed).", ps));
    assert(r@[3]@ == tool_entry(3));
    let mut ps: Vec<ToolParam> = Vec::new();
    ps.push(param("thread_id", ParamKind::Text, None, true));
    ps.push(param("post_id", ParamKind::Text, None, true));
    assert(ps@.map_values(|p: ToolParam| p@) =~= tool_entry(4).params);
    r.push(tool("read_parents", "Get the parent posts (reply targets) of a specific post.", ps));
    assert(r@[4]@ == tool_entry(4));
    let mut ps: Vec<ToolParam> = Vec::new();
    ps.push(param("query", ParamKind::Text, None, true));
    ps.push(param("limit", ParamKind::Integer, Some("Max results (default 20)"), false));
    assert(ps@.map_values(|p: ToolParam| p@) =~= tool_entry(5).params);
    r.push(tool("search", "Full-text search across posts and file names.", ps));
    assert(r@[5]@ == tool_entry(5));
    let mut ps: Vec<ToolParam> = Vec::new();
    ps.push(param("title", ParamKind::Text, None, true));
    ps.push(param("body", ParamKind::Text, Some("Optional initial post body"), false));
    ps.push(param("topics", ParamKind::TextList, Some("Optional list of topic IDs to announce on for public discovery"), false));
    ps.push(param("agent_name", ParamKind::Text, Some("Optional agent identity to record in post metadata"), false));
    assert(ps@.map_values(|p: ToolParam| p@) =~= tool_entry(6).params);
    r.push(tool("create_thread", "Create a new thread. The local node becomes the creator and the thread is broadcast to peers.", ps));
    assert(r@[6]@ == tool_entry(6));
    let mut ps: Vec<ToolParam> = Vec::new();
    ps.push(param("thread_id", ParamKind::Text, None, true));
    ps.push(param("body", ParamKind::Text, None, true));
    ps.push(param("parent_post_ids", ParamKind::TextList, None, false));
    ps.push(param("agent_name", ParamKind::Text, Some("Optional agent identity recorded in post metadata"), false));
    assert(ps@.map_values(|p: ToolParam| p@) =~= tool_entry(7).params);
    r.push(tool("create_post", "Reply in a thread. Optionally specify parent_post_ids to fork or thread under existing posts.", ps));
    assert(r@[7]@ == tool_entry(7));
    let mut ps: Vec<ToolParam> = Vec::new();
    ps.push(param("post_id", ParamKind::Text, None, true));
    ps.push(param("emoji", ParamKind::Text, Some("A single emoji, e.g. '\u{1F44D}'"), true));
    assert(ps@.map_values(|p: ToolParam| p@) =~= tool_entry(8).params);
    r.push(tool("react", "Add an emoji reaction to a post.", ps));
    assert(r@[8]@ == tool_entry(8));
    let mut ps: Vec<ToolParam> = Vec::new();
    ps.push(param("post_id", ParamKind::Text, None, true));
    ps.push(param("emoji", ParamKind::Text, None, true));
    assert(ps@.map_values(|p: ToolParam| p@) =~= tool_entry(9).params);
    r.push(tool("unreact", "Remove a previously-added reaction.", ps));
    assert(r@[9]@ == tool_entry(9));
    let mut ps: Vec<ToolParam> = Vec::new();
    assert(ps@.map_values(|p: ToolParam| p@) =~= tool_entry(10).params);
    r.push(tool("get_self", "Get this node's identity (peer id, friend code, profile, addresses).", ps));
    assert(r@[10]@ == tool_entry(10));
    let mut ps: Vec<ToolParam> = Vec::new();
    assert(ps@.map_values(|p: ToolParam| p@) =~= tool_entry(11).params);
    r.push(tool("list_peers", "List known peers (followed, discovered, or imported via friendcode).", ps));
    assert(r@[11]@ == tool_entry(11));
    let mut ps: Vec<ToolParam> = Vec::new();
    ps.push(param("friendcode", ParamKind::Text, None, true));
    assert(ps@.map_values(|p: ToolParam| p@) =~= tool_entry(12).params);
    r.push(tool("add_peer", "Add a peer by friendcode. Establishes a follow relationship and subscribes to their announcements.", ps));
    assert(r@[12]@ == tool_entry(12));
    let mut ps: Vec<ToolParam> = Vec::new();
    assert(ps@.map_values(|p: ToolParam| p@) =~= tool_entry(13).params);
    r.push(tool("list_conversations", "List active DM conversations.", ps));
    assert(r@[13]@ == tool_entry(13));
    let mut ps: Vec<ToolParam> = Vec::new();
    ps.push(param("peer_id", ParamKind::Text, None, true));
    ps.push(param("limit", ParamKind::Integer, None, false));
    assert(ps@.map_values(|p: ToolParam| p@) =~= tool_entry(14).params);
    r.push(tool("read_messages", "Read decrypted DMs from a specific peer.", ps));
    assert(r@[14]@ == tool_entry(14));
    let mut ps: Vec<ToolParam> = Vec::new();
    ps.push(param("to_peer_id", ParamKind::Text, None, true));
    ps.push(param("body", ParamKind::Text, None, true));
    assert(ps@.map_values(|p: ToolParam| p@) =~= tool_entry(15).params);
    r.push(tool("send_dm", "Send an encrypted direct message to a peer.", ps));
    assert(r@[15]@ == tool_entry(15));
    let mut ps: Vec<ToolParam> = Vec::new();
    assert(ps@.map_values(|p: ToolParam| p@) =~= tool_entry(16).params);
    r.push(tool("get_unread_count", "Get the total number of unread DMs across all conversations.", ps));
    assert(r@[16]@ == tool_entry(16));
    let mut ps: Vec<ToolParam> = Vec::new();
    ps.push(param("peer_id", ParamKind::Text, None, true));
    ps.push(param("reason", ParamKind::Text, None, false));
    assert(ps@.map_values(|p: ToolParam| p@) =~= tool_entry(17).params);
    r.push(tool("block_peer", "Block a peer's posts and DMs from this node.", ps));
    assert(r@[17]@ == tool_entry(17));
    let mut ps: Vec<ToolParam> = Vec::new();
    ps.push(param("peer_id", ParamKind::Text, None, true));
    assert(ps@.map_values(|p: ToolParam| p@) =~= tool_entry(18).params);
    r.push(tool("unblock_peer", "Reverse a peer block.", ps));
    assert(r@[18]@ == tool_entry(18));
    let mut ps: Vec<ToolParam> = Vec::new();
    assert(ps@.map_values(|p: ToolParam| p@) =~= tool_entry(19).params);
    r.push(tool("list_blocked_peers", "List peers currently blocked on this node.", ps));
    assert(r@[19]@ == tool_entry(19));
    let mut ps: Vec<ToolParam> = Vec::new();
    assert(ps@.map_values(|p: ToolParam| p@) =~= tool_entry(20).params);
    r.push(tool("health", "Get backend health, identity summary, and DHT status.", ps));
    assert(r@[20]@ == tool_entry(20));
    assert(r@.map_values(|t: ToolInfo| t@) =~= tool_catalog());
    r
}

// --- tool calls ----------------------------------------------------------------------------

/// An argument of a tool call, as the dispatcher reads it: a list keeps its text items and marks
/// the others `None`.
pub enum ArgValue {
    Null,
    Flag(bool),
    Unsigned(u64),
    OtherNumber,
    Text(String),
    List(Vec<Option<String>>),
    Object,
}

/// A named argument of a tool call.
pub struct Argument {
    pub key: String,
    pub value: ArgValue,
}

/// The parameters of a tool call: the tool's name when it is given as text, and the arguments
/// (none when they are not given as an object).
pub struct ToolParams {
    pub name: Option<String>,
    pub arguments: Vec<Argument>,
}

/// What a request to the backend carries.
pub enum RequestBody {
    NewThread { title: String, body: Option<String>, topics: Vec<String>, agent: Option<String> },
    NewPost { thread_id: String, body: String, parent_post_ids: Vec<String>, agent: Option<String> },
    Emoji { emoji: String },
    Friendcode { friendcode: String },
    DirectMessage { to_peer_id: String, body: String },
    BlockReason { reason: Option<String> },
}

/// The request that a tool call makes, and what is done with the answer.
pub enum ToolCall {
    /// GET the path and answer with what the backend returns.
    Get { path: String },
    /// GET the thread at the path and answer with its `n` newest posts.
    LatestPosts { path: String, n: usize },
    /// GET the thread at the path and answer with the posts that post `post_id` answers.
    Parents { path: String, post_id: String },
    /// POST the body as JSON.
    Post { path: String, body: RequestBody },
    /// POST the body as the JSON part of a multipart form.
    Multipart { path: String, body: RequestBody },
    /// DELETE the path and answer `{"ok": true}`.
    Delete { path: String },
}

/// Why a call could not be made.
pub enum ToolError {
    MissingParams,
    MissingToolName,
    MissingArgument(String),
    UnknownTool(String),
    UnknownMethod(String),
}

pub enum BodyView {
    NewThread { title: Seq<char>, body: Option<Seq<char>>, topics: Seq<Seq<char>>, agent: Option<Seq<char>> },
    NewPost { thread_id: Seq<char>, body: Seq<char>, parent_post_ids: Seq<Seq<char>>, agent: Option<Seq<char>> },
    Emoji { emoji: Seq<char> },
    Friendcode { friendcode: Seq<char> },
    DirectMessage { to_peer_id: Seq<char>, body: Seq<char> },
    BlockReason { reason: Option<Seq<char>> },
}

pub enum CallView {
    Get { path: Seq<char> },
    LatestPosts { path: Seq<char>, n: usize },
    Parents { path: Seq<char>, post_id: Seq<char> },
    Post { path: Seq<char>, body: BodyView },
    Multipart { path: Seq<char>, body: BodyView },
    Delete { path: Seq<char> },
}

pub enum FailView {
    MissingParams,
    MissingToolName,
    MissingArgument(Seq<char>),
    UnknownTool(Seq<char>),
    UnknownMethod(Seq<char>),
}

pub open spec fn text_opt(s: Option<String>) -> Option<Seq<char>> {
    match s {
        Some(t) => Some(t@),
        None => None,
    }
}

pub open spec fn texts(v: Seq<String>) -> Seq<Seq<char>> {
    v.map_values(|s: String| s@)
}

impl View for RequestBody {
    type V = BodyView;

    open spec fn view(&self) -> BodyView {
        match self {
            RequestBody::NewThread { title, body, topics, agent } => BodyView::NewThread {
                title: title@,
                body: text_opt(*body),
                topics: texts(topics@),
                agent: text_opt(*agent),
            },
            RequestBody::NewPost { thread_id, body, parent_post_ids, agent } => BodyView::NewPost {
                thread_id: thread_id@,
                body: body@,
                parent_post_ids: texts(parent_post_ids@),
                agent: text_opt(*agent),
            },
            RequestBody::Emoji { emoji } => BodyView::Emoji { emoji: emoji@ },
            RequestBody::Friendcode { friendcode } => BodyView::Friendcode { friendcode: friendcode@ },
            RequestBody::DirectMessage { to_peer_id, body } => BodyView::DirectMessage {
                to_peer_id: to_peer_id@,
                body: body@,
            },
            RequestBody::BlockReason { reason } => BodyView::BlockReason { reason: text_opt(*reason) },
        }
    }
}

impl View for ToolCall {
    type V = CallView;

    open spec fn view(&self) -> CallView {
        match self {
            ToolCall::Get { path } => CallView::Get { path: path@ },
            ToolCall::LatestPosts { path, n } => CallView::LatestPosts { path: path@, n: *n },
            ToolCall::Parents { path, post_id } => CallView::Parents { path: path@, post_id: post_id@ },
            ToolCall::Post { path, body } => CallView::Post { path: path@, body: body@ },
            ToolCall::Multipart { path, body } => CallView::Multipart { path: path@, body: body@ },
            ToolCall::Delete { path } => CallView::Delete { path: path@ },
        }
    }
}

impl View for ToolError {
    type V = FailView;

    open spec fn view(&self) -> FailView {
        match self {
            ToolError::MissingParams => FailView::MissingParams,
            ToolError::MissingToolName => FailView::MissingToolName,
            ToolError::MissingArgument(n) => FailView::MissingArgument(n@),
            ToolError::UnknownTool(n) => FailView::UnknownTool(n@),
            ToolError::UnknownMethod(m) => FailView::UnknownMethod(m@),
        }
    }
}

/// The text of a failure, as the server reports it.
pub open spec fn failure_text(f: FailView) -> Seq<char> {
    match f {
        FailView::MissingParams => "missing params"@,
        FailView::MissingToolName => "missing tool name"@,
        FailView::MissingArgument(n) => "missing or non-string argument '"@ + n + "'"@,
        FailView::UnknownTool(n) => "tool '"@ + n + "' not found"@,
        FailView::UnknownMethod(m) => "method '"@ + m + "' not found"@,
    }
}

impl ToolError {
    /// The text of the failure.
    pub fn message(&self) -> (r: String)
        ensures
            r@ == failure_text(self@),
    {
        match self {
            ToolError::MissingParams => "missing params".to_owned(),
            ToolError::MissingToolName => "missing tool name".to_owned(),
            ToolError::MissingArgument(n) => {
                let mut r = "missing or non-string argument '".to_owned();
                append_text(&mut r, n.as_str());
                append_text(&mut r, "'");
                r
            },
            ToolError::UnknownTool(n) => {
                let mut r = "tool '".to_owned();
                append_text(&mut r, n.as_str());
                append_text(&mut r, "' not found");
                r
            },
            ToolError::UnknownMethod(m) => {
                let mut r = "method '".to_owned();
                append_text(&mut r, m.as_str());
                append_text(&mut r, "' not found");
                r
            },
        }
    }
}

/// The value of the first argument named `key`.
pub open spec fn lookup(args: Seq<Argument>, key: Seq<char>) -> Option<ArgValue>
    decreases args.len(),
{
    if args.len() == 0 {
        None
    } else if args[0].key@ == key {
        Some(args[0].value)
    } else {
        lookup(args.drop_first(), key)
    }
}

/// The argument `key` when it is text.
pub open spec fn text_arg(args: Seq<Argument>, key: Seq<char>) -> Option<Seq<char>> {
    match lookup(args, key) {
        Some(ArgValue::Text(s)) => Some(s@),
        _ => None,
    }
}

/// The argument `key` when it is an unsigned integer, else `default`.
pub open spec fn count_arg(args: Seq<Argument>, key: Seq<char>, default: u64) -> u64 {
    match lookup(args, key) {
        Some(ArgValue::Unsigned(n)) => n,
        _ => default,
    }
}

/// The text items of a list.
pub open spec fn text_items(items: Seq<Option<String>>) -> Seq<Seq<char>>
    decreases items.len(),
{
    if items.len() == 0 {
        Seq::empty()
    } else {
        match items.last() {
            Some(s) => text_items(items.drop_last()).push(s@),
            None => text_items(items.drop_last()),
        }
    }
}

/// The text items of the argument `key` when it is a list, else none.
pub open spec fn texts_arg(args: Seq<Argument>, key: Seq<char>) -> Seq<Seq<char>> {
    match lookup(args, key) {
        Some(ArgValue::List(items)) => text_items(items@),
        _ => Seq::empty(),
    }
}

fn find_arg<'a>(args: &'a Vec<Argument>, key: &str) -> (r: Option<&'a ArgValue>)
    ensures
        match r {
            Some(v) => lookup(args@, key@) == Some(*v),
            None => lookup(args@, key@) is None,
        },
{
    let mut i: usize = 0;
    assert(args@.subrange(0, args@.len() as int) =~= args@);
    while i < args.len()
        invariant
            i <= args@.len(),
            lookup(args@, key@) == lookup(args@.subrange(i as int, args@.len() as int), key@),
        decreases args@.len() - i,
    {
        let ghost rest = args@.subrange(i as int, args@.len() as int);
        assert(rest[0] == args@[i as int]);
        if text_equals(args[i].key.as_str(), key) {
            return Some(&args[i].value);
        }
        assert(rest.drop_first() =~= args@.subrange(i + 1, args@.len() as int));
        i = i + 1;
    }
    None
}

fn text_argument(args: &Vec<Argument>, key: &str) -> (r: Option<String>)
    ensures
        text_opt(r) == text_arg(args@, key@),
{
    match find_arg(args, key) {
        Some(ArgValue::Text(s)) => Some(s.clone()),
        _ => None,
    }
}

fn count_argument(args: &Vec<Argument>, key: &str, default: u64) -> (r: u64)
    ensures
        r == count_arg(args@, key@, default),
{
    match find_arg(args, key) {
        Some(ArgValue::Unsigned(n)) => *n,
        _ => default,
    }
}

fn texts_argument(args: &Vec<Argument>, key: &str) -> (r: Vec<String>)
    ensures
        texts(r@) == texts_arg(args@, key@),
{
    let mut r: Vec<String> = Vec::new();
    match find_arg(args, key) {
        Some(ArgValue::List(items)) => {
            let mut i: usize = 0;
            while i < items.len()
                invariant
                    i <= items@.len(),
                    texts(r@) == text_items(items@.subrange(0, i as int)),
                decreases items@.len() - i,
            {
                assert(items@.subrange(0, i + 1).drop_last() =~= items@.subrange(0, i as int));
                match &items[i] {
                    Some(s) => {
                        r.push(s.clone());
                    },
                    None => {},
                }
                assert(texts(r@) =~= text_items(items@.subrange(0, i + 1)));
                i = i + 1;
            }
            assert(items@.subrange(0, items@.len() as int) =~= items@);
        },
        _ => {
            assert(texts(r@) =~= Seq::<Seq<char>>::empty());
        },
    }
    r
}

pub open spec fn missing(key: Seq<char>) -> Result<CallView, FailView> {
    Err(FailView::MissingArgument(key))
}

/// The calls of the reading tools, or `None` for another name.
pub open spec fn reading_plan(name: Seq<char>, args: Seq<Argument>) -> Option<Result<CallView, FailView>> {
    if name == "list_threads"@ {
        Some(Ok(CallView::Get { path: "/threads?limit="@ + decimal(count_arg(args, "limit"@, 50) as nat) }))
    } else if name == "read_thread"@ {
        Some(
            match text_arg(args, "thread_id"@) {
                Some(t) => Ok(CallView::Get { path: "/threads/"@ + t }),
                None => missing("thread_id"@),
            },
        )
    } else if name == "read_latest_posts"@ {
        Some(
            match text_arg(args, "thread_id"@) {
                Some(t) => Ok(CallView::LatestPosts { path: "/threads/"@ + t, n: count_arg(args, "n"@, 10) as usize }),
                None => missing("thread_id"@),
            },
        )
    } else if name == "read_recent_posts"@ {
        Some(Ok(CallView::Get { path: "/posts/recent?limit="@ + decimal(count_arg(args, "limit"@, 50) as nat) }))
    } else if name == "read_parents"@ {
        Some(
            match text_arg(args, "thread_id"@) {
                Some(t) => match text_arg(args, "post_id"@) {
                    Some(p) => Ok(CallView::Parents { path: "/threads/"@ + t, post_id: p }),
                    None => missing("post_id"@),
                },
                None => missing("thread_id"@),
            },
        )
    } else if name == "search"@ {
        Some(
            match text_arg(args, "query"@) {
                Some(q) => Ok(
                    CallView::Get {
                        path: "/search?q="@ + percent_encoded(vstd::utf8::encode_utf8(q)) + "&limit="@ + decimal(
                            count_arg(args, "limit"@, 20) as nat,
                        ),
                    },
                ),
                None => missing("query"@),
            },
        )
    } else {
        None
    }
}

/// The calls of the writing tools, or `None` for another name.
pub open spec fn writing_plan(name: Seq<char>, args: Seq<Argument>) -> Option<Result<CallView, FailView>> {
    if name == "create_thread"@ {
        Some(
            match text_arg(args, "title"@) {
                Some(t) => Ok(
                    CallView::Multipart {
                        path: "/threads"@,
                        body: BodyView::NewThread {
                            title: t,
                            body: text_arg(args, "body"@),
                            topics: texts_arg(args, "topics"@),
                            agent: text_arg(args, "agent_name"@),
                        },
                    },
                ),
                None => missing("title"@),
            },
        )
    } else if name == "create_post"@ {
        Some(
            match text_arg(args, "thread_id"@) {
                Some(t) => match text_arg(args, "body"@) {
                    Some(b) => Ok(
                        CallView::Post {
                            path: "/threads/"@ + t + "/posts"@,
                            body: BodyView::NewPost {
                                thread_id: t,
                                body: b,
                                parent_post_ids: texts_arg(args, "parent_post_ids"@),
                                agent: text_arg(args, "agent_name"@),
                            },
                        },
                    ),
                    None => missing("body"@),
                },
                None => missing("thread_id"@),
            },
        )
    } else if name == "react"@ || name == "unreact"@ {
        Some(
            match text_arg(args, "post_id"@) {
                Some(p) => match text_arg(args, "emoji"@) {
                    Some(e) => Ok(
                        CallView::Post {
                            path: "/posts/"@ + p + if name == "react"@ {
                                "/react"@
                            } else {
                                "/unreact"@
                            },
                            body: BodyView::Emoji { emoji: e },
                        },
                    ),
                    None => missing("emoji"@),
                },
                None => missing("post_id"@),
            },
        )
    } else {
        None
    }
}

/// The calls of the peer, message, moderation and health tools, or `None` for another name.
pub open spec fn network_plan(name: Seq<char>, args: Seq<Argument>) -> Option<Result<CallView, FailView>> {
    if name == "get_self"@ {
        Some(Ok(CallView::Get { path: "/peers/self"@ }))
    } else if name == "list_peers"@ {
        Some(Ok(CallView::Get { path: "/peers"@ }))
    } else if name == "add_peer"@ {
        Some(
            match text_arg(args, "friendcode"@) {
                Some(f) => Ok(CallView::Post { path: "/peers"@, body: BodyView::Friendcode { friendcode: f } }),
                None => missing("friendcode"@),
            },
        )
    } else if name == "list_conversations"@ {
        Some(Ok(CallView::Get { path: "/dms/conversations"@ }))
    } else if name == "read_messages"@ {
        Some(
            match text_arg(args, "peer_id"@) {
                Some(p) => Ok(
                    CallView::Get {
                        path: "/dms/"@ + p + "/messages?limit="@ + decimal(count_arg(args, "limit"@, 50) as nat),
                    },
                ),
                None => missing("peer_id"@),
            },
        )
    } else if name == "send_dm"@ {
        Some(
            match text_arg(args, "to_peer_id"@) {
                Some(t) => match text_arg(args, "body"@) {
                    Some(b) => Ok(CallView::Post { path: "/dms/send"@, body: BodyView::DirectMessage { to_peer_id: t, body: b } }),
                    None => missing("body"@),
                },
                None => missing("to_peer_id"@),
            },
        )
    } else if name == "get_unread_count"@ {
        Some(Ok(CallView::Get { path: "/dms/unread/count"@ }))
    } else if name == "block_peer"@ {
        Some(
            match text_arg(args, "peer_id"@) {
                Some(p) => Ok(
                    CallView::Post {
                        path: "/blocking/peers/"@ + p,
                        body: BodyView::BlockReason { reason: text_arg(args, "reason"@) },
                    },
                ),
                None => missing("peer_id"@),
            },
        )
    } else if name == "unblock_peer"@ {
        Some(
            match text_arg(args, "peer_id"@) {
                Some(p) => Ok(CallView::Delete { path: "/blocking/peers/"@ + p }),
                None => missing("peer_id"@),
            },
        )
    } else if name == "list_blocked_peers"@ {
        Some(Ok(CallView::Get { path: "/blocking/peers"@ }))
    } else if name == "health"@ {
        Some(Ok(CallView::Get { path: "/health"@ }))
    } else {
        None
    }
}

/// The call that the tool `name` makes with `args`, or why it cannot be made.
pub open spec fn planned_call(name: Seq<char>, args: Seq<Argument>) -> Result<CallView, FailView> {
    match reading_plan(name, args) {
        Some(r) => r,
        None => match writing_plan(name, args) {
            Some(r) => r,
            None => match network_plan(name, args) {
                Some(r) => r,
                None => Err(FailView::UnknownTool(name)),
            },
        },
    }
}

pub open spec fn outcome(r: Result<ToolCall, ToolError>) -> Result<CallView, FailView> {
    match r {
        Ok(c) => Ok(c@),
        Err(e) => Err(e@),
    }
}

pub open spec fn maybe_outcome(r: Option<Result<ToolCall, ToolError>>) -> Option<Result<CallView, FailView>> {
    match r {
        Some(x) => Some(outcome(x)),
        None => None,
    }
}

fn text(s: &str) -> (r: String)
    ensures
        r@ == s@,
{
    s.to_owned()
}

fn joined(a: &str, b: &str) -> (r: String)
    ensures
        r@ == a@ + b@,
{
    let mut r = a.to_owned();
    append_text(&mut r, b);
    r
}

fn with_count(prefix: &str, n: u64) -> (r: String)
    ensures
        r@ == prefix@ + decimal(n as nat),
{
    let mut r = prefix.to_owned();
    append_decimal(&mut r, n);
    r
}

fn lacking(key: &str) -> (r: Result<ToolCall, ToolError>)
    ensures
        outcome(r) == missing(key@),
{
    Err(ToolError::MissingArgument(key.to_owned()))
}

fn reading_call(name: &str, args: &Vec<Argument>) -> (r: Option<Result<ToolCall, ToolError>>)
    ensures
        maybe_outcome(r) == reading_plan(name@, args@),
{
    if text_equals(name, "list_threads") {
        Some(Ok(ToolCall::Get { path: with_count("/threads?limit=", count_argument(args, "limit", 50)) }))
    } else if text_equals(name, "read_thread") {
        Some(
            match text_argument(args, "thread_id") {
                Some(t) => Ok(ToolCall::Get { path: joined("/threads/", t.as_str()) }),
                None => lacking("thread_id"),
            },
        )
    } else if text_equals(name, "read_latest_posts") {
        Some(
            match text_argument(args, "thread_id") {
                Some(t) => Ok(
                    ToolCall::LatestPosts {
                        path: joined("/threads/", t.as_str()),
                        n: count_argument(args, "n", 10) as usize,
                    },
                ),
                None => lacking("thread_id"),
            },
        )
    } else if text_equals(name, "read_recent_posts") {
        Some(Ok(ToolCall::Get { path: with_count("/posts/recent?limit=", count_argument(args, "limit", 50)) }))
    } else if text_equals(name, "read_parents") {
        Some(
            match text_argument(args, "thread_id") {
                Some(t) => match text_argument(args, "post_id") {
                    Some(p) => Ok(ToolCall::Parents { path: joined("/threads/", t.as_str()), post_id: p }),
                    None => lacking("post_id"),
                },
                None => lacking("thread_id"),
            },
        )
    } else if text_equals(name, "search") {
        Some(
            match text_argument(args, "query") {
                Some(q) => {
                    let mut path = joined("/search?q=", urlencoding(q.as_str()).as_str());
                    append_text(&mut path, "&limit=");
                    append_decimal(&mut path, count_argument(args, "limit", 20));
                    Ok(ToolCall::Get { path })
                },
                None => lacking("query"),
            },
        )
    } else {
        None
    }
}

fn writing_call(name: &str, args: &Vec<Argument>) -> (r: Option<Result<ToolCall, ToolError>>)
    ensures
        maybe_outcome(r) == writing_plan(name@, args@),
{
    if text_equals(name, "create_thread") {
        Some(
            match text_argument(args, "title") {
                Some(t) => Ok(
                    ToolCall::Multipart {
                        path: text("/threads"),
                        body: RequestBody::NewThread {
                            title: t,
                            body: text_argument(args, "body"),
                            topics: texts_argument(args, "topics"),
                            agent: text_argument(args, "agent_name"),
                        },
                    },
                ),
                None => lacking("title"),
            },
        )
    } else if text_equals(name, "create_post") {
        Some(
            match text_argument(args, "thread_id") {
                Some(t) => match text_argument(args, "body") {
                    Some(b) => {
                        let mut path = joined("/threads/", t.as_str());
                        append_text(&mut path, "/posts");
                        Ok(
                            ToolCall::Post {
                                path,
                                body: RequestBody::NewPost {
                                    thread_id: t,
                                    body: b,
                                    parent_post_ids: texts_argument(args, "parent_post_ids"),
                                    agent: text_argument(args, "agent_name"),
                                },
                            },
                        )
                    },
                    None => lacking("body"),
                },
                None => lacking("thread_id"),
            },
        )
    } else if text_equals(name, "react") || text_equals(name, "unreact") {
        let adding = text_equals(name, "react");
        Some(
            match text_argument(args, "post_id") {
                Some(p) => match text_argument(args, "emoji") {
                    Some(e) => {
                        let mut path = joined("/posts/", p.as_str());
                        append_text(&mut path, if adding { "/react" } else { "/unreact" });
                        Ok(ToolCall::Post { path, body: RequestBody::Emoji { emoji: e } })
                    },
                    None => lacking("emoji"),
                },
                None => lacking("post_id"),
            },
        )
    } else {
        None
    }
}

fn network_call(name: &str, args: &Vec<Argument>) -> (r: Option<Result<ToolCall, ToolError>>)
    ensures
        maybe_outcome(r) == network_plan(name@, args@),
{
    if text_equals(name, "get_self") {
        Some(Ok(ToolCall::Get { path: text("/peers/self") }))
    } else if text_equals(name, "list_peers") {
        Some(Ok(ToolCall::Get { path: text("/peers") }))
    } else if text_equals(name, "add_peer") {
        Some(
            match text_argument(args, "friendcode") {
                Some(f) => Ok(ToolCall::Post { path: text("/peers"), body: RequestBody::Friendcode { friendcode: f } }),
                None => lacking("friendcode"),
            },
        )
    } else if text_equals(name, "list_conversations") {
        Some(Ok(ToolCall::Get { path: text("/dms/conversations") }))
    } else if text_equals(name, "read_messages") {
        Some(
            match text_argument(args, "peer_id") {
                Some(p) => {
                    let mut path = joined("/dms/", p.as_str());
                    append_text(&mut path, "/messages?limit=");
                    append_decimal(&mut path, count_argument(args, "limit", 50));
                    Ok(ToolCall::Get { path })
                },
                None => lacking("peer_id"),
            },
        )
    } else if text_equals(name, "send_dm") {
        Some(
            match text_argument(args, "to_peer_id") {
                Some(t) => match text_argument(args, "body") {
                    Some(b) => Ok(
                        ToolCall::Post { path: text("/dms/send"), body: RequestBody::DirectMessage { to_peer_id: t, body: b } },
                    ),
                    None => lacking("body"),
                },
                None => lacking("to_peer_id"),
            },
        )
    } else if text_equals(name, "get_unread_count") {
        Some(Ok(ToolCall::Get { path: text("/dms/unread/count") }))
    } else if text_equals(name, "block_peer") {
        Some(
            match text_argument(args, "peer_id") {
                Some(p) => Ok(
                    ToolCall::Post {
                        path: joined("/blocking/peers/", p.as_str()),
                        body: RequestBody::BlockReason { reason: text_argument(args, "reason") },
                    },
                ),
                None => lacking("peer_id"),
            },
        )
    } else if text_equals(name, "unblock_peer") {
        Some(
            match text_argument(args, "peer_id") {
                Some(p) => Ok(ToolCall::Delete { path: joined("/blocking/peers/", p.as_str()) }),
                None => lacking("peer_id"),
            },
        )
    } else if text_equals(name, "list_blocked_peers") {
        Some(Ok(ToolCall::Get { path: text("/blocking/peers") }))
    } else if text_equals(name, "health") {
        Some(Ok(ToolCall::Get { path: text("/health") }))
    } else {
        None
    }
}

/// What a tool call asks for, given the call's parameters.
pub open spec fn call_plan(params: Option<ToolParams>) -> Result<CallView, FailView> {
    match params {
        None => Err(FailView::MissingParams),
        Some(p) => match p.name {
            None => Err(FailView::MissingToolName),
            Some(n) => planned_call(n@, p.arguments@),
        },
    }
}

/// Turns the parameters of a tool call into the request it makes.
pub fn call_tool(params: &Option<ToolParams>) -> (r: Result<ToolCall, ToolError>)
    ensures
        outcome(r) == call_plan(*params),
{
    let p = match params {
        Some(p) => p,
        None => {
            return Err(ToolError::MissingParams);
        },
    };
    let name = match &p.name {
        Some(n) => n.as_str(),
        None => {
            return Err(ToolError::MissingToolName);
        },
    };
    match reading_call(name, &p.arguments) {
        Some(r) => r,
        None => match writing_call(name, &p.arguments) {
            Some(r) => r,
            None => match network_call(name, &p.arguments) {
                Some(r) => r,
                None => Err(ToolError::UnknownTool(name.to_owned())),
            },
        },
    }
}

/// What a server request asks for: the catalog, or a tool call.
pub enum Routed {
    Catalog,
    Call(ToolCall),
}

pub enum RoutedView {
    Catalog,
    Call(CallView),
}

pub open spec fn routed_outcome(r: Result<Routed, ToolError>) -> Result<RoutedView, FailView> {
    match r {
        Ok(Routed::Catalog) => Ok(RoutedView::Catalog),
        Ok(Routed::Call(c)) => Ok(RoutedView::Call(c@)),
        Err(e) => Err(e@),
    }
}

/// What the method `method` asks for.
pub open spec fn route_plan(method: Seq<char>, params: Option<ToolParams>) -> Result<RoutedView, FailView> {
    if method == "mcp.list_tools"@ {
        Ok(RoutedView::Catalog)
    } else if method == "mcp.call_tool"@ {
        match call_plan(params) {
            Ok(c) => Ok(RoutedView::Call(c)),
            Err(e) => Err(e),
        }
    } else {
        Err(FailView::UnknownMethod(method))
    }
}

/// Routes a server request by its method.
pub fn route_request(method: &str, params: &Option<ToolParams>) -> (r: Result<Routed, ToolError>)
    ensures
        routed_outcome(r) == route_plan(method@, *params),
{
    if text_equals(method, "mcp.list_tools") {
        Ok(Routed::Catalog)
    } else if text_equals(method, "mcp.call_tool") {
        match call_tool(params) {
            Ok(c) => Ok(Routed::Call(c)),
            Err(e) => Err(e),
        }
    } else {
        Err(ToolError::UnknownMethod(method.to_owned()))
    }
}

// --- answers built from a thread ------------------------------------------------------------

/// A post of a thread as the tools read it: the text fields that are present as text, and the
/// reply targets when they are given as a list.
pub struct PostEntry {
    pub id: Option<String>,
    pub created_at: Option<String>,
    pub parent_post_ids: Option<Vec<Option<String>>>,
}

/// The creation time of a post as text; a post without one counts as the empty text.
pub open spec fn created_text(p: PostEntry) -> Seq<char> {
    match p.created_at {
        Some(s) => s@,
        None => Seq::empty(),
    }
}

/// Newest first: `a` goes before `b` when it was created strictly later.
pub open spec fn newer_first(posts: Seq<PostEntry>) -> spec_fn(int, int) -> bool {
    |a: int, b: int| text_lt(created_text(posts[b]), created_text(posts[a]))
}

/// The positions of the `n` newest posts, newest first; posts created at the same time keep
/// their order.
pub open spec fn latest_positions(posts: Seq<PostEntry>, n: nat) -> Seq<int> {
    let order = stable_sorted(newer_first(posts), Seq::new(posts.len(), |i: int| i));
    if n < order.len() {
        order.take(n as int)
    } else {
        order
    }
}

/// The positions of the `n` newest posts of a thread, newest first.
pub fn latest_posts(posts: &Vec<PostEntry>, n: usize) -> (r: Vec<usize>)
    ensures
        r@.map_values(|i: usize| i as int) == latest_positions(posts@, n as nat),
{
    let len = posts.len();
    let mut keys: Vec<String> = Vec::new();
    let mut items: Vec<usize> = Vec::new();
    let mut i: usize = 0;
    while i < len
        invariant
            len == posts@.len(),
            i <= len,
            keys@.len() == i,
            items@.len() == i,
            forall|k: int| 0 <= k < i ==> #[trigger] keys@[k]@ == created_text(posts@[k]),
            forall|k: int| 0 <= k < i ==> #[trigger] items@[k] == k,
        decreases len - i,
    {
        let key = match &posts[i].created_at {
            Some(s) => s.clone(),
            None => String::new(),
        };
        keys.push(key);
        items.push(i);
        i = i + 1;
    }
    let mut order = stable_sort(&keys, &items, true);
    proof {
        let all = items@.map_values(|i: usize| i as int);
        assert(all =~= Seq::new(posts@.len(), |i: int| i));
        assert forall|x: int, y: int| all.contains(x) && all.contains(y) implies key_order(keys@, true)(x, y)
            == newer_first(posts@)(x, y) by {
            let px = choose|px: int| 0 <= px < all.len() && all[px] == x;
            let py = choose|py: int| 0 <= py < all.len() && all[py] == y;
            assert(keys@[x]@ == created_text(posts@[x]));
            assert(keys@[y]@ == created_text(posts@[y]));
        }
        lemma_stable_sorted_congruent(key_order(keys@, true), newer_first(posts@), all);
        lemma_stable_sorted_members(newer_first(posts@), all);
    }
    let ghost whole = order@.map_values(|i: usize| i as int);
    if n < order.len() {
        order.truncate(n);
        assert(order@.map_values(|i: usize| i as int) =~= whole.take(n as int));
    }
    order
}

/// The position of the first post whose id is `id`.
pub open spec fn entry_with_id(posts: Seq<PostEntry>, id: Seq<char>, n: int) -> Option<int>
    decreases n,
{
    if n <= 0 {
        None
    } else {
        match entry_with_id(posts, id, n - 1) {
            Some(i) => Some(i),
            None => match posts[n - 1].id {
                Some(s) => if s@ == id {
                    Some(n - 1)
                } else {
                    None
                },
                None => None,
            },
        }
    }
}

/// The ids that the first post with id `id` answers.
pub open spec fn wanted_parents(posts: Seq<PostEntry>, id: Seq<char>) -> Seq<Seq<char>> {
    match entry_with_id(posts, id, posts.len() as int) {
        Some(i) => match posts[i].parent_post_ids {
            Some(items) => text_items(items@),
            None => Seq::empty(),
        },
        None => Seq::empty(),
    }
}

/// The positions below `n`, in order, of the posts whose id is among `ids`.
pub open spec fn positions_among(posts: Seq<PostEntry>, ids: Seq<Seq<char>>, n: int) -> Seq<int>
    decreases n,
{
    if n <= 0 {
        Seq::empty()
    } else {
        let rest = positions_among(posts, ids, n - 1);
        match posts[n - 1].id {
            Some(s) => if ids.contains(s@) {
                rest.push(n - 1)
            } else {
                rest
            },
            None => rest,
        }
    }
}

/// The positions, in thread order, of the posts that the first post with id `post_id` answers.
pub fn parent_entries(posts: &Vec<PostEntry>, post_id: &str) -> (r: Vec<usize>)
    ensures
        r@.map_values(|i: usize| i as int) == positions_among(
            posts@,
            wanted_parents(posts@, post_id@),
            posts@.len() as int,
        ),
{
    let len = posts.len();
    let mut target: Option<usize> = None;
    let mut i: usize = 0;
    while i < len
        invariant
            len == posts@.len(),
            i <= len,
            match target {
                Some(t) => t < i && entry_with_id(posts@, post_id@, i as int) == Some(t as int),
                None => entry_with_id(posts@, post_id@, i as int) is None,
            },
        decreases len - i,
    {
        if target.is_none() {
            match &posts[i].id {
                Some(s) => {
                    if text_equals(s.as_str(), post_id) {
                        target = Some(i);
                    }
                },
                None => {},
            }
        }
        i = i + 1;
    }
    let mut wanted: Vec<String> = Vec::new();
    match target {
        Some(t) => match &posts[t].parent_post_ids {
            Some(items) => {
                let mut k: usize = 0;
                while k < items.len()
                    invariant
                        k <= items@.len(),
                        texts(wanted@) == text_items(items@.subrange(0, k as int)),
                    decreases items@.len() - k,
                {
                    assert(items@.subrange(0, k + 1).drop_last() =~= items@.subrange(0, k as int));
                    match &items[k] {
                        Some(s) => {
                            wanted.push(s.clone());
                        },
                        None => {},
                    }
                    assert(texts(wanted@) =~= text_items(items@.subrange(0, k + 1)));
                    k = k + 1;
                }
                assert(items@.subrange(0, items@.len() as int) =~= items@);
            },
            None => {
                assert(texts(wanted@) =~= Seq::<Seq<char>>::empty());
            },
        },
        None => {
            assert(texts(wanted@) =~= Seq::<Seq<char>>::empty());
        },
    }
    let ghost ids = texts(wanted@);
    assert(ids == wanted_parents(posts@, post_id@));
    let mut r: Vec<usize> = Vec::new();
    let mut q: usize = 0;
    while q < len
        invariant
            len == posts@.len(),
            q <= len,
            ids == texts(wanted@),
            r@.map_values(|i: usize| i as int) == positions_among(posts@, ids, q as int),
        decreases len - q,
    {
        match &posts[q].id {
            Some(s) => {
                if text_among(s.as_str(), &wanted) {
                    r.push(q);
                    assert(r@.map_values(|i: usize| i as int) =~= positions_among(posts@, ids, q as int).push(q as int));
                }
            },
            None => {},
        }
        q = q + 1;
    }
    r
}

/// Whether `s` is one of `list`.
fn text_among(s: &str, list: &Vec<String>) -> (r: bool)
    ensures
        r == texts(list@).contains(s@),
{
    let mut i: usize = 0;
    while i < list.len()
        invariant
            i <= list@.len(),
            forall|k: int| 0 <= k < i ==> list@[k]@ != s@,
        decreases list@.len() - i,
    {
        if text_equals(list[i].as_str(), s) {
            assert(texts(list@)[i as int] == s@);
            return true;
        }
        i = i + 1;
    }
    proof {
        if texts(list@).contains(s@) {
            let k = choose|k: int| 0 <= k < texts(list@).len() && texts(list@)[k] == s@;
            assert(list@[k]@ == s@);
        }
    }
    false
}

// --- JSON-RPC framing --------------------------------------------------------------------

/// The JSON-RPC code for a failure: "method not found" when its message says that something
/// was not found, "internal error" otherwise.
pub open spec fn error_code_of(message: Seq<char>) -> int {
    if occurs_in(message, "not found"@) {
        -32601
    } else {
        -32603
    }
}

/// The JSON-RPC code for a failure with the given message.
pub fn error_code(message: &str) -> (r: i32)
    ensures
        r == error_code_of(message@),
{
    if text_contains(message, "not found") {
        -32601
    } else {
        -32603
    }
}

// --- laws of the tool server --------------------------------------------------------------

/// The name of the first required parameter, from the `k`-th on, that `args` lacks as a text.
pub open spec fn first_absent_from(params: Seq<ParamView>, args: Seq<Argument>, k: int) -> Option<Seq<char>>
    decreases params.len() - k,
{
    if k < 0 || k >= params.len() {
        None
    } else if params[k].required && text_arg(args, params[k].name) is None {
        Some(params[k].name)
    } else {
        first_absent_from(params, args, k + 1)
    }
}

/// The name of the first required parameter that `args` lacks as a text, if any.
pub open spec fn first_absent(params: Seq<ParamView>, args: Seq<Argument>) -> Option<Seq<char>> {
    first_absent_from(params, args, 0)
}

/// Every tool of the catalog is one that the server can call: no catalog name is refused as
/// an unknown tool, whatever the arguments.
pub proof fn lemma_catalog_tools_known(i: int, args: Seq<Argument>)
    requires
        0 <= i < tool_catalog().len(),
    ensures
        !(planned_call(tool_catalog()[i].name, args) matches Err(FailView::UnknownTool(_))),
{
    reveal_strlit("list_threads");
    reveal_strlit("read_thread");
    reveal_strlit("read_latest_posts");
    reveal_strlit("read_recent_posts");
    reveal_strlit("read_parents");
    reveal_strlit("search");
    reveal_strlit("create_thread");
    reveal_strlit("create_post");
    reveal_strlit("react");
    reveal_strlit("unreact");
    reveal_strlit("get_self");
    reveal_strlit("list_peers");
    reveal_strlit("add_peer");
    reveal_strlit("list_conversations");
    reveal_strlit("read_messages");
    reveal_strlit("send_dm");
    reveal_strlit("get_unread_count");
    reveal_strlit("block_peer");
    reveal_strlit("unblock_peer");
    reveal_strlit("list_blocked_peers");
    reveal_strlit("health");
}

proof fn lemma_required_arguments_0(args: Seq<Argument>)
    ensures
        match first_absent(tool_entry(0).params, args) {
            Some(p) => planned_call(tool_entry(0).name, args) == Err::<CallView, FailView>(FailView::MissingArgument(p)),
            None => planned_call(tool_entry(0).name, args) is Ok,
        },
{
    reveal_with_fuel(first_absent_from, 5);
    reveal_strlit("list_threads");
}

proof fn lemma_required_arguments_1(args: Seq<Argument>)
    ensures
        match first_absent(tool_entry(1).params, args) {
            Some(p) => planned_call(tool_entry(1).name, args) == Err::<CallView, FailView>(FailView::MissingArgument(p)),
            None => planned_call(tool_entry(1).name, args) is Ok,
        },
{
    reveal_with_fuel(first_absent_from, 5);
    reveal_strlit("list_threads");
    reveal_strlit("read_thread");
    assert("read_thread"@.len() != "list_threads"@.len());
}

proof fn lemma_required_arguments_2(args: Seq<Argument>)
    ensures
        match first_absent(tool_entry(2).params, args) {
            Some(p) => planned_call(tool_entry(2).name, args) == Err::<CallView, FailView>(FailView::MissingArgument(p)),
            None => planned_call(tool_entry(2).name, args) is Ok,
        },
{
    reveal_with_fuel(first_absent_from, 5);
    reveal_strlit("list_threads");
    reveal_strlit("read_thread");
    reveal_strlit("read_latest_posts");
    assert("read_latest_posts"@.len() != "list_threads"@.len());
    assert("read_latest_posts"@.len() != "read_thread"@.len());
}

proof fn lemma_required_arguments_3(args: Seq<Argument>)
    ensures
        match first_absent(tool_entry(3).params, args) {
            Some(p) => planned_call(tool_entry(3).name, args) == Err::<CallView, FailView>(FailView::MissingArgument(p)),
            None => planned_call(tool_entry(3).name, args) is Ok,
        },
{
    reveal_with_fuel(first_absent_from, 5);
    reveal_strlit("list_threads");
    reveal_strlit("read_thread");
    reveal_strlit("read_latest_posts");
    reveal_strlit("read_recent_posts");
    assert("read_recent_posts"@.len() != "list_threads"@.len());
    assert("read_recent_posts"@.len() != "read_thread"@.len());
    assert("read_recent_posts"@[5] != "read_latest_posts"@[5]);
}

proof fn lemma_required_arguments_4(args: Seq<Argument>)
    ensures
        match first_absent(tool_entry(4).params, args) {
            Some(p) => planned_call(tool_entry(4).name, args) == Err::<CallView, FailView>(FailView::MissingArgument(p)),
            None => planned_call(tool_entry(4).name, args) is Ok,
        },
{
    reveal_with_fuel(first_absent_from, 5);
    reveal_strlit("list_threads");
    reveal_strlit("read_thread");
    reveal_strlit("read_latest_posts");
    reveal_strlit("read_recent_posts");
    reveal_strlit("read_parents");
    assert("read_parents"@.len() != "read_thread"@.len());
    assert("read_parents"@.len() != "read_latest_posts"@.len());
    assert("read_parents"@.len() != "read_recent_posts"@.len());
    assert("read_parents"@[0] != "list_threads"@[0]);
}

proof fn lemma_required_arguments_5(args: Seq<Argument>)
    ensures
        match first_absent(tool_entry(5).params, args) {
            Some(p) => planned_call(tool_entry(5).name, args) == Err::<CallView, FailView>(FailView::MissingArgument(p)),
            None => planned_call(tool_entry(5).name, args) is Ok,
        },
{
    reveal_with_fuel(first_absent_from, 5);
    reveal_strlit("list_threads");
    reveal_strlit("read_thread");
    reveal_strlit("read_latest_posts");
    reveal_strlit("read_recent_posts");
    reveal_strlit("read_parents");
    reveal_strlit("search");
    assert("search"@.len() != "list_threads"@.len());
    assert("search"@.len() != "read_thread"@.len());
    assert("search"@.len() != "read_latest_posts"@.len());
    assert("search"@.len() != "read_recent_posts"@.len());
    assert("search"@.len() != "read_parents"@.len());
}

proof fn lemma_required_arguments_6(args: Seq<Argument>)
    ensures
        match first_absent(tool_entry(6).params, args) {
            Some(p) => planned_call(tool_entry(6).name, args) == Err::<CallView, FailView>(FailView::MissingArgument(p)),
            None => planned_call(tool_entry(6).name, args) is Ok,
        },
{
    reveal_with_fuel(first_absent_from, 5);
    reveal_strlit("list_threads");
    reveal_strlit("read_thread");
    reveal_strlit("read_latest_posts");
    reveal_strlit("read_recent_posts");
    reveal_strlit("read_parents");
    reveal_strlit("search");
    reveal_strlit("create_thread");
    assert("create_thread"@.len() != "list_threads"@.len());
    assert("create_thread"@.len() != "read_thread"@.len());
    assert("create_thread"@.len() != "read_latest_posts"@.len());
    assert("create_thread"@.len() != "read_recent_posts"@.len());
    assert("create_thread"@.len() != "read_parents"@.len());
    assert("create_thread"@.len() != "search"@.len());
}

proof fn lemma_required_arguments_7(args: Seq<Argument>)
    ensures
        match first_absent(tool_entry(7).params, args) {
            Some(p) => planned_call(tool_entry(7).name, args) == Err::<CallView, FailView>(FailView::MissingArgument(p)),
            None => planned_call(tool_entry(7).name, args) is Ok,
        },
{
    reveal_with_fuel(first_absent_from, 5);
    reveal_strlit("list_threads");
    reveal_strlit("read_thread");
    reveal_strlit("read_latest_posts");
    reveal_strlit("read_recent_posts");
    reveal_strlit("read_parents");
    reveal_strlit("search");
    reveal_strlit("create_thread");
    reveal_strlit("create_post");
    assert("create_post"@.len() != "list_threads"@.len());
    assert("create_post"@.len() != "read_latest_posts"@.len());
    assert("create_post"@.len() != "read_recent_posts"@.len());
    assert("create_post"@.len() != "read_parents"@.len());
    assert("create_post"@.len() != "search"@.len());
    assert("create_post"@.len() != "create_thread"@.len());
    assert("create_post"@[0] != "read_thread"@[0]);
}

proof fn lemma_required_arguments_8(args: Seq<Argument>)
    ensures
        match first_absent(tool_entry(8).params, args) {
            Some(p) => planned_call(tool_entry(8).name, args) == Err::<CallView, FailView>(FailView::MissingArgument(p)),
            None => planned_call(tool_entry(8).name, args) is Ok,
        },
{
    reveal_with_fuel(first_absent_from, 5);
    reveal_strlit("list_threads");
    reveal_strlit("read_thread");
    reveal_strlit("read_latest_posts");
    reveal_strlit("read_recent_posts");
    reveal_strlit("read_parents");
    reveal_strlit("search");
    reveal_strlit("create_thread");
    reveal_strlit("create_post");
    reveal_strlit("react");
    assert("react"@.len() != "list_threads"@.len());
    assert("react"@.len() != "read_thread"@.len());
    assert("react"@.len() != "read_latest_posts"@.len());
    assert("react"@.len() != "read_recent_posts"@.len());
    assert("react"@.len() != "read_parents"@.len());
    assert("react"@.len() != "search"@.len());
    assert("react"@.len() != "create_thread"@.len());
    assert("react"@.len() != "create_post"@.len());
}

proof fn lemma_required_arguments_9(args: Seq<Argument>)
    ensures
        match first_absent(tool_entry(9).params, args) {
            Some(p) => planned_call(tool_entry(9).name, args) == Err::<CallView, FailView>(FailView::MissingArgument(p)),
            None => planned_call(tool_entry(9).name, args) is Ok,
        },
{
    reveal_with_fuel(first_absent_from, 5);
    reveal_strlit("list_threads");
    reveal_strlit("read_thread");
    reveal_strlit("read_latest_posts");
    reveal_strlit("read_recent_posts");
    reveal_strlit("read_parents");
    reveal_strlit("search");
    reveal_strlit("create_thread");
    reveal_strlit("create_post");
    reveal_strlit("react");
    reveal_strlit("unreact");
    assert("unreact"@.len() != "list_threads"@.len());
    assert("unreact"@.len() != "read_thread"@.len());
    assert("unreact"@.len() != "read_latest_posts"@.len());
    assert("unreact"@.len() != "read_recent_posts"@.len());
    assert("unreact"@.len() != "read_parents"@.len());
    assert("unreact"@.len() != "search"@.len());
    assert("unreact"@.len() != "create_thread"@.len());
    assert("unreact"@.len() != "create_post"@.len());
    assert("unreact"@.len() != "react"@.len());
}

proof fn lemma_required_arguments_10(args: Seq<Argument>)
    ensures
        match first_absent(tool_entry(10).params, args) {
            Some(p) => planned_call(tool_entry(10).name, args) == Err::<CallView, FailView>(FailView::MissingArgument(p)),
            None => planned_call(tool_entry(10).name, args) is Ok,
        },
{
    reveal_with_fuel(first_absent_from, 5);
    reveal_strlit("list_threads");
    reveal_strlit("read_thread");
    reveal_strlit("read_latest_posts");
    reveal_strlit("read_recent_posts");
    reveal_strlit("read_parents");
    reveal_strlit("search");
    reveal_strlit("create_thread");
    reveal_strlit("create_post");
    reveal_strlit("react");
    reveal_strlit("unreact");
    reveal_strlit("get_self");
    assert("get_self"@.len() != "list_threads"@.len());
    assert("get_self"@.len() != "read_thread"@.len());
    assert("get_self"@.len() != "read_latest_posts"@.len());
    assert("get_self"@.len() != "read_recent_posts"@.len());
    assert("get_self"@.len() != "read_parents"@.len());
    assert("get_self"@.len() != "search"@.len());
    assert("get_self"@.len() != "create_thread"@.len());
    assert("get_self"@.len() != "create_post"@.len());
    assert("get_self"@.len() != "react"@.len());
    assert("get_self"@.len() != "unreact"@.len());
}

proof fn lemma_required_arguments_11(args: Seq<Argument>)
    ensures
        match first_absent(tool_entry(11).params, args) {
            Some(p) => planned_call(tool_entry(11).name, args) == Err::<CallView, FailView>(FailView::MissingArgument(p)),
            None => planned_call(tool_entry(11).name, args) is Ok,
        },
{
    reveal_with_fuel(first_absent_from, 5);
    reveal_strlit("list_threads");
    reveal_strlit("read_thread");
    reveal_strlit("read_latest_posts");
    reveal_strlit("read_recent_posts");
    reveal_strlit("read_parents");
    reveal_strlit("search");
    reveal_strlit("create_thread");
    reveal_strlit("create_post");
    reveal_strlit("react");
    reveal_strlit("unreact");
    reveal_strlit("get_self");
    reveal_strlit("list_peers");
    assert("list_peers"@.len() != "list_threads"@.len());
    assert("list_peers"@.len() != "read_thread"@.len());
    assert("list_peers"@.len() != "read_latest_posts"@.len());
    assert("list_peers"@.len() != "read_recent_posts"@.len());
    assert("list_peers"@.len() != "read_parents"@.len());
    assert("list_peers"@.len() != "search"@.len());
    assert("list_peers"@.len() != "create_thread"@.len());
    assert("list_peers"@.len() != "create_post"@.len());
    assert("list_peers"@.len() != "react"@.len());
    assert("list_peers"@.len() != "unreact"@.len());
    assert("list_peers"@.len() != "get_self"@.len());
}

proof fn lemma_required_arguments_12(args: Seq<Argument>)
    ensures
        match first_absent(tool_entry(12).params, args) {
            Some(p) => planned_call(tool_entry(12).name, args) == Err::<CallView, FailView>(FailView::MissingArgument(p)),
            None => planned_call(tool_entry(12).name, args) is Ok,
        },
{
    reveal_with_fuel(first_absent_from, 5);
    reveal_strlit("list_threads");
    reveal_strlit("read_thread");
    reveal_strlit("read_latest_posts");
    reveal_strlit("read_recent_posts");
    reveal_strlit("read_parents");
    reveal_strlit("search");
    reveal_strlit("create_thread");
    reveal_strlit("create_post");
    reveal_strlit("react");
    reveal_strlit("unreact");
    reveal_strlit("get_self");
    reveal_strlit("list_peers");
    reveal_strlit("add_peer");
    assert("add_peer"@.len() != "list_threads"@.len());
    assert("add_peer"@.len() != "read_thread"@.len());
    assert("add_peer"@.len() != "read_latest_posts"@.len());
    assert("add_peer"@.len() != "read_recent_posts"@.len());
    assert("add_peer"@.len() != "read_parents"@.len());
    assert("add_peer"@.len() != "search"@.len());
    assert("add_peer"@.len() != "create_thread"@.len());
    assert("add_peer"@.len() != "create_post"@.len());
    assert("add_peer"@.len() != "react"@.len());
    assert("add_peer"@.len() != "unreact"@.len());
    assert("add_peer"@.len() != "list_peers"@.len());
    assert("add_peer"@[0] != "get_self"@[0]);
}

proof fn lemma_required_arguments_13(args: Seq<Argument>)
    ensures
        match first_absent(tool_entry(13).params, args) {
            Some(p) => planned_call(tool_entry(13).name, args) == Err::<CallView, FailView>(FailView::MissingArgument(p)),
            None => planned_call(tool_entry(13).name, args) is Ok,
        },
{
    reveal_with_fuel(first_absent_from, 5);
    reveal_strlit("list_threads");
    reveal_strlit("read_thread");
    reveal_strlit("read_latest_posts");
    reveal_strlit("read_recent_posts");
    reveal_strlit("read_parents");
    reveal_strlit("search");
    reveal_strlit("create_thread");
    reveal_strlit("create_post");
    reveal_strlit("react");
    reveal_strlit("unreact");
    reveal_strlit("get_self");
    reveal_strlit("list_peers");
    reveal_strlit("add_peer");
    reveal_strlit("list_conversations");
    assert("list_conversations"@.len() != "list_threads"@.len());
    assert("list_conversations"@.len() != "read_thread"@.len());
    assert("list_conversations"@.len() != "read_latest_posts"@.len());
    assert("list_conversations"@.len() != "read_recent_posts"@.len());
    assert("list_conversations"@.len() != "read_parents"@.len());
    assert("list_conversations"@.len() != "search"@.len());
    assert("list_conversations"@.len() != "create_thread"@.len());
    assert("list_conversations"@.len() != "create_post"@.len());
    assert("list_conversations"@.len() != "react"@.len());
    assert("list_conversations"@.len() != "unreact"@.len());
    assert("list_conversations"@.len() != "get_self"@.len());
    assert("list_conversations"@.len() != "list_peers"@.len());
    assert("list_conversations"@.len() != "add_peer"@.len());
}

proof fn lemma_required_arguments_14(args: Seq<Argument>)
    ensures
        match first_absent(tool_entry(14).params, args) {
            Some(p) => planned_call(tool_entry(14).name, args) == Err::<CallView, FailView>(FailView::MissingArgument(p)),
            None => planned_call(tool_entry(14).name, args) is Ok,
        },
{
    reveal_with_fuel(first_absent_from, 5);
    reveal_strlit("list_threads");
    reveal_strlit("read_thread");
    reveal_strlit("read_latest_posts");
    reveal_strlit("read_recent_posts");
    reveal_strlit("read_parents");
    reveal_strlit("search");
    reveal_strlit("create_thread");
    reveal_strlit("create_post");
    reveal_strlit("react");
    reveal_strlit("unreact");
    reveal_strlit("get_self");
    reveal_strlit("list_peers");
    reveal_strlit("add_peer");
    reveal_strlit("list_conversations");
    reveal_strlit("read_messages");
    assert("read_messages"@.len() != "list_threads"@.len());
    assert("read_messages"@.len() != "read_thread"@.len());
    assert("read_messages"@.len() != "read_latest_posts"@.len());
    assert("read_messages"@.len() != "read_recent_posts"@.len());
    assert("read_messages"@.len() != "read_parents"@.len());
    assert("read_messages"@.len() != "search"@.len());
    assert("read_messages"@.len() != "create_post"@.len());
    assert("read_messages"@.len() != "react"@.len());
    assert("read_messages"@.len() != "unreact"@.len());
    assert("read_messages"@.len() != "get_self"@.len());
    assert("read_messages"@.len() != "list_peers"@.len());
    assert("read_messages"@.len() != "add_peer"@.len());
    assert("read_messages"@.len() != "list_conversations"@.len());
    assert("read_messages"@[0] != "create_thread"@[0]);
}

proof fn lemma_required_arguments_15(args: Seq<Argument>)
    ensures
        match first_absent(tool_entry(15).params, args) {
            Some(p) => planned_call(tool_entry(15).name, args) == Err::<CallView, FailView>(FailView::MissingArgument(p)),
            None => planned_call(tool_entry(15).name, args) is Ok,
        },
{
    reveal_with_fuel(first_absent_from, 5);
    reveal_strlit("list_threads");
    reveal_strlit("read_thread");
    reveal_strlit("read_latest_posts");
    reveal_strlit("read_recent_posts");
    reveal_strlit("read_parents");
    reveal_strlit("search");
    reveal_strlit("create_thread");
    reveal_strlit("create_post");
    reveal_strlit("react");
    reveal_strlit("unreact");
    reveal_strlit("get_self");
    reveal_strlit("list_peers");
    reveal_strlit("add_peer");
    reveal_strlit("list_conversations");
    reveal_strlit("read_messages");
    reveal_strlit("send_dm");
    assert("send_dm"@.len() != "list_threads"@.len());
    assert("send_dm"@.len() != "read_thread"@.len());
    assert("send_dm"@.len() != "read_latest_posts"@.len());
    assert("send_dm"@.len() != "read_recent_posts"@.len());
    assert("send_dm"@.len() != "read_parents"@.len());
    assert("send_dm"@.len() != "search"@.len());
    assert("send_dm"@.len() != "create_thread"@.len());
    assert("send_dm"@.len() != "create_post"@.len());
    assert("send_dm"@.len() != "react"@.len());
    assert("send_dm"@.len() != "get_self"@.len());
    assert("send_dm"@.len() != "list_peers"@.len());
    assert("send_dm"@.len() != "add_peer"@.len());
    assert("send_dm"@.len() != "list_conversations"@.len());
    assert("send_dm"@.len() != "read_messages"@.len());
    assert("send_dm"@[0] != "unreact"@[0]);
}

proof fn lemma_required_arguments_16(args: Seq<Argument>)
    ensures
        match first_absent(tool_entry(16).params, args) {
            Some(p) => planned_call(tool_entry(16).name, args) == Err::<CallView, FailView>(FailView::MissingArgument(p)),
            None => planned_call(tool_entry(16).name, args) is Ok,
        },
{
    reveal_with_fuel(first_absent_from, 5);
    reveal_strlit("list_threads");
    reveal_strlit("read_thread");
    reveal_strlit("read_latest_posts");
    reveal_strlit("read_recent_posts");
    reveal_strlit("read_parents");
    reveal_strlit("search");
    reveal_strlit("create_thread");
    reveal_strlit("create_post");
    reveal_strlit("react");
    reveal_strlit("unreact");
    reveal_strlit("get_self");
    reveal_strlit("list_peers");
    reveal_strlit("add_peer");
    reveal_strlit("list_conversations");
    reveal_strlit("read_messages");
    reveal_strlit("send_dm");
    reveal_strlit("get_unread_count");
    assert("get_unread_count"@.len() != "list_threads"@.len());
    assert("get_unread_count"@.len() != "read_thread"@.len());
    assert("get_unread_count"@.len() != "read_latest_posts"@.len());
    assert("get_unread_count"@.len() != "read_recent_posts"@.len());
    assert("get_unread_count"@.len() != "read_parents"@.len());
    assert("get_unread_count"@.len() != "search"@.len());
    assert("get_unread_count"@.len() != "create_thread"@.len());
    assert("get_unread_count"@.len() != "create_post"@.len());
    assert("get_unread_count"@.len() != "react"@.len());
    assert("get_unread_count"@.len() != "unreact"@.len());
    assert("get_unread_count"@.len() != "get_self"@.len());
    assert("get_unread_count"@.len() != "list_peers"@.len());
    assert("get_unread_count"@.len() != "add_peer"@.len());
    assert("get_unread_count"@.len() != "list_conversations"@.len());
    assert("get_unread_count"@.len() != "read_messages"@.len());
    assert("get_unread_count"@.len() != "send_dm"@.len());
}

proof fn lemma_required_arguments_17(args: Seq<Argument>)
    ensures
        match first_absent(tool_entry(17).params, args) {
            Some(p) => planned_call(tool_entry(17).name, args) == Err::<CallView, FailView>(FailView::MissingArgument(p)),
            None => planned_call(tool_entry(17).name, args) is Ok,
        },
{
    reveal_with_fuel(first_absent_from, 5);
    reveal_strlit("list_threads");
    reveal_strlit("read_thread");
    reveal_strlit("read_latest_posts");
    reveal_strlit("read_recent_posts");
    reveal_strlit("read_parents");
    reveal_strlit("search");
    reveal_strlit("create_thread");
    reveal_strlit("create_post");
    reveal_strlit("react");
    reveal_strlit("unreact");
    reveal_strlit("get_self");
    reveal_strlit("list_peers");
    reveal_strlit("add_peer");
    reveal_strlit("list_conversations");
    reveal_strlit("read_messages");
    reveal_strlit("send_dm");
    reveal_strlit("get_unread_count");
    reveal_strlit("block_peer");
    assert("block_peer"@.len() != "list_threads"@.len());
    assert("block_peer"@.len() != "read_thread"@.len());
    assert("block_peer"@.len() != "read_latest_posts"@.len());
    assert("block_peer"@.len() != "read_recent_posts"@.len());
    assert("block_peer"@.len() != "read_parents"@.len());
    assert("block_peer"@.len() != "search"@.len());
    assert("block_peer"@.len() != "create_thread"@.len());
    assert("block_peer"@.len() != "create_post"@.len());
    assert("block_peer"@.len() != "react"@.len());
    assert("block_peer"@.len() != "unreact"@.len());
    assert("block_peer"@.len() != "get_self"@.len());
    assert("block_peer"@.len() != "add_peer"@.len());
    assert("block_peer"@.len() != "list_conversations"@.len());
    assert("block_peer"@.len() != "read_messages"@.len());
    assert("block_peer"@.len() != "send_dm"@.len());
    assert("block_peer"@.len() != "get_unread_count"@.len());
    assert("block_peer"@[0] != "list_peers"@[0]);
}

proof fn lemma_required_arguments_18(args: Seq<Argument>)
    ensures
        match first_absent(tool_entry(18).params, args) {
            Some(p) => planned_call(tool_entry(18).name, args) == Err::<CallView, FailView>(FailView::MissingArgument(p)),
            None => planned_call(tool_entry(18).name, args) is Ok,
        },
{
    reveal_with_fuel(first_absent_from, 5);
    reveal_strlit("list_threads");
    reveal_strlit("read_thread");
    reveal_strlit("read_latest_posts");
    reveal_strlit("read_recent_posts");
    reveal_strlit("read_parents");
    reveal_strlit("search");
    reveal_strlit("create_thread");
    reveal_strlit("create_post");
    reveal_strlit("react");
    reveal_strlit("unreact");
    reveal_strlit("get_self");
    reveal_strlit("list_peers");
    reveal_strlit("add_peer");
    reveal_strlit("list_conversations");
    reveal_strlit("read_messages");
    reveal_strlit("send_dm");
    reveal_strlit("get_unread_count");
    reveal_strlit("block_peer");
    reveal_strlit("unblock_peer");
    assert("unblock_peer"@.len() != "read_thread"@.len());
    assert("unblock_peer"@.len() != "read_latest_posts"@.len());
    assert("unblock_peer"@.len() != "read_recent_posts"@.len());
    assert("unblock_peer"@.len() != "search"@.len());
    assert("unblock_peer"@.len() != "create_thread"@.len());
    assert("unblock_peer"@.len() != "create_post"@.len());
    assert("unblock_peer"@.len() != "react"@.len());
    assert("unblock_peer"@.len() != "unreact"@.len());
    assert("unblock_peer"@.len() != "get_self"@.len());
    assert("unblock_peer"@.len() != "list_peers"@.len());
    assert("unblock_peer"@.len() != "add_peer"@.len());
    assert("unblock_peer"@.len() != "list_conversations"@.len());
    assert("unblock_peer"@.len() != "read_messages"@.len());
    assert("unblock_peer"@.len() != "send_dm"@.len());
    assert("unblock_peer"@.len() != "get_unread_count"@.len());
    assert("unblock_peer"@.len() != "block_peer"@.len());
    assert("unblock_peer"@[0] != "list_threads"@[0]);
    assert("unblock_peer"@[0] != "read_parents"@[0]);
}

proof fn lemma_required_arguments_19(args: Seq<Argument>)
    ensures
        match first_absent(tool_entry(19).params, args) {
            Some(p) => planned_call(tool_entry(19).name, args) == Err::<CallView, FailView>(FailView::MissingArgument(p)),
            None => planned_call(tool_entry(19).name, args) is Ok,
        },
{
    reveal_with_fuel(first_absent_from, 5);
    reveal_strlit("list_threads");
    reveal_strlit("read_thread");
    reveal_strlit("read_latest_posts");
    reveal_strlit("read_recent_posts");
    reveal_strlit("read_parents");
    reveal_strlit("search");
    reveal_strlit("create_thread");
    reveal_strlit("create_post");
    reveal_strlit("react");
    reveal_strlit("unreact");
    reveal_strlit("get_self");
    reveal_strlit("list_peers");
    reveal_strlit("add_peer");
    reveal_strlit("list_conversations");
    reveal_strlit("read_messages");
    reveal_strlit("send_dm");
    reveal_strlit("get_unread_count");
    reveal_strlit("block_peer");
    reveal_strlit("unblock_peer");
    reveal_strlit("list_blocked_peers");
    assert("list_blocked_peers"@.len() != "list_threads"@.len());
    assert("list_blocked_peers"@.len() != "read_thread"@.len());
    assert("list_blocked_peers"@.len() != "read_latest_posts"@.len());
    assert("list_blocked_peers"@.len() != "read_recent_posts"@.len());
    assert("list_blocked_peers"@.len() != "read_parents"@.len());
    assert("list_blocked_peers"@.len() != "search"@.len());
    assert("list_blocked_peers"@.len() != "create_thread"@.len());
    assert("list_blocked_peers"@.len() != "create_post"@.len());
    assert("list_blocked_peers"@.len() != "react"@.len());
    assert("list_blocked_peers"@.len() != "unreact"@.len());
    assert("list_blocked_peers"@.len() != "get_self"@.len());
    assert("list_blocked_peers"@.len() != "list_peers"@.len());
    assert("list_blocked_peers"@.len() != "add_peer"@.len());
    assert("list_blocked_peers"@.len() != "read_messages"@.len());
    assert("list_blocked_peers"@.len() != "send_dm"@.len());
    assert("list_blocked_peers"@.len() != "get_unread_count"@.len());
    assert("list_blocked_peers"@.len() != "block_peer"@.len());
    assert("list_blocked_peers"@.len() != "unblock_peer"@.len());
    assert("list_blocked_peers"@[5] != "list_conversations"@[5]);
}

proof fn lemma_required_arguments_20(args: Seq<Argument>)
    ensures
        match first_absent(tool_entry(20).params, args) {
            Some(p) => planned_call(tool_entry(20).name, args) == Err::<CallView, FailView>(FailView::MissingArgument(p)),
            None => planned_call(tool_entry(20).name, args) is Ok,
        },
{
    reveal_with_fuel(first_absent_from, 5);
    reveal_strlit("list_threads");
    reveal_strlit("read_thread");
    reveal_strlit("read_latest_posts");
    reveal_strlit("read_recent_posts");
    reveal_strlit("read_parents");
    reveal_strlit("search");
    reveal_strlit("create_thread");
    reveal_strlit("create_post");
    reveal_strlit("react");
    reveal_strlit("unreact");
    reveal_strlit("get_self");
    reveal_strlit("list_peers");
    reveal_strlit("add_peer");
    reveal_strlit("list_conversations");
    reveal_strlit("read_messages");
    reveal_strlit("send_dm");
    reveal_strlit("get_unread_count");
    reveal_strlit("block_peer");
    reveal_strlit("unblock_peer");
    reveal_strlit("list_blocked_peers");
    reveal_strlit("health");
    assert("health"@.len() != "list_threads"@.len());
    assert("health"@.len() != "read_thread"@.len());
    assert("health"@.len() != "read_latest_posts"@.len());
    assert("health"@.len() != "read_recent_posts"@.len());
    assert("health"@.len() != "read_parents"@.len());
    assert("health"@.len() != "create_thread"@.len());
    assert("health"@.len() != "create_post"@.len());
    assert("health"@.len() != "react"@.len());
    assert("health"@.len() != "unreact"@.len());
    assert("health"@.len() != "get_self"@.len());
    assert("health"@.len() != "list_peers"@.len());
    assert("health"@.len() != "add_peer"@.len());
    assert("health"@.len() != "list_conversations"@.len());
    assert("health"@.len() != "read_messages"@.len());
    assert("health"@.len() != "send_dm"@.len());
    assert("health"@.len() != "get_unread_count"@.len());
    assert("health"@.len() != "block_peer"@.len());
    assert("health"@.len() != "unblock_peer"@.len());
    assert("health"@.len() != "list_blocked_peers"@.len());
    assert("health"@[0] != "search"@[0]);
}

/// A call of a catalog tool fails with `MissingArgument` for the first of the tool's required
/// parameters, in catalog order, that the arguments lack as a text; when none is lacking, the
/// call goes through.
pub proof fn lemma_required_arguments(i: int, args: Seq<Argument>)
    requires
        0 <= i < tool_catalog().len(),
    ensures
        match first_absent(tool_catalog()[i].params, args) {
            Some(p) => planned_call(tool_catalog()[i].name, args) == Err::<CallView, FailView>(FailView::MissingArgument(p)),
            None => planned_call(tool_catalog()[i].name, args) is Ok,
        },
{
    if i == 0 {
        assert(tool_catalog()[i] == tool_entry(0));
        lemma_required_arguments_0(args);
    } else if i == 1 {
        assert(tool_catalog()[i] == tool_entry(1));
        lemma_required_arguments_1(args);
    } else if i == 2 {
        assert(tool_catalog()[i] == tool_entry(2));
        lemma_required_arguments_2(args);
    } else if i == 3 {
        assert(tool_catalog()[i] == tool_entry(3));
        lemma_required_arguments_3(args);
    } else if i == 4 {
        assert(tool_catalog()[i] == tool_entry(4));
        lemma_required_arguments_4(args);
    } else if i == 5 {
        assert(tool_catalog()[i] == tool_entry(5));
        lemma_required_arguments_5(args);
    } else if i == 6 {
        assert(tool_catalog()[i] == tool_entry(6));
        lemma_required_arguments_6(args);
    } else if i == 7 {
        assert(tool_catalog()[i] == tool_entry(7));
        lemma_required_arguments_7(args);
    } else if i == 8 {
        assert(tool_catalog()[i] == tool_entry(8));
        lemma_required_arguments_8(args);
    } else if i == 9 {
        assert(tool_catalog()[i] == tool_entry(9));
        lemma_required_arguments_9(args);
    } else if i == 10 {
        assert(tool_catalog()[i] == tool_entry(10));
        lemma_required_arguments_10(args);
    } else if i == 11 {
        assert(tool_catalog()[i] == tool_entry(11));
        lemma_required_arguments_11(args);
    } else if i == 12 {
        assert(tool_catalog()[i] == tool_entry(12));
        lemma_required_arguments_12(args);
    } else if i == 13 {
        assert(tool_catalog()[i] == tool_entry(13));
        lemma_required_arguments_13(args);
    } else if i == 14 {
        assert(tool_catalog()[i] == tool_entry(14));
        lemma_required_arguments_14(args);
    } else if i == 15 {
        assert(tool_catalog()[i] == tool_entry(15));
        lemma_required_arguments_15(args);
    } else if i == 16 {
        assert(tool_catalog()[i] == tool_entry(16));
        lemma_required_arguments_16(args);
    } else if i == 17 {
        assert(tool_catalog()[i] == tool_entry(17));
        lemma_required_arguments_17(args);
    } else if i == 18 {
        assert(tool_catalog()[i] == tool_entry(18));
        lemma_required_arguments_18(args);
    } else if i == 19 {
        assert(tool_catalog()[i] == tool_entry(19));
        lemma_required_arguments_19(args);
    } else if i == 20 {
        assert(tool_catalog()[i] == tool_entry(20));
        lemma_required_arguments_20(args);
    }
}

/// A call of an unknown tool or method is answered with the "method not found" code.
pub proof fn lemma_not_found_code(name: Seq<char>)
    ensures
        error_code_of(failure_text(FailView::UnknownTool(name))) == -32601,
        error_code_of(failure_text(FailView::UnknownMethod(name))) == -32601,
{
    reveal_strlit("tool '");
    reveal_strlit("method '");
    reveal_strlit("' not found");
    reveal_strlit("not found");
    let t = "tool '"@ + name + "' not found"@;
    let at: int = 8 + name.len() as int;
    assert(t.subrange(at, at + 9) =~= "not found"@);
    let m = "method '"@ + name + "' not found"@;
    let am: int = 10 + name.len() as int;
    assert(m.subrange(am, am + 9) =~= "not found"@);
}

/// The latest posts come newest first: no post is answered after one created before it.
pub proof fn lemma_latest_posts_newest_first(posts: Seq<PostEntry>)
    ensures
        ordered_by(newer_first(posts), stable_sorted(newer_first(posts), Seq::new(posts.len(), |i: int| i))),
{
    let before = newer_first(posts);
    let items = Seq::new(posts.len(), |i: int| i);
    assert forall|x: int, y: int|
        #![trigger before(x, y), before(y, x)]
        items.contains(x) && items.contains(y) && before(x, y) implies !before(y, x) by {
        lemma_text_lt_strict_weak(created_text(posts[y]), created_text(posts[x]), created_text(posts[x]));
    }
    assert forall|x: int, y: int, z: int|
        #![trigger before(x, z), before(x, y), before(y, z)]
        items.contains(x) && items.contains(y) && items.contains(z) && before(x, z) implies before(x, y) || before(y, z) by {
        lemma_text_lt_strict_weak(created_text(posts[z]), created_text(posts[y]), created_text(posts[x]));
    }
    lemma_stable_sorted_ordered(before, items);
}

/// The tools that read or write a thread all address it by the same path: for a thread id `t`
/// given as a text, `read_thread` reads `/threads/t`, `read_latest_posts` and `read_parents`
/// read that same path, and `create_post` posts under it.
pub proof fn lemma_thread_paths(args: Seq<Argument>, t: Seq<char>)
    requires
        text_arg(args, "thread_id"@) == Some(t),
    ensures
        planned_call("read_thread"@, args) == Ok::<CallView, FailView>(CallView::Get { path: "/threads/"@ + t }),
        planned_call("read_latest_posts"@, args) matches Ok(CallView::LatestPosts { path, .. }) && path == "/threads/"@ + t,
        text_arg(args, "post_id"@) is Some ==> (planned_call("read_parents"@, args) matches Ok(CallView::Parents { path, .. })
            && path == "/threads/"@ + t),
        text_arg(args, "body"@) is Some ==> (planned_call("create_post"@, args) matches Ok(CallView::Post { path, .. })
            && path == "/threads/"@ + t + "/posts"@),
{
    reveal_strlit("list_threads");
    reveal_strlit("read_thread");
    reveal_strlit("read_latest_posts");
    reveal_strlit("read_recent_posts");
    reveal_strlit("read_parents");
    reveal_strlit("search");
    reveal_strlit("create_thread");
    reveal_strlit("create_post");
    assert("read_thread"@.len() != "list_threads"@.len());
    assert("read_latest_posts"@.len() != "list_threads"@.len());
    assert("read_latest_posts"@.len() != "read_thread"@.len());
    assert("read_parents"@.len() != "read_thread"@.len());
    assert("read_parents"@.len() != "read_latest_posts"@.len());
    assert("read_parents"@.len() != "read_recent_posts"@.len());
    assert("read_parents"@[0] != "list_threads"@[0]);
    assert("create_post"@.len() != "list_threads"@.len());
    assert("create_post"@.len() != "read_latest_posts"@.len());
    assert("create_post"@.len() != "read_recent_posts"@.len());
    assert("create_post"@.len() != "read_parents"@.len());
    assert("create_post"@.len() != "search"@.len());
    assert("create_post"@.len() != "create_thread"@.len());
    assert("create_post"@[0] != "read_thread"@[0]);
}

} // verus!
