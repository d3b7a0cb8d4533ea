//! How the text of a post and a search snippet are cut into pieces for display: links to other
//! threads in post bodies, and marked matches in snippets.
use vstd::prelude::*;

use crate::text::{chars_of, string_of};

verus! {

// --- lines and words ---------------------------------------------------------------------

/// The text without one trailing carriage return.
pub open spec fn strip_cr(line: Seq<char>) -> Seq<char> {
    if line.len() > 0 && line.last() == '\r' {
        line.drop_last()
    } else {
        line
    }
}

/// The lines ended so far and the line under way, after the first `n` characters of `s`; a
/// line feed ends a line, and a carriage return before it is dropped.
pub open spec fn line_state(s: Seq<char>, n: int) -> (Seq<Seq<char>>, Seq<char>)
    decreases n,
{
    if n <= 0 {
        (Seq::empty(), Seq::empty())
    } else {
        let (done, cur) = line_state(s, n - 1);
        if s[n - 1] == '\n' {
            (done.push(strip_cr(cur)), Seq::empty())
        } else {
            (done, cur.push(s[n - 1]))
        }
    }
}

/// The lines of a text; a final line ending adds no empty line.
pub open spec fn text_lines(s: Seq<char>) -> Seq<Seq<char>> {
    let (done, cur) = line_state(s, s.len() as int);
    if cur.len() == 0 {
        done
    } else {
        done.push(cur)
    }
}

/// The words ended so far and the word under way, after the first `n` characters of `line`;
/// each space ends a word.
pub open spec fn word_state(line: Seq<char>, n: int) -> (Seq<Seq<char>>, Seq<char>)
    decreases n,
{
    if n <= 0 {
        (Seq::empty(), Seq::empty())
    } else {
        let (done, cur) = word_state(line, n - 1);
        if line[n - 1] == ' ' {
            (done.push(cur), Seq::empty())
        } else {
            (done, cur.push(line[n - 1]))
        }
    }
}

/// The pieces of `line` between single spaces (empty pieces included).
pub open spec fn line_words(line: Seq<char>) -> Seq<Seq<char>> {
    let (done, cur) = word_state(line, line.len() as int);
    done.push(cur)
}

// --- pieces of a post body ---------------------------------------------------------------

/// A piece of a displayed line: plain text, or a link to a thread.
pub enum BodyPiece {
    Text(String),
    /// The word as shown (starting with `>>>`) and the thread it names.
    Link { word: String, thread_id: String },
}

pub enum PieceView {
    Text(Seq<char>),
    Link { word: Seq<char>, thread_id: Seq<char> },
}

impl View for BodyPiece {
    type V = PieceView;

    open spec fn view(&self) -> PieceView {
        match self {
            BodyPiece::Text(t) => PieceView::Text(t@),
            BodyPiece::Link { word, thread_id } => PieceView::Link { word: word@, thread_id: thread_id@ },
        }
    }
}

/// Whether a word links to a thread.
pub open spec fn is_link(word: Seq<char>) -> bool {
    ">>>"@.is_prefix_of(word)
}

/// The pieces finished and the text under way after the first `n` words: a link word ends the
/// text under way (when there is any) and stands as a link; any other word joins the text,
/// followed by a space.
pub open spec fn piece_state(words: Seq<Seq<char>>, n: int) -> (Seq<PieceView>, Seq<char>)
    decreases n,
{
    if n <= 0 {
        (Seq::empty(), Seq::empty())
    } else {
        let (done, cur) = piece_state(words, n - 1);
        let w = words[n - 1];
        if is_link(w) {
            let flushed = if cur.len() > 0 {
                done.push(PieceView::Text(cur))
            } else {
                done
            };
            (flushed.push(PieceView::Link { word: w, thread_id: w.skip(3) }), Seq::empty())
        } else {
            (done, cur + w + " "@)
        }
    }
}

/// The pieces of one line.
pub open spec fn line_pieces(line: Seq<char>) -> Seq<PieceView> {
    let words = line_words(line);
    let (done, cur) = piece_state(words, words.len() as int);
    if cur.len() > 0 {
        done.push(PieceView::Text(cur))
    } else {
        done
    }
}

/// The pieces of each line of a post body.
pub open spec fn body_pieces(body: Seq<char>) -> Seq<Seq<PieceView>> {
    text_lines(body).map_values(|l: Seq<char>| line_pieces(l))
}

pub open spec fn pieces_view(v: Seq<BodyPiece>) -> Seq<PieceView> {
    v.map_values(|p: BodyPiece| p@)
}

/// The lines of a text.
fn split_lines(s: &[char]) -> (r: Vec<Vec<char>>)
    ensures
        r@.map_values(|l: Vec<char>| l@) == text_lines(s@),
{
    let mut done: Vec<Vec<char>> = Vec::new();
    let mut cur: Vec<char> = Vec::new();
    let mut i: usize = 0;
    while i < s.len()
        invariant
            i <= s@.len(),
            (done@.map_values(|l: Vec<char>| l@), cur@) == line_state(s@, i as int),
        decreases s@.len() - i,
    {
        let ghost before = done@.map_values(|l: Vec<char>| l@);
        let ghost c0 = cur@;
        if s[i] == '\n' {
            if cur.len() > 0 && cur[cur.len() - 1] == '\r' {
                cur.pop();
            }
            assert(cur@ =~= strip_cr(c0));
            done.push(cur);
            cur = Vec::new();
            assert(done@.map_values(|l: Vec<char>| l@) =~= before.push(strip_cr(c0)));
        } else {
            cur.push(s[i]);
        }
        i = i + 1;
    }
    if cur.len() > 0 {
        done.push(cur);
    }
    proof {
        let (d, c) = line_state(s@, s@.len() as int);
        if c.len() > 0 {
            assert(done@.map_values(|l: Vec<char>| l@) =~= d.push(c));
        }
    }
    done
}

/// The pieces of `line` between single spaces.
fn split_words(line: &[char]) -> (r: Vec<Vec<char>>)
    ensures
        r@.map_values(|w: Vec<char>| w@) == line_words(line@),
{
    let mut done: Vec<Vec<char>> = Vec::new();
    let mut cur: Vec<char> = Vec::new();
    let mut i: usize = 0;
    while i < line.len()
        invariant
            i <= line@.len(),
            (done@.map_values(|w: Vec<char>| w@), cur@) == word_state(line@, i as int),
        decreases line@.len() - i,
    {
        let ghost before = done@.map_values(|w: Vec<char>| w@);
        if line[i] == ' ' {
            done.push(cur);
            cur = Vec::new();
            assert(done@.map_values(|w: Vec<char>| w@) =~= before.push(word_state(line@, i as int).1));
        } else {
            cur.push(line[i]);
        }
        i = i + 1;
    }
    done.push(cur);
    assert(done@.map_values(|w: Vec<char>| w@) =~= word_state(line@, line@.len() as int).0.push(
        word_state(line@, line@.len() as int).1,
    ));
    done
}

/// The pieces of one line of a post body.
fn pieces_of_line(line: &[char]) -> (r: Vec<BodyPiece>)
    ensures
        pieces_view(r@) == line_pieces(line@),
{
    let words = split_words(line);
    let ghost ws = words@.map_values(|w: Vec<char>| w@);
    let mut done: Vec<BodyPiece> = Vec::new();
    let mut cur: Vec<char> = Vec::new();
    let mut i: usize = 0;
    while i < words.len()
        invariant
            ws == words@.map_values(|w: Vec<char>| w@),
            i <= words@.len(),
            (pieces_view(done@), cur@) == piece_state(ws, i as int),
        decreases words@.len() - i,
    {
        let w = &words[i];
        assert(ws[i as int] == w@);
        let link = w.len() >= 3 && w[0] == '>' && w[1] == '>' && w[2] == '>';
        proof {
            reveal_strlit(">>>");
            if w@.len() >= 3 {
                assert(is_link(w@) == (w@[0] == '>' && w@[1] == '>' && w@[2] == '>')) by {
                    if w@[0] == '>' && w@[1] == '>' && w@[2] == '>' {
                        assert(w@.subrange(0, 3) =~= ">>>"@);
                    }
                    if is_link(w@) {
                        assert(w@.subrange(0, 3)[0] == ">>>"@[0]);
                        assert(w@.subrange(0, 3)[1] == ">>>"@[1]);
                        assert(w@.subrange(0, 3)[2] == ">>>"@[2]);
                    }
                }
            }
            assert(link == is_link(w@));
        }
        if link {
            if cur.len() > 0 {
                let ghost before = pieces_view(done@);
                done.push(BodyPiece::Text(string_of(cur.as_slice())));
                assert(pieces_view(done@) =~= before.push(PieceView::Text(cur@)));
            }
            let ghost before = pieces_view(done@);
            let id = string_of(w.as_slice().split_at(3).1);
            done.push(BodyPiece::Link { word: string_of(w.as_slice()), thread_id: id });
            assert(pieces_view(done@) =~= before.push(PieceView::Link { word: w@, thread_id: w@.skip(3) }));
            cur = Vec::new();
        } else {
            let mut j: usize = 0;
            let ghost start = cur@;
            while j < w.len()
                invariant
                    j <= w@.len(),
                    cur@ == start + w@.take(j as int),
                decreases w@.len() - j,
            {
                cur.push(w[j]);
                assert(cur@ =~= start + w@.take(j + 1));
                j = j + 1;
            }
            cur.push(' ');
            proof {
                reveal_strlit(" ");
                assert(w@.take(w@.len() as int) =~= w@);
            }
            assert(cur@ =~= start + w@ + " "@);
        }
        i = i + 1;
    }
    if cur.len() > 0 {
        let ghost before = pieces_view(done@);
        done.push(BodyPiece::Text(string_of(cur.as_slice())));
        assert(pieces_view(done@) =~= before.push(PieceView::Text(cur@)));
    }
    done
}

/// The pieces of each line of a post body, for display: words that start with `>>>` link to
/// the thread whose id follows.
pub fn post_body_pieces(body: &str) -> (r: Vec<Vec<BodyPiece>>)
    ensures
        r@.map_values(|l: Vec<BodyPiece>| pieces_view(l@)) == body_pieces(body@),
{
    let chars = chars_of(body);
    let lines = split_lines(chars.as_slice());
    let ghost ls = lines@.map_values(|l: Vec<char>| l@);
    let mut r: Vec<Vec<BodyPiece>> = Vec::new();
    let mut i: usize = 0;
    while i < lines.len()
        invariant
            ls == lines@.map_values(|l: Vec<char>| l@),
            ls == text_lines(body@),
            i <= lines@.len(),
            r@.map_values(|l: Vec<BodyPiece>| pieces_view(l@)) == ls.take(i as int).map_values(|l: Seq<char>| line_pieces(l)),
        decreases lines@.len() - i,
    {
        let ghost before = r@.map_values(|l: Vec<BodyPiece>| pieces_view(l@));
        let p = pieces_of_line(lines[i].as_slice());
        let ghost pv = pieces_view(p@);
        assert(ls[i as int] == lines@[i as int]@);
        assert(pv == line_pieces(ls[i as int]));
        r.push(p);
        assert(r@.map_values(|l: Vec<BodyPiece>| pieces_view(l@)) =~= before.push(pv));
        assert(ls.take(i + 1) =~= ls.take(i as int).push(ls[i as int]));
        assert(r@.map_values(|l: Vec<BodyPiece>| pieces_view(l@)) =~= ls.take(i + 1).map_values(|l: Seq<char>| line_pieces(l)));
        i = i + 1;
    }
    assert(ls.take(ls.len() as int) =~= ls);
    r
}

// --- search snippets ---------------------------------------------------------------------

/// The first position at or after `from` where `pat` occurs in `s`.
pub open spec fn find_from(s: Seq<char>, pat: Seq<char>, from: int) -> Option<int>
    decreases s.len() - from,
{
    if from < 0 || from + pat.len() > s.len() {
        None
    } else if pat.len() == 0 || s.subrange(from, from + pat.len()) == pat {
        Some(from)
    } else {
        find_from(s, pat, from + 1)
    }
}

pub proof fn lemma_find_from_bounds(s: Seq<char>, pat: Seq<char>, from: int)
    ensures
        find_from(s, pat, from) matches Some(i) ==> from <= i && i + pat.len() <= s.len() && s.subrange(i, i + pat.len()) == pat,
        0 <= from && find_from(s, pat, from) is None ==> forall|i: int| #![trigger s.subrange(i, i + pat.len())] from <= i && i + pat.len() <= s.len() ==> s.subrange(i, i + pat.len()) != pat,
    decreases s.len() - from,
{
    if from >= 0 && from + pat.len() <= s.len() && !(pat.len() == 0 || s.subrange(from, from + pat.len()) == pat) {
        lemma_find_from_bounds(s, pat, from + 1);
    }
    if pat.len() == 0 && from >= 0 && from <= s.len() {
        assert(s.subrange(from, from) =~= pat);
    }
}

/// The pieces of a snippet from position `pos` on: text, and text between `<mark>` and
/// `</mark>` (marked). When a `<mark>` is not closed, the text from `pos` on follows as it is.
pub open spec fn snippet_from(s: Seq<char>, pos: int) -> Seq<(Seq<char>, bool)>
    decreases s.len() - pos,
{
    if pos < 0 || pos >= s.len() {
        Seq::empty()
    } else {
        match find_from(s, "<mark>"@, pos) {
            None => seq![(s.subrange(pos, s.len() as int), false)],
            Some(a) => {
                let head: Seq<(Seq<char>, bool)> = if a > pos {
                    seq![(s.subrange(pos, a), false)]
                } else {
                    Seq::empty()
                };
                match find_from(s, "</mark>"@, a + 6) {
                    None => head.push((s.subrange(pos, s.len() as int), false)),
                    Some(e) => {
                        proof {
                            reveal_strlit("<mark>");
                            reveal_strlit("</mark>");
                            lemma_find_from_bounds(s, "<mark>"@, pos);
                            lemma_find_from_bounds(s, "</mark>"@, a + 6);
                        }
                        head.push((s.subrange(a + 6, e), true)) + snippet_from(s, e + 7)
                    },
                }
            },
        }
    }
}

pub open spec fn snippet_view(v: Seq<(String, bool)>) -> Seq<(Seq<char>, bool)> {
    v.map_values(|p: (String, bool)| (p.0@, p.1))
}

fn find_in(s: &[char], pat: &[char], from: usize) -> (r: Option<usize>)
    ensures
        match r {
            Some(i) => find_from(s@, pat@, from as int) == Some(i as int),
            None => find_from(s@, pat@, from as int) is None,
        },
{
    let sl = s.len();
    let mut i = from;
    if i > sl || pat.len() > sl - i {
        return None;
    }
    while i <= sl - pat.len()
        invariant
            sl == s@.len(),
            from <= i,
            pat@.len() <= s@.len(),
            i <= s@.len() - pat@.len() + 1,
            find_from(s@, pat@, from as int) == find_from(s@, pat@, i as int),
        decreases s@.len() - i,
    {
        let mut j: usize = 0;
        let mut same = true;
        while j < pat.len()
            invariant
                sl == s@.len(),
                i + pat@.len() <= s@.len(),
                j <= pat@.len(),
                same == forall|m: int| 0 <= m < j ==> s@[i + m] == pat@[m],
            decreases pat@.len() - j,
        {
            if s[i + j] != pat[j] {
                same = false;
            }
            j = j + 1;
        }
        if same {
            assert(s@.subrange(i as int, i + pat@.len()) =~= pat@);
            return Some(i);
        }
        proof {
            let m = choose|m: int| 0 <= m < pat@.len() && s@[i + m] != pat@[m];
            assert(s@.subrange(i as int, i + pat@.len())[m] != pat@[m]);
        }
        if i == sl - pat.len() {
            assert(find_from(s@, pat@, i + 1) is None);
            return None;
        }
        i = i + 1;
    }
    None
}

fn text_of(s: &[char], from: usize, to: usize) -> (r: String)
    requires
        from <= to <= s@.len(),
    ensures
        r@ == s@.subrange(from as int, to as int),
{
    let mut v: Vec<char> = Vec::new();
    let mut i = from;
    while i < to
        invariant
            from <= i <= to <= s@.len(),
            v@ == s@.subrange(from as int, i as int),
        decreases to - i,
    {
        v.push(s[i]);
        assert(v@ =~= s@.subrange(from as int, i + 1));
        i = i + 1;
    }
    string_of(v.as_slice())
}

/// The pieces of a search snippet, each with whether it is marked as matching.
pub fn snippet_pieces(snippet: &str) -> (r: Vec<(String, bool)>)
    ensures
        snippet_view(r@) == snippet_from(snippet@, 0),
{
    let s = chars_of(snippet);
    let open = chars_of("<mark>");
    let close = chars_of("</mark>");
    proof {
        reveal_strlit("<mark>");
        reveal_strlit("</mark>");
    }
    let mut out: Vec<(String, bool)> = Vec::new();
    let mut pos: usize = 0;
    while pos < s.len()
        invariant
            s@ == snippet@,
            open@ == "<mark>"@,
            close@ == "</mark>"@,
            open@.len() == 6,
            close@.len() == 7,
            pos <= s@.len(),
            snippet_view(out@) + snippet_from(s@, pos as int) == snippet_from(s@, 0),
        decreases s@.len() - pos,
    {
        let ghost before = snippet_view(out@);
        let ghost rest = snippet_from(s@, pos as int);
        proof {
            lemma_find_from_bounds(s@, open@, pos as int);
        }
        match find_in(s.as_slice(), open.as_slice(), pos) {
            None => {
                out.push((text_of(s.as_slice(), pos, s.len()), false));
                assert(snippet_view(out@) =~= before + rest);
                assert(snippet_from(s@, s@.len() as int) =~= Seq::<(Seq<char>, bool)>::empty());
                pos = s.len();
            },
            Some(a) => {
                if a > pos {
                    out.push((text_of(s.as_slice(), pos, a), false));
                }
                let ghost mid = snippet_view(out@);
                proof {
                    lemma_find_from_bounds(s@, close@, a + 6);
                }
                match find_in(s.as_slice(), close.as_slice(), a + 6) {
                    None => {
                        out.push((text_of(s.as_slice(), pos, s.len()), false));
                        assert(snippet_view(out@) =~= before + rest);
                        assert(snippet_from(s@, s@.len() as int) =~= Seq::<(Seq<char>, bool)>::empty());
                        pos = s.len();
                    },
                    Some(e) => {
                        out.push((text_of(s.as_slice(), a + 6, e), true));
                        assert(before + rest =~= snippet_view(out@) + snippet_from(s@, e + 7));
                        pos = e + 7;
                    },
                }
            },
        }
    }
    assert(snippet_view(out@) =~= snippet_from(s@, 0));
    out
}

/// Whether `t` holds a `<mark>` with a `</mark>` somewhere after it.
pub open spec fn holds_closed_mark(t: Seq<char>) -> bool {
    exists|i: int, j: int|
        0 <= i && i + 6 <= j && j + 7 <= t.len() && #[trigger] t.subrange(i, i + 6) == "<mark>"@
            && #[trigger] t.subrange(j, j + 7) == "</mark>"@
}

/// Whether `t` holds a `</mark>`.
pub open spec fn holds_close_tag(t: Seq<char>) -> bool {
    exists|j: int| 0 <= j && j + 7 <= t.len() && #[trigger] t.subrange(j, j + 7) == "</mark>"@
}

/// A snippet piece as display wants it: plain text holds no `<mark>...</mark>` pair (every such
/// pair was turned into a marked piece), and marked text holds no closing tag.
pub open spec fn piece_ok(p: (Seq<char>, bool)) -> bool {
    if p.1 {
        !holds_close_tag(p.0)
    } else {
        !holds_closed_mark(p.0)
    }
}

proof fn lemma_find_from_first(s: Seq<char>, pat: Seq<char>, from: int)
    requires
        0 <= from,
    ensures
        find_from(s, pat, from) matches Some(a) ==> forall|i: int|
            #![trigger s.subrange(i, i + pat.len())]
            from <= i < a ==> s.subrange(i, i + pat.len()) != pat,
    decreases s.len() - from,
{
    if from + pat.len() <= s.len() && !(pat.len() == 0 || s.subrange(from, from + pat.len()) == pat) {
        lemma_find_from_first(s, pat, from + 1);
    }
}

proof fn lemma_sub_sub(s: Seq<char>, lo: int, hi: int, i: int, n: int)
    requires
        0 <= lo <= hi <= s.len(),
        0 <= i,
        i + n <= hi - lo,
        0 <= n,
    ensures
        s.subrange(lo, hi).subrange(i, i + n) == s.subrange(lo + i, lo + i + n),
{
    assert(s.subrange(lo, hi).subrange(i, i + n) =~= s.subrange(lo + i, lo + i + n));
}

/// Every piece of a snippet is as display wants it: each `<mark>...</mark>` pair becomes a
/// marked piece with the text between the tags, so no plain piece holds such a pair, and no
/// marked piece holds a closing tag.
pub proof fn lemma_snippet_pieces_ok(s: Seq<char>, pos: int)
    requires
        0 <= pos,
    ensures
        forall|k: int| 0 <= k < snippet_from(s, pos).len() ==> piece_ok(#[trigger] snippet_from(s, pos)[k]),
    decreases s.len() - pos,
{
    reveal_strlit("<mark>");
    reveal_strlit("</mark>");
    let om = "<mark>"@;
    let cm = "</mark>"@;
    if pos >= s.len() {
        return;
    }
    let n = s.len() as int;
    lemma_find_from_bounds(s, om, pos);
    lemma_find_from_first(s, om, pos);
    match find_from(s, om, pos) {
        None => {
            let t = s.subrange(pos, n);
            assert(!holds_closed_mark(t)) by {
                if holds_closed_mark(t) {
                    let (i, j) = choose|i: int, j: int|
                        0 <= i && i + 6 <= j && j + 7 <= t.len() && #[trigger] t.subrange(i, i + 6) == om
                            && #[trigger] t.subrange(j, j + 7) == cm;
                    lemma_sub_sub(s, pos, n, i, 6);
                    assert(s.subrange(pos + i, pos + i + 6) == om);
                }
            }
            assert(piece_ok(snippet_from(s, pos)[0]));
        },
        Some(a) => {
            let head: Seq<(Seq<char>, bool)> = if a > pos {
                seq![(s.subrange(pos, a), false)]
            } else {
                Seq::empty()
            };
            if a > pos {
                let t = s.subrange(pos, a);
                assert(!holds_closed_mark(t)) by {
                    if holds_closed_mark(t) {
                        let (i, j) = choose|i: int, j: int|
                            0 <= i && i + 6 <= j && j + 7 <= t.len() && #[trigger] t.subrange(i, i + 6) == om
                                && #[trigger] t.subrange(j, j + 7) == cm;
                        lemma_sub_sub(s, pos, a, i, 6);
                        assert(s.subrange(pos + i, pos + i + 6) == om);
                    }
                }
                assert(piece_ok(head[0]));
            }
            lemma_find_from_bounds(s, cm, a + 6);
            lemma_find_from_first(s, cm, a + 6);
            match find_from(s, cm, a + 6) {
                None => {
                    let t = s.subrange(pos, n);
                    assert(!holds_closed_mark(t)) by {
                        if holds_closed_mark(t) {
                            let (i, j) = choose|i: int, j: int|
                                0 <= i && i + 6 <= j && j + 7 <= t.len() && #[trigger] t.subrange(i, i + 6) == om
                                    && #[trigger] t.subrange(j, j + 7) == cm;
                            lemma_sub_sub(s, pos, n, i, 6);
                            lemma_sub_sub(s, pos, n, j, 7);
                            assert(s.subrange(pos + i, pos + i + 6) == om);
                            assert(s.subrange(pos + j, pos + j + 7) == cm);
                        }
                    }
                    let r = head.push((t, false));
                    assert(snippet_from(s, pos) == r);
                    assert forall|k: int| 0 <= k < r.len() implies piece_ok(#[trigger] r[k]) by {
                        if k < head.len() {
                            assert(r[k] == head[k]);
                        }
                    }
                },
                Some(e) => {
                    let t = s.subrange(a + 6, e);
                    assert(!holds_close_tag(t)) by {
                        if holds_close_tag(t) {
                            let j = choose|j: int| 0 <= j && j + 7 <= t.len() && #[trigger] t.subrange(j, j + 7) == cm;
                            lemma_sub_sub(s, a + 6, e, j, 7);
                            assert(s.subrange(a + 6 + j, a + 6 + j + 7) == cm);
                        }
                    }
                    lemma_snippet_pieces_ok(s, e + 7);
                    let front = head.push((t, true));
                    let rest = snippet_from(s, e + 7);
                    let r = front + rest;
                    assert(snippet_from(s, pos) == r);
                    assert forall|k: int| 0 <= k < r.len() implies piece_ok(#[trigger] r[k]) by {
                        if k < head.len() {
                            assert(r[k] == head[k]);
                        } else if k == head.len() {
                            assert(r[k] == (t, true));
                        } else {
                            assert(r[k] == rest[k - front.len()]);
                        }
                    }
                },
            }
        },
    }
}

/// Whether a piece of a post body is as display wants it: a link piece shows its word, which
/// is `>>>` followed by the id of the thread it names; a text piece is not empty.
pub open spec fn body_piece_ok(p: PieceView) -> bool {
    match p {
        PieceView::Link { word, thread_id } => word == ">>>"@ + thread_id,
        PieceView::Text(t) => t.len() > 0,
    }
}

proof fn lemma_piece_state_ok(words: Seq<Seq<char>>, n: int)
    ensures
        forall|k: int| 0 <= k < piece_state(words, n).0.len() ==> body_piece_ok(#[trigger] piece_state(words, n).0[k]),
    decreases n,
{
    reveal_strlit(">>>");
    if n > 0 {
        lemma_piece_state_ok(words, n - 1);
        let (done, cur) = piece_state(words, n - 1);
        let w = words[n - 1];
        if is_link(w) {
            assert(w =~= ">>>"@ + w.skip(3));
            let flushed = if cur.len() > 0 {
                done.push(PieceView::Text(cur))
            } else {
                done
            };
            let r = flushed.push(PieceView::Link { word: w, thread_id: w.skip(3) });
            assert forall|k: int| 0 <= k < r.len() implies body_piece_ok(#[trigger] r[k]) by {
                if k < done.len() {
                    assert(r[k] == done[k]);
                }
            }
        }
    }
}

proof fn lemma_line_state_no_break(s: Seq<char>, n: int)
    requires
        n <= s.len(),
    ensures
        forall|k: int| 0 <= k < line_state(s, n).0.len() ==> !(#[trigger] line_state(s, n).0[k]).contains('\n'),
        !line_state(s, n).1.contains('\n'),
    decreases n,
{
    if n > 0 {
        lemma_line_state_no_break(s, n - 1);
        let (done, cur) = line_state(s, n - 1);
        if s[n - 1] == '\n' {
            let l = strip_cr(cur);
            assert(!l.contains('\n')) by {
                if l.contains('\n') {
                    let j = choose|j: int| 0 <= j < l.len() && l[j] == '\n';
                    assert(cur[j] == '\n');
                }
            }
            assert forall|k: int| 0 <= k < done.push(l).len() implies !(#[trigger] done.push(l)[k]).contains('\n') by {
                if k < done.len() {
                    assert(done.push(l)[k] == done[k]);
                }
            }
        } else {
            let c2 = cur.push(s[n - 1]);
            assert(!c2.contains('\n')) by {
                if c2.contains('\n') {
                    let j = choose|j: int| 0 <= j < c2.len() && c2[j] == '\n';
                    if j < cur.len() {
                        assert(cur[j] == '\n');
                    }
                }
            }
        }
    }
}

/// A post body is shown line by line: no line holds a line feed, and every piece of a line is
/// as display wants it (a link is `>>>` followed by the thread id it names; text is never empty).
pub proof fn lemma_body_pieces_ok(body: Seq<char>)
    ensures
        forall|k: int| 0 <= k < text_lines(body).len() ==> !(#[trigger] text_lines(body)[k]).contains('\n'),
        forall|k: int, m: int|
            0 <= k < body_pieces(body).len() && 0 <= m < body_pieces(body)[k].len() ==> body_piece_ok(
                #[trigger] body_pieces(body)[k][m],
            ),
{
    lemma_line_state_no_break(body, body.len() as int);
    let (done, cur) = line_state(body, body.len() as int);
    let lines = text_lines(body);
    assert forall|k: int| 0 <= k < lines.len() implies !(#[trigger] lines[k]).contains('\n') by {
        if k < done.len() {
            assert(lines[k] == done[k]);
        }
    }
    assert forall|k: int, m: int|
        0 <= k < body_pieces(body).len() && 0 <= m < body_pieces(body)[k].len() implies body_piece_ok(
            #[trigger] body_pieces(body)[k][m],
        ) by {
        let line = lines[k];
        let words = line_words(line);
        lemma_piece_state_ok(words, words.len() as int);
        let (d2, c2) = piece_state(words, words.len() as int);
        let ps = line_pieces(line);
        assert(body_pieces(body)[k] == ps);
        if m < d2.len() {
            assert(ps[m] == d2[m]);
        }
    }
}

} // verus!
