//! The color of a post, mixed from the reactions it received: each reaction adds the color of
//! its emoji, and each channel stops at 255.
use vstd::prelude::*;

use crate::text::text_equals;

verus! {

/// What one reaction with emoji `e` adds to the red, green and blue channels.
pub open spec fn emoji_delta(e: Seq<char>) -> (u8, u8, u8) {
    if e == "\u{1F44D}"@ {
        (15, 15, 0)
    } else if e == "\u{2764}\u{FE0F}"@ {
        (20, 8, 10)
    } else if e == "\u{1F602}"@ {
        (18, 14, 0)
    } else if e == "\u{1F389}"@ {
        (16, 8, 16)
    } else if e == "\u{1F525}"@ {
        (20, 10, 0)
    } else if e == "\u{2728}"@ {
        (18, 18, 18)
    } else if e == "\u{1F440}"@ {
        (0, 15, 18)
    } else if e == "\u{1F914}"@ {
        (12, 6, 15)
    } else if e == "\u{1F44E}"@ {
        (10, 0, 0)
    } else if e == "\u{1F622}"@ {
        (0, 6, 12)
    } else if e == "\u{1F621}"@ {
        (15, 0, 0)
    } else {
        (8, 8, 8)
    }
}

/// The color that one reaction with emoji `emoji` adds.
pub fn emoji_to_rgb_delta(emoji: &str) -> (r: (u8, u8, u8))
    ensures
        r == emoji_delta(emoji@),
{
    if text_equals(emoji, "\u{1F44D}") {
        (15, 15, 0)
    } else if text_equals(emoji, "\u{2764}\u{FE0F}") {
        (20, 8, 10)
    } else if text_equals(emoji, "\u{1F602}") {
        (18, 14, 0)
    } else if text_equals(emoji, "\u{1F389}") {
        (16, 8, 16)
    } else if text_equals(emoji, "\u{1F525}") {
        (20, 10, 0)
    } else if text_equals(emoji, "\u{2728}") {
        (18, 18, 18)
    } else if text_equals(emoji, "\u{1F440}") {
        (0, 15, 18)
    } else if text_equals(emoji, "\u{1F914}") {
        (12, 6, 15)
    } else if text_equals(emoji, "\u{1F44E}") {
        (10, 0, 0)
    } else if text_equals(emoji, "\u{1F622}") {
        (0, 6, 12)
    } else if text_equals(emoji, "\u{1F621}") {
        (15, 0, 0)
    } else {
        (8, 8, 8)
    }
}

/// Which channel of a color: 0 red, 1 green, 2 blue.
pub open spec fn channel(c: (u8, u8, u8), k: int) -> int {
    if k == 0 {
        c.0 as int
    } else if k == 1 {
        c.1 as int
    } else {
        c.2 as int
    }
}

/// What the reactions add to channel `k`, uncapped.
pub open spec fn channel_total(entries: Seq<(String, usize)>, k: int) -> int
    decreases entries.len(),
{
    if entries.len() == 0 {
        0
    } else {
        channel_total(entries.drop_last(), k) + channel(emoji_delta(entries.last().0@), k) * entries.last().1
    }
}

pub open spec fn capped(v: int) -> u8 {
    if v > 255 {
        255
    } else {
        v as u8
    }
}

/// The color of a post with the given reaction counts; a post whose reactions add nothing gets
/// a muted blue.
pub open spec fn post_color(entries: Seq<(String, usize)>) -> (u8, u8, u8) {
    let c = (capped(channel_total(entries, 0)), capped(channel_total(entries, 1)), capped(channel_total(entries, 2)));
    if c.0 == 0 && c.1 == 0 && c.2 == 0 {
        (60, 65, 90)
    } else {
        c
    }
}

proof fn lemma_channel_total_nonneg(entries: Seq<(String, usize)>, k: int)
    ensures
        channel_total(entries, k) >= 0,
    decreases entries.len(),
{
    if entries.len() > 0 {
        lemma_channel_total_nonneg(entries.drop_last(), k);
        let d = channel(emoji_delta(entries.last().0@), k);
        assert(d >= 0);
        assert(d * entries.last().1 >= 0) by (nonlinear_arith)
            requires d >= 0, entries.last().1 >= 0;
    }
}

fn add_capped(acc: u16, delta: u8, count: usize) -> (r: u16)
    requires
        acc <= 255,
    ensures
        r == if acc + delta * count > 255 { 255 } else { acc + delta * count },
{
    assert((delta as u128) * (count as u128) <= 255 * 0x1_0000_0000_0000_0000) by (nonlinear_arith)
        requires delta <= 255, count <= 0xffff_ffff_ffff_ffff;
    let term: u128 = (delta as u128) * (count as u128);
    if (acc as u128) + term > 255 {
        255
    } else {
        (acc as u128 + term) as u16
    }
}

/// The color of a post from its reaction counts (emoji and count, in any order).
pub fn calculate_post_color(entries: &Vec<(String, usize)>) -> (c: (u8, u8, u8))
    ensures
        c == post_color(entries@),
{
    let mut r: u16 = 0;
    let mut g: u16 = 0;
    let mut b: u16 = 0;
    let mut i: usize = 0;
    while i < entries.len()
        invariant
            i <= entries@.len(),
            r <= 255 && g <= 255 && b <= 255,
            r == capped(channel_total(entries@.subrange(0, i as int), 0)),
            g == capped(channel_total(entries@.subrange(0, i as int), 1)),
            b == capped(channel_total(entries@.subrange(0, i as int), 2)),
        decreases entries@.len() - i,
    {
        let ghost pre = entries@.subrange(0, i as int);
        let ghost cur = entries@.subrange(0, i + 1);
        proof {
            assert(cur.drop_last() =~= pre);
            lemma_channel_total_nonneg(pre, 0);
            lemma_channel_total_nonneg(pre, 1);
            lemma_channel_total_nonneg(pre, 2);
        }
        let (dr, dg, db) = emoji_to_rgb_delta(entries[i].0.as_str());
        let count = entries[i].1;
        proof {
            assert(dr * count >= 0 && dg * count >= 0 && db * count >= 0) by (nonlinear_arith)
                requires dr >= 0, dg >= 0, db >= 0, count >= 0;
        }
        r = add_capped(r, dr, count);
        g = add_capped(g, dg, count);
        b = add_capped(b, db, count);
        i = i + 1;
    }
    assert(entries@.subrange(0, entries@.len() as int) =~= entries@);
    let c = (r as u8, g as u8, b as u8);
    if r == 0 && g == 0 && b == 0 {
        (60, 65, 90)
    } else {
        c
    }
}

} // verus!
