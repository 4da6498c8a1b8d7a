//! The search result list: scrolling, title and match highlighting.

use vstd::prelude::*;

use crate::text::{concat, decimal, u64_to_decimal};

verus! {

/// Keep the cursor at least this many rows from the viewport edge.
pub const SCROLLOFF: usize = 3;

/// The scroll offset that keeps the cursor visible in a viewport of
/// `viewport` rows over `len` rows, with a margin of `SCROLLOFF` rows
/// (at most half the viewport), never scrolling past the end.
pub open spec fn adjust_scroll_spec(cursor: usize, scroll: usize, len: usize, viewport: usize) -> int {
    if viewport == 0 || len == 0 {
        scroll as int
    } else {
        let max_scroll: int = if len >= viewport { len - viewport } else { 0 };
        let off: int = if 3 < viewport / 2 { 3 } else { (viewport / 2) as int };
        let keep: int = if viewport >= off { viewport - off } else { 0 };
        let s: int = if cursor < scroll + off {
            if cursor >= off { cursor - off } else { 0 }
        } else if cursor >= scroll + keep {
            if cursor + off + 1 >= viewport { cursor + off + 1 - viewport } else { 0 }
        } else {
            scroll as int
        };
        if s < max_scroll { s } else { max_scroll }
    }
}

/// The new scroll offset of the result list.
pub fn adjust_scroll(cursor: usize, scroll: usize, len: usize, viewport: usize) -> (s: usize)
    ensures
        s == adjust_scroll_spec(cursor, scroll, len, viewport),
{
    if viewport == 0 || len == 0 {
        return scroll;
    }
    let max_scroll: u128 = if len >= viewport { (len - viewport) as u128 } else { 0 };
    let off: u128 = if SCROLLOFF < viewport / 2 { SCROLLOFF as u128 } else { (viewport / 2) as u128 };
    let keep: u128 = viewport as u128 - off;
    let c = cursor as u128;
    let sc = scroll as u128;
    let v = viewport as u128;
    let s: u128 = if c < sc + off {
        if c >= off { c - off } else { 0 }
    } else if c >= sc + keep {
        if c + off + 1 >= v { c + off + 1 - v } else { 0 }
    } else {
        sc
    };
    let r = if s < max_scroll { s } else { max_scroll };
    r as usize
}

/// The title of the result list.
pub fn results_title(query_empty: bool, count: usize) -> (s: String)
    ensures
        s@ == (if query_empty {
            " results (browsing, type to search)"@
        } else {
            " results ("@ + decimal(count as nat) + ")"@
        }),
{
    if query_empty {
        " results (browsing, type to search)".to_owned()
    } else {
        let a = concat(" results (", u64_to_decimal(count as u64).as_str());
        concat(a.as_str(), ")")
    }
}

/// The spans of a text of `n` characters with the highlighted character
/// ranges `ranges` (from `pos` on): plain text up to each range, the range
/// itself, then the rest; a range starting before the end of the previous
/// one is skipped. Each span is `(from, to, highlighted)` in characters.
pub open spec fn spans_from(n: usize, ranges: Seq<(usize, usize)>, pos: usize) -> Seq<(usize, usize, bool)>
    decreases ranges.len(),
{
    if ranges.len() == 0 {
        if pos < n { seq![(pos, n, false)] } else { Seq::empty() }
    } else {
        let (s, e) = ranges[0];
        if s < pos {
            spans_from(n, ranges.drop_first(), pos)
        } else {
            let plain = if pos < n { seq![(pos, if s < n { s } else { n }, false)] } else { Seq::empty() };
            let hi = if s < n { seq![(s, if e < n { e } else { n }, true)] } else { Seq::empty() };
            plain + hi + spans_from(n, ranges.drop_first(), e)
        }
    }
}

/// The spans of a text of `n` characters with highlighted `ranges`; with
/// no ranges, the whole text as one plain span.
pub open spec fn highlight_spec(n: usize, ranges: Seq<(usize, usize)>) -> Seq<(usize, usize, bool)> {
    if ranges.len() == 0 { seq![(0usize, n, false)] } else { spans_from(n, ranges, 0) }
}

/// Split a text of `n` characters into plain and highlighted spans.
pub fn highlight_spans(n: usize, ranges: &[(usize, usize)]) -> (r: Vec<(usize, usize, bool)>)
    ensures
        r@ == highlight_spec(n, ranges@),
{
    let mut r: Vec<(usize, usize, bool)> = Vec::new();
    if ranges.len() == 0 {
        r.push((0, n, false));
        return r;
    }
    let mut pos: usize = 0;
    let mut i: usize = 0;
    assert(ranges@.skip(0) == ranges@);
    while i < ranges.len()
        invariant
            i <= ranges.len(),
            r@ + spans_from(n, ranges@.skip(i as int), pos) == spans_from(n, ranges@, 0),
        decreases ranges.len() - i,
    {
        let ghost rest = ranges@.skip(i as int);
        assert(rest[0] == ranges@[i as int]);
        assert(rest.drop_first() == ranges@.skip(i + 1));
        let (s, e) = ranges[i];
        if s >= pos {
            let ghost before = r@;
            if pos < n {
                r.push((pos, if s < n { s } else { n }, false));
            }
            if s < n {
                r.push((s, if e < n { e } else { n }, true));
            }
            proof {
                let plain = if pos < n { seq![(pos, if s < n { s } else { n }, false)] } else { Seq::empty() };
                let hi = if s < n { seq![(s, if e < n { e } else { n }, true)] } else { Seq::empty() };
                assert(r@ == before + plain + hi);
                assert(spans_from(n, rest, pos) == plain + hi + spans_from(n, ranges@.skip(i + 1), e));
            }
            pos = e;
        }
        i += 1;
    }
    if pos < n {
        r.push((pos, n, false));
    }
    r
}

} // verus!
