//! The computations behind the terminal views: status and header texts,
//! the split of the body, and the help popup's place.

pub mod graph;
pub mod list;
pub mod options;
pub mod tree;

use vstd::prelude::*;

use crate::app::{Phase, Tab};
use crate::text::{chars_of, concat, decimal, string_from_range, u64_to_decimal};

verus! {

/// How a piece of text is coloured; the renderer maps tones to the theme.
#[derive(Debug, Clone, Copy, PartialEq, Eq, Structural)]
pub enum Tone {
    Plain,
    Fg,
    FgBold,
    Accent,
    AccentBold,
    Accent2,
    Accent2Bold,
    Muted,
    MutedBold,
    BadgeP,
    BadgePBold,
    BadgeNBold,
    Focus,
}

/// The age text of the startup prompt: how long before `now` the cache
/// was written at `timestamp` (both UNIX epoch seconds; see `age_text_spec`).
pub open spec fn startup_age_spec(timestamp: u64, now: u64) -> Seq<char> {
    crate::db::age_text_spec(timestamp, now)
}

/// The age text of the startup prompt.
pub fn startup_age_text(timestamp: u64, now: u64) -> (s: String)
    ensures
        s@ == startup_age_spec(timestamp, now),
{
    crate::db::age_text_between(timestamp, now)
}

/// The frames of the loading spinner.
pub open spec fn spinner_frame(i: nat) -> Seq<char> {
    if i == 0 { "⠋"@ }
    else if i == 1 { "⠙"@ }
    else if i == 2 { "⠹"@ }
    else if i == 3 { "⠸"@ }
    else if i == 4 { "⠼"@ }
    else if i == 5 { "⠴"@ }
    else if i == 6 { "⠦"@ }
    else if i == 7 { "⠧"@ }
    else if i == 8 { "⠇"@ }
    else { "⠏"@ }
}

fn spinner(i: usize) -> (s: &'static str)
    requires
        i < 10,
    ensures
        s@ == spinner_frame(i as nat),
{
    if i == 0 { "⠋" }
    else if i == 1 { "⠙" }
    else if i == 2 { "⠹" }
    else if i == 3 { "⠸" }
    else if i == 4 { "⠼" }
    else if i == 5 { "⠴" }
    else if i == 6 { "⠦" }
    else if i == 7 { "⠧" }
    else if i == 8 { "⠇" }
    else { "⠏" }
}

/// The first `k` characters of `s` (all of them when shorter).
pub open spec fn first_chars(s: Seq<char>, k: nat) -> Seq<char> {
    if s.len() <= k { s } else { s.take(k as int) }
}

/// The first `k` characters of `s`.
pub fn take_chars(s: &str, k: usize) -> (r: String)
    ensures
        r@ == first_chars(s@, k as nat),
{
    let cs = chars_of(s);
    let end = if cs.len() <= k { cs.len() } else { k };
    let r = string_from_range(&cs, 0, end);
    assert(cs@.subrange(0, end as int) == first_chars(s@, k as nat));
    r
}

/// What the index in use shows in the status bar: its size and commit.
pub struct ReadyView {
    pub packages: usize,
    pub commit: String,
}

/// The left part of the status bar for `phase` (`size_text`: the cache
/// size in MB as shown in the startup prompt; `ready`: the index in use).
pub open spec fn status_left_spec(
    phase: Phase,
    tick: u64,
    ready: Option<ReadyView>,
    matches: usize,
    query_empty: bool,
    size_text: Seq<char>,
    now: u64,
) -> (Seq<char>, Tone) {
    match phase {
        Phase::Startup { timestamp, commit, .. } => (
            "💾 cached index found · "@ + size_text + " MB · "@ + commit@ + " · "@ + startup_age_spec(timestamp, now)
                + "  (c=continue  r=rebuild)"@,
            Tone::Accent,
        ),
        Phase::Loading { done, total } => (
            spinner_frame((((tick as usize) / 3) % 10) as nat) + " indexing Nix packages… "@
                + (if total > 0 { decimal(done as nat) + "/"@ + decimal(total as nat) } else { "starting"@ })
                + " (first run can take minutes)"@,
            Tone::Accent,
        ),
        Phase::Ready { fresh, unkeyed } => match ready {
            None => (Seq::empty(), Tone::Plain),
            Some(r) => {
                let commit = if r.commit@.len() == 0 { "unknown commit"@ } else { first_chars(r.commit@, 7) };
                let text = decimal(r.packages as nat) + " pkgs"@ + " · cache "@ + (if fresh { "fresh"@ } else { "rebuilt"@ })
                    + (if unkeyed { " · cache unverified (nix describe unavailable)"@ } else { Seq::empty() })
                    + " · "@ + commit;
                if matches > 0 && !query_empty {
                    (decimal(matches as nat) + " matches · "@ + text, Tone::Accent)
                } else {
                    (text, Tone::Muted)
                }
            },
        },
        Phase::Failed { msg } => ("✗ "@ + msg@ + " — press R to retry"@, Tone::Focus),
    }
}

/// The left part of the status bar.
pub fn status_left(
    phase: &Phase,
    tick: u64,
    ready: Option<&ReadyView>,
    matches: usize,
    query_empty: bool,
    size_text: &str,
    now: u64,
) -> (r: (String, Tone))
    ensures
        r.0@ == status_left_spec(*phase, tick, match ready { Some(v) => Some(*v), None => None }, matches, query_empty, size_text@, now).0,
        r.1 == status_left_spec(*phase, tick, match ready { Some(v) => Some(*v), None => None }, matches, query_empty, size_text@, now).1,
{
    match phase {
        Phase::Startup { timestamp, commit, .. } => {
            let a = concat("💾 cached index found · ", size_text);
            let b = concat(a.as_str(), " MB · ");
            let c = concat(b.as_str(), commit.as_str());
            let d = concat(c.as_str(), " · ");
            let age = startup_age_text(*timestamp, now);
            let e = concat(d.as_str(), age.as_str());
            (concat(e.as_str(), "  (c=continue  r=rebuild)"), Tone::Accent)
        },
        Phase::Loading { done, total } => {
            let frame = spinner(((tick as usize) / 3) % 10);
            let a = concat(frame, " indexing Nix packages… ");
            let progress = if *total > 0 {
                let x = concat(u64_to_decimal(*done).as_str(), "/");
                concat(x.as_str(), u64_to_decimal(*total).as_str())
            } else {
                "starting".to_owned()
            };
            let b = concat(a.as_str(), progress.as_str());
            (concat(b.as_str(), " (first run can take minutes)"), Tone::Accent)
        },
        Phase::Ready { fresh, unkeyed } => match ready {
            None => (String::new(), Tone::Plain),
            Some(r) => {
                let commit = if r.commit.as_str().is_empty() {
                    "unknown commit".to_owned()
                } else {
                    take_chars(r.commit.as_str(), 7)
                };
                let n = u64_to_decimal(r.packages as u64);
                let t1 = concat(n.as_str(), " pkgs");
                let t2 = concat(t1.as_str(), " · cache ");
                let t3 = concat(t2.as_str(), if *fresh { "fresh" } else { "rebuilt" });
                let t4 = if *unkeyed {
                    concat(t3.as_str(), " · cache unverified (nix describe unavailable)")
                } else {
                    t3
                };
                let t5 = concat(t4.as_str(), " · ");
                let text = concat(t5.as_str(), commit.as_str());
                if matches > 0 && !query_empty {
                    let m = u64_to_decimal(matches as u64);
                    let x = concat(m.as_str(), " matches · ");
                    (concat(x.as_str(), text.as_str()), Tone::Accent)
                } else {
                    (text, Tone::Muted)
                }
            },
        },
        Phase::Failed { msg } => {
            let a = concat("✗ ", msg.as_str());
            (concat(a.as_str(), " — press R to retry"), Tone::Focus)
        },
    }
}

/// The right part of the status bar.
pub fn status_right(theme_name: &str) -> (s: String)
    ensures
        s@ == theme_name@ + " · ? help · q quit · R rebuild"@,
{
    concat(theme_name, " · ? help · q quit · R rebuild")
}

/// Spaces between the two parts of the status bar (of display widths
/// `left` and `right`) on a bar `width` columns wide: the gap that right-aligns
/// the right part when there is room to spare, else none.
pub fn status_gap(width: usize, left: usize, right: usize) -> (g: usize)
    ensures
        g == (if width > left + right + 4 { width - left - right } else { 0 }),
{
    if left <= width && right <= width - left && width - left - right > 4 {
        width - left - right
    } else {
        0
    }
}

/// The title of a tab in the tab bar: ` label(key) `.
pub fn tab_title(tab: Tab) -> (s: String)
    ensures
        s@ == " "@ + tab.label_spec() + seq!['(', tab.key_spec()] + ") "@,
{
    let mut b = concat(" ", tab.label());
    crate::text::push_char(&mut b, '(');
    crate::text::push_char(&mut b, tab.key());
    concat(b.as_str(), ") ")
}

/// The hint shown in an empty search box.
pub fn search_placeholder(index_loaded: bool, query_empty: bool) -> (s: &'static str)
    ensures
        s@ == (if !index_loaded {
            "index loading — search will unlock…"@
        } else if query_empty {
            "type to search 32,500 packages (name + synopsis)"@
        } else {
            ""@
        }),
{
    if !index_loaded {
        "index loading — search will unlock…"
    } else if query_empty {
        "type to search 32,500 packages (name + synopsis)"
    } else {
        ""
    }
}

/// Width of the list pane of a split body `width` columns wide: 55% of the
/// width (at least 30 counted), leaving at least 30 columns to the right.
pub open spec fn left_width_spec(width: u16) -> u16 {
    let w: u16 = if width < 30 { 30 } else { width };
    let half = ((w as int * 55) % 0x1_0000) as u16 / 100;
    let room: u16 = if width >= 30 { (width - 30) as u16 } else { 0 };
    if half < room { half } else { room }
}

/// Width of the list pane of a split body.
pub fn left_width(width: u16) -> (w: u16)
    ensures
        w == left_width_spec(width),
{
    let w: u16 = if width < 30 { 30 } else { width };
    let half = w.wrapping_mul(55) / 100;
    let room = width.saturating_sub(30);
    if half < room { half } else { room }
}

/// The help popup inside an area at `(x, y)` of `width` × `height`: at most
/// 76 × 26, centred.
pub fn help_popup(x: u16, y: u16, width: u16, height: u16) -> (r: (u16, u16, u16, u16))
    requires
        x + width <= u16::MAX,
        y + height <= u16::MAX,
    ensures
        r.2 == (if width < 76 { width } else { 76 }),
        r.3 == (if height < 26 { height } else { 26 }),
        r.0 == x + (width - r.2) / 2,
        r.1 == y + (height - r.3) / 2,
{
    let w = if width < 76 { width } else { 76 };
    let h = if height < 26 { height } else { 26 };
    (x + (width - w) / 2, y + (height - h) / 2, w, h)
}

} // verus!
