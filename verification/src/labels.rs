//! Texts the bar draws: ellipsized titles, the network and window labels,
//! workspace button labels, decimal numbers, and the token layout of meter
//! formats.
use vstd::prelude::*;

use crate::compositor::CompositorState;
use crate::compositor::WindowInfo;
use crate::compositor::WorkspaceInfo;
use crate::compositor::opt_view;
use crate::config::NetworkConfig;
use crate::network::NetworkSnapshot;
use crate::text::chars_eq;
use crate::text::chars_of;
use crate::text::is_digit;
use crate::text::string_of;
use crate::text::sub_chars;

verus! {

broadcast use vstd::string::group_string_axioms;

// ---------------------------------------------------------------------------
// Ellipsis
// ---------------------------------------------------------------------------

/// `s` cut to at most `max` characters: longer text keeps `max - 1`
/// characters (none when `max` is 0) followed by an ellipsis.
pub open spec fn truncated(s: Seq<char>, max: nat) -> Seq<char> {
    if s.len() <= max {
        s
    } else {
        let keep: int = if max == 0 {
            0
        } else {
            max - 1
        };
        s.take(keep).push('…')
    }
}

/// `s` cut to at most `max` characters, with an ellipsis when it was longer.
pub fn truncate(s: &str, max: usize) -> (r: String)
    ensures
        r@ == truncated(s@, max as nat),
{
    let cs = chars_of(s);
    if cs.len() <= max {
        return string_of(&cs);
    }
    let keep: usize = if max == 0 {
        0
    } else {
        max - 1
    };
    let mut t = sub_chars(&cs, 0, keep);
    t.push('…');
    assert(t@ =~= s@.take(keep as int).push('…'));
    string_of(&t)
}

// ---------------------------------------------------------------------------
// Decimal numbers
// ---------------------------------------------------------------------------

pub open spec fn digit_char(d: nat) -> char {
    if d == 0 {
        '0'
    } else if d == 1 {
        '1'
    } else if d == 2 {
        '2'
    } else if d == 3 {
        '3'
    } else if d == 4 {
        '4'
    } else if d == 5 {
        '5'
    } else if d == 6 {
        '6'
    } else if d == 7 {
        '7'
    } else if d == 8 {
        '8'
    } else {
        '9'
    }
}

/// The decimal digits of `n` (`n.to_string()` for an unsigned integer).
pub open spec fn decimal(n: nat) -> Seq<char>
    decreases n,
{
    if n < 10 {
        seq![digit_char(n)]
    } else {
        decimal(n / 10).push(digit_char(n % 10))
    }
}

fn digit_of(d: u64) -> (c: char)
    requires
        d < 10,
    ensures
        c == digit_char(d as nat),
{
    if d == 0 {
        '0'
    } else if d == 1 {
        '1'
    } else if d == 2 {
        '2'
    } else if d == 3 {
        '3'
    } else if d == 4 {
        '4'
    } else if d == 5 {
        '5'
    } else if d == 6 {
        '6'
    } else if d == 7 {
        '7'
    } else if d == 8 {
        '8'
    } else {
        '9'
    }
}

fn decimal_chars(n: u64) -> (r: Vec<char>)
    ensures
        r@ == decimal(n as nat),
    decreases n,
{
    if n < 10 {
        let mut v: Vec<char> = Vec::new();
        v.push(digit_of(n));
        assert(v@ =~= seq![digit_char(n as nat)]);
        v
    } else {
        let mut v = decimal_chars(n / 10);
        v.push(digit_of(n % 10));
        v
    }
}

/// `n` written in decimal.
pub fn decimal_string(n: u64) -> (r: String)
    ensures
        r@ == decimal(n as nat),
{
    string_of(&decimal_chars(n))
}

/// Law: a cut text never has more than `max` characters (for `max >= 1`),
/// and text that fits is left as it is.
pub proof fn lemma_truncated_fits(s: Seq<char>, max: nat)
    ensures
        max >= 1 ==> truncated(s, max).len() <= max,
        s.len() <= max ==> truncated(s, max) == s,
        s.len() > max && max >= 1 ==> truncated(s, max).take(max - 1) == s.take(max - 1),
{
    if s.len() > max && max >= 1 {
        assert(truncated(s, max).take(max - 1) =~= s.take(max - 1));
    }
}

/// Law: a decimal number reads back as the number it was written from.
pub proof fn lemma_decimal_reads_back(n: nat)
    ensures
        crate::text::all_digits(decimal(n)),
        crate::text::digits_value(decimal(n)) == n,
        decimal(n).len() >= 1,
    decreases n,
{
    let c = digit_char(n % 10);
    assert(c as int - '0' as int == n % 10);
    if n >= 10 {
        lemma_decimal_reads_back(n / 10);
        let d = decimal(n / 10);
        assert(decimal(n).drop_last() =~= d);
        assert(decimal(n).last() == c);
        assert(crate::text::digits_value(decimal(n)) == crate::text::digits_value(d) * 10 + (n % 10));
        assert((n / 10) * 10 + n % 10 == n);
    } else {
        assert(decimal(n).drop_last() =~= Seq::<char>::empty());
        assert(decimal(n).last() == c);
        assert(crate::text::digits_value(Seq::<char>::empty()) == 0);
    }
    assert forall|i: int| 0 <= i < decimal(n).len() implies crate::text::is_digit(
        #[trigger] decimal(n)[i],
    ) by {
        if n >= 10 && i < decimal(n).len() - 1 {
            assert(decimal(n)[i] == decimal(n / 10)[i]);
        }
    }
}

// ---------------------------------------------------------------------------
// Module labels
// ---------------------------------------------------------------------------

/// The network island's text: when connected, the connection's name (or
/// with `show_name` off, its interface when known), else "offline"; cut to
/// `max_chars` (at least one) characters.
pub open spec fn network_text(snap: NetworkSnapshot, cfg: NetworkConfig) -> Seq<char> {
    let raw = if snap.connected {
        if cfg.show_name {
            snap.label@
        } else {
            match snap.interface {
                Some(i) => i@,
                None => snap.label@,
            }
        }
    } else {
        "offline"@
    };
    truncated(
        raw,
        if cfg.max_chars == 0 {
            1
        } else {
            cfg.max_chars as nat
        },
    )
}

pub fn network_label(snap: &NetworkSnapshot, cfg: &NetworkConfig) -> (r: String)
    ensures
        r@ == network_text(*snap, *cfg),
{
    let max = if cfg.max_chars == 0 {
        1
    } else {
        cfg.max_chars
    };
    if snap.connected {
        if cfg.show_name {
            truncate(snap.label.as_str(), max)
        } else {
            match &snap.interface {
                Some(i) => truncate(i.as_str(), max),
                None => truncate(snap.label.as_str(), max),
            }
        }
    } else {
        truncate("offline", max)
    }
}

/// The window island's text on `output`: the focused window's title cut to
/// `max_chars` characters, or nothing (the island is then hidden).
pub fn window_title(c: &CompositorState, output: Option<&str>, max_chars: usize) -> (r: String)
    ensures
        r@ == match c.spec_focused_window_for(opt_view(output)) {
            Some(w) => truncated(w.title@, max_chars as nat),
            None => Seq::empty(),
        },
{
    match c.focused_window_for_output(output) {
        Some(w) => truncate(w.title.as_str(), max_chars),
        None => String::new(),
    }
}

/// All characters are ASCII digits (true of the empty name).
pub open spec fn all_ascii_digits(s: Seq<char>) -> bool {
    forall|i: int| 0 <= i < s.len() ==> is_digit(#[trigger] s[i])
}

/// The label of a workspace button: a numeric or short (at most three bytes)
/// name as it is, else the workspace index.
pub open spec fn workspace_text(ws: WorkspaceInfo) -> Seq<char> {
    if all_ascii_digits(ws.name@) || vstd::utf8::encode_utf8(ws.name@).len() <= 3 {
        ws.name@
    } else {
        decimal(ws.index as nat)
    }
}

pub fn workspace_label(ws: &WorkspaceInfo) -> (r: String)
    ensures
        r@ == workspace_text(*ws),
{
    let cs = chars_of(ws.name.as_str());
    let mut digits = true;
    let mut i: usize = 0;
    while i < cs.len()
        invariant
            i <= cs@.len(),
            digits == forall|k: int| 0 <= k < i ==> is_digit(#[trigger] cs@[k]),
        decreases cs@.len() - i,
    {
        if !('0' <= cs[i] && cs[i] <= '9') {
            digits = false;
        }
        i += 1;
    }
    if digits || crate::text::utf8_len_at_most(&cs, 3) {
        ws.name.clone()
    } else {
        decimal_string(ws.index as u64)
    }
}

/// The first window with id `id`.
pub open spec fn window_with_id(ws: Seq<WindowInfo>, id: u64) -> Option<WindowInfo>
    decreases ws.len(),
{
    if ws.len() == 0 {
        None
    } else if ws[0].id == id {
        Some(ws[0])
    } else {
        window_with_id(ws.drop_first(), id)
    }
}

/// The handle Hyprland focuses window `id` by: its focus token, or its id in
/// decimal when it has none; `None` when no such window is known.
pub fn focus_token_for(c: &CompositorState, id: u64) -> (r: Option<String>)
    ensures
        crate::config::opt_str_view(r) == match window_with_id(c.windows@, id) {
            Some(w) => Some(
                if w.focus_token@.len() == 0 {
                    decimal(id as nat)
                } else {
                    w.focus_token@
                },
            ),
            None => None,
        },
{
    let mut i: usize = 0;
    assert(c.windows@.skip(0) =~= c.windows@);
    while i < c.windows.len()
        invariant
            i <= c.windows@.len(),
            window_with_id(c.windows@, id) == window_with_id(c.windows@.skip(i as int), id),
        decreases c.windows@.len() - i,
    {
        assert(c.windows@.skip(i as int)[0] == c.windows@[i as int]);
        assert(c.windows@.skip(i as int).drop_first() =~= c.windows@.skip(i + 1));
        let w = &c.windows[i];
        if w.id == id {
            if w.focus_token.as_str().is_empty() {
                return Some(decimal_string(id));
            } else {
                return Some(w.focus_token.clone());
            }
        }
        i += 1;
    }
    assert(c.windows@.skip(i as int) =~= Seq::<WindowInfo>::empty());
    None
}

// ---------------------------------------------------------------------------
// Meter formats
// ---------------------------------------------------------------------------

/// One piece of a meter's format string.
#[derive(Debug, Clone)]
pub enum MeterPart {
    Label,
    Bar,
    Percent,
    Text(String),
}

pub enum MeterPartView {
    Label,
    Bar,
    Percent,
    Text(Seq<char>),
}

impl View for MeterPart {
    type V = MeterPartView;

    open spec fn view(&self) -> MeterPartView {
        match self {
            MeterPart::Label => MeterPartView::Label,
            MeterPart::Bar => MeterPartView::Bar,
            MeterPart::Percent => MeterPartView::Percent,
            MeterPart::Text(t) => MeterPartView::Text(t@),
        }
    }
}

/// Index of the first `c` in `s` at or after `from`.
pub open spec fn find_from(s: Seq<char>, c: char, from: int) -> Option<int>
    decreases s.len() - from,
{
    if from < 0 || from >= s.len() {
        None
    } else if s[from] == c {
        Some(from)
    } else {
        find_from(s, c, from + 1)
    }
}

/// What the token between braces stands for; an unknown token is kept as
/// text, braces included.
pub open spec fn token_part(s: Seq<char>, open: int, close: int) -> MeterPartView {
    let t = s.subrange(open + 1, close);
    if t == "label"@ {
        MeterPartView::Label
    } else if t == "bar"@ || t == "meter"@ {
        MeterPartView::Bar
    } else if t == "percent"@ || t == "pct"@ {
        MeterPartView::Percent
    } else {
        MeterPartView::Text(s.subrange(open, close + 1))
    }
}

/// The pieces of `s` from position `start` on, where literal text between
/// tokens starts at `lit`: `{label}`, `{bar}`/`{meter}` and
/// `{percent}`/`{pct}` are tokens, other text is kept literally.
pub open spec fn meter_pieces(s: Seq<char>, lit: int, start: int) -> Seq<MeterPartView>
    decreases s.len() - start,
{
    if start < 0 || start >= s.len() || lit < 0 || lit > start {
        if 0 <= lit < s.len() {
            seq![MeterPartView::Text(s.subrange(lit, s.len() as int))]
        } else {
            Seq::empty()
        }
    } else if s[start] == '{' && find_from(s, '}', start + 1) is Some {
        let close = find_from(s, '}', start + 1)->0;
        let text = if start > lit {
            seq![MeterPartView::Text(s.subrange(lit, start))]
        } else {
            Seq::empty()
        };
        if close < start + 1 || close >= s.len() {
            Seq::empty()
        } else {
            text + seq![token_part(s, start, close)] + meter_pieces(s, close + 1, close + 1)
        }
    } else {
        meter_pieces(s, lit, start + 1)
    }
}

/// The layout of a meter: its pieces, or label, bar and percent for an
/// empty format.
pub open spec fn meter_layout(s: Seq<char>) -> Seq<MeterPartView> {
    let p = meter_pieces(s, 0, 0);
    if p.len() == 0 {
        seq![MeterPartView::Label, MeterPartView::Bar, MeterPartView::Percent]
    } else {
        p
    }
}

pub proof fn lemma_find_from_bounds(s: Seq<char>, c: char, from: int)
    requires
        0 <= from,
    ensures
        find_from(s, c, from) matches Some(k) ==> from <= k < s.len() && s[k] == c,
        find_from(s, c, from) is None ==> forall|k: int| from <= k < s.len() ==> s[k] != c,
    decreases s.len() - from,
{
    if from < s.len() && s[from] != c {
        lemma_find_from_bounds(s, c, from + 1);
    }
}

fn find_char_from(s: &Vec<char>, c: char, from: usize) -> (r: Option<usize>)
    ensures
        match r {
            Some(k) => find_from(s@, c, from as int) == Some(k as int),
            None => find_from(s@, c, from as int) is None,
        },
{
    let mut i = from;
    while i < s.len()
        invariant
            from <= i,
            find_from(s@, c, from as int) == find_from(s@, c, i as int),
        decreases s@.len() - i,
    {
        if s[i] == c {
            return Some(i);
        }
        i += 1;
    }
    None
}

fn literal_eq(t: &Vec<char>, lit: &str) -> (r: bool)
    ensures
        r == (t@ == lit@),
{
    let l = chars_of(lit);
    chars_eq(t, &l)
}

fn token_of(s: &Vec<char>, open: usize, close: usize) -> (r: MeterPart)
    requires
        open < close < s@.len(),
    ensures
        r@ == token_part(s@, open as int, close as int),
{
    let t = sub_chars(s, open + 1, close);
    if literal_eq(&t, "label") {
        MeterPart::Label
    } else if literal_eq(&t, "bar") || literal_eq(&t, "meter") {
        MeterPart::Bar
    } else if literal_eq(&t, "percent") || literal_eq(&t, "pct") {
        MeterPart::Percent
    } else {
        MeterPart::Text(string_of(&sub_chars(s, open, close + 1)))
    }
}

pub open spec fn part_views(v: Seq<MeterPart>) -> Seq<MeterPartView> {
    v.map_values(|p: MeterPart| p@)
}

/// The pieces of a meter format (see `meter_layout`).
pub fn parse_meter_format(fmt: &str) -> (r: Vec<MeterPart>)
    ensures
        part_views(r@) == meter_layout(fmt@),
{
    let s = chars_of(fmt);
    let mut out: Vec<MeterPart> = Vec::new();
    let mut i: usize = 0;
    let mut lit: usize = 0;
    while i < s.len()
        invariant
            lit <= i <= s@.len(),
            part_views(out@) + meter_pieces(s@, lit as int, i as int) == meter_pieces(s@, 0, 0),
        decreases s@.len() - i,
    {
        if s[i] == '{' {
            if let Some(close) = find_char_from(&s, '}', i + 1) {
                proof {
                    lemma_find_from_bounds(s@, '}', i + 1);
                }
                let ghost before = part_views(out@);
                let ghost textp = if i > lit {
                    seq![MeterPartView::Text(s@.subrange(lit as int, i as int))]
                } else {
                    Seq::<MeterPartView>::empty()
                };
                if i > lit {
                    out.push(MeterPart::Text(string_of(&sub_chars(&s, lit, i))));
                }
                assert(part_views(out@) =~= before + textp);
                let ghost mid = part_views(out@);
                out.push(token_of(&s, i, close));
                assert(part_views(out@) =~= mid.push(token_part(s@, i as int, close as int)));
                assert(meter_pieces(s@, lit as int, i as int) == textp + seq![
                    token_part(s@, i as int, close as int),
                ] + meter_pieces(s@, close + 1, close + 1));
                assert(part_views(out@) + meter_pieces(s@, close + 1, close + 1) =~= before
                    + meter_pieces(s@, lit as int, i as int));
                i = close + 1;
                lit = i;
                continue;
            }
        }
        i += 1;
    }
    let ghost before = part_views(out@);
    if lit < s.len() {
        out.push(MeterPart::Text(string_of(&sub_chars(&s, lit, s.len()))));
        assert(part_views(out@) =~= before + meter_pieces(s@, lit as int, i as int));
    } else {
        assert(meter_pieces(s@, lit as int, i as int) =~= Seq::<MeterPartView>::empty());
        assert(part_views(out@) =~= before + meter_pieces(s@, lit as int, i as int));
    }
    if out.len() == 0 {
        out.push(MeterPart::Label);
        out.push(MeterPart::Bar);
        out.push(MeterPart::Percent);
        assert(part_views(out@) =~= seq![
            MeterPartView::Label,
            MeterPartView::Bar,
            MeterPartView::Percent,
        ]);
    }
    out
}

} // verus!
