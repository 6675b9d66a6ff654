//! StatusNotifierItem tray snapshots: the icon picked for an item, its title
//! fallbacks, the order the bar shows items in, and DBusMenu entries.
use vstd::prelude::*;

use crate::order::lemma_insert_stable_by;
use crate::order::lemma_text_le_total;
use crate::order::lemma_with_key_push;
use crate::order::sorted_by;
use crate::order::stable_sorted_by;
use crate::order::text_le;
use crate::order::with_key;
use crate::config::opt_str_view;
use crate::text::chars_lt;
use crate::text::chars_of;

verus! {

broadcast use vstd::string::group_string_axioms;

/// One ARGB32 icon image of a tray item.
#[derive(Debug, Clone, PartialEq, Eq)]
pub struct TrayPixmap {
    pub width: i32,
    pub height: i32,
    /// ARGB32 bytes.
    pub bytes: Vec<u8>,
}

pub struct TrayPixmapView {
    pub width: i32,
    pub height: i32,
    pub bytes: Seq<u8>,
}

impl View for TrayPixmap {
    type V = TrayPixmapView;

    open spec fn view(&self) -> TrayPixmapView {
        TrayPixmapView { width: self.width, height: self.height, bytes: self.bytes@ }
    }
}

/// What the bar shows of one tray item.
#[derive(Debug, Clone, PartialEq, Eq)]
pub struct TrayItemSnapshot {
    pub id: String,
    /// StatusNotifierItem `Id` (application identity).
    pub app_id: String,
    pub title: String,
    pub icon_name: Option<String>,
    pub icon_theme_path: Option<String>,
    pub attention_icon_name: Option<String>,
    pub needs_attention: bool,
    pub icon_pixmap: Option<TrayPixmap>,
    pub status: String,
}

/// The properties of a StatusNotifierItem that the bar reads.
#[derive(Debug, Clone)]
pub struct TrayItemSource {
    /// The item's `Id` property.
    pub id: String,
    pub title: Option<String>,
    pub status: String,
    pub needs_attention: bool,
    pub icon_name: Option<String>,
    pub icon_theme_path: Option<String>,
    pub attention_icon_name: Option<String>,
    pub icon_pixmap: Option<Vec<TrayPixmap>>,
    pub attention_icon_pixmap: Option<Vec<TrayPixmap>>,
}

/// One DBusMenu entry of a tray item's context menu.
#[derive(Debug)]
pub struct TrayMenuEntry {
    pub id: i32,
    pub label: String,
    pub enabled: bool,
    pub visible: bool,
    pub separator: bool,
    pub children: Vec<TrayMenuEntry>,
}

/// The context menu of one tray item.
#[derive(Debug)]
pub struct TrayMenuSnapshot {
    pub item_id: String,
    pub entries: Vec<TrayMenuEntry>,
}

// ---------------------------------------------------------------------------
// Icon choice
// ---------------------------------------------------------------------------

/// A pixmap the bar can draw: positive size and enough bytes for it.
pub open spec fn pixmap_ok(p: TrayPixmapView) -> bool {
    p.width > 0 && p.height > 0 && p.bytes.len() >= p.width * p.height * 4
}

pub open spec fn pixmap_area(p: TrayPixmapView) -> int {
    p.width * p.height
}

/// The usable pixmap of largest area; of several, the last one
/// (`Iterator::max_by_key`).
pub open spec fn best_of(s: Seq<TrayPixmapView>) -> Option<TrayPixmapView>
    decreases s.len(),
{
    if s.len() == 0 {
        None
    } else {
        let rest = best_of(s.drop_last());
        let p = s.last();
        if pixmap_ok(p) && (rest is None || pixmap_area(p) >= pixmap_area(rest->0)) {
            Some(p)
        } else {
            rest
        }
    }
}

pub open spec fn pix_views(s: Seq<TrayPixmap>) -> Seq<TrayPixmapView> {
    s.map_values(|p: TrayPixmap| p@)
}

pub open spec fn opt_pix_view(o: Option<TrayPixmap>) -> Option<TrayPixmapView> {
    match o {
        Some(p) => Some(p@),
        None => None,
    }
}

/// The largest usable pixmap of the list, if any.
pub fn best_pixmap(pixmaps: Option<&Vec<TrayPixmap>>) -> (r: Option<TrayPixmap>)
    ensures
        opt_pix_view(r) == match pixmaps {
            Some(list) => best_of(pix_views(list@)),
            None => None,
        },
{
    let list = match pixmaps {
        Some(l) => l,
        None => {
            return None;
        },
    };
    let ghost s = pix_views(list@);
    let mut best: Option<usize> = None;
    let mut best_area: i64 = 0;
    let mut i: usize = 0;
    while i < list.len()
        invariant
            i <= list@.len(),
            s == pix_views(list@),
            match best {
                Some(k) => k < i && best_of(s.take(i as int)) == Some(s[k as int]) && best_area
                    == pixmap_area(s[k as int]),
                None => best_of(s.take(i as int)) is None,
            },
        decreases list@.len() - i,
    {
        let p = &list[i];
        assert(s.take(i + 1).drop_last() =~= s.take(i as int));
        assert(s[i as int] == p@);
        let ok = if p.width > 0 && p.height > 0 {
            let w: u64 = p.width as u64;
            let h: u64 = p.height as u64;
            assert(w * h <= 0x3fff_ffff_0000_0001) by (nonlinear_arith)
                requires
                    w <= 0x7fff_ffff,
                    h <= 0x7fff_ffff,
            ;
            assert(w * h == p.width * p.height);
            let need: u64 = w * h * 4;
            (p.bytes.len() as u64) >= need
        } else {
            false
        };
        assert(ok == pixmap_ok(p@));
        if ok {
            let area: i64 = (p.width as i64) * (p.height as i64);
            let better = match best {
                None => true,
                Some(_) => area >= best_area,
            };
            if better {
                best = Some(i);
                best_area = area;
            }
        }
        i += 1;
    }
    assert(s.take(i as int) =~= s);
    match best {
        Some(k) => {
            let q = &list[k];
            let bytes = q.bytes.clone();
            assert(bytes@ =~= q.bytes@);
            Some(TrayPixmap { width: q.width, height: q.height, bytes })
        },
        None => None,
    }
}

// ---------------------------------------------------------------------------
// Item snapshot
// ---------------------------------------------------------------------------

/// `Some` of a non-empty string, else `None` (`.filter(|s| !s.is_empty())`).
pub open spec fn non_empty(o: Option<Seq<char>>) -> Option<Seq<char>> {
    match o {
        Some(s) => if s.len() > 0 {
            Some(s)
        } else {
            None
        },
        None => None,
    }
}

/// The title shown for an item: its own non-empty title, else its `Id`, else
/// the bus address it was registered under.
pub open spec fn item_title(address: Seq<char>, item: TrayItemSource) -> Seq<char> {
    match non_empty(opt_str_view(item.title)) {
        Some(t) => t,
        None => if item.id@.len() == 0 {
            address
        } else {
            item.id@
        },
    }
}

/// The pixmaps the icon is chosen from: while the item asks for attention,
/// its attention pixmaps when it has them.
pub open spec fn icon_source(item: TrayItemSource) -> Option<Vec<TrayPixmap>> {
    if item.needs_attention && item.attention_icon_pixmap is Some {
        item.attention_icon_pixmap
    } else {
        item.icon_pixmap
    }
}

fn clone_non_empty(o: &Option<String>) -> (r: Option<String>)
    ensures
        opt_str_view(r) == non_empty(opt_str_view(*o)),
{
    match o {
        Some(s) => if !s.as_str().is_empty() {
            Some(s.clone())
        } else {
            None
        },
        None => None,
    }
}

/// The snapshot of one tray item registered under `address`.
pub fn item_to_snapshot(address: &str, item: &TrayItemSource) -> (r: TrayItemSnapshot)
    ensures
        r.id@ == address@,
        r.app_id@ == item.id@,
        r.title@ == item_title(address@, *item),
        opt_str_view(r.icon_name) == non_empty(opt_str_view(item.icon_name)),
        opt_str_view(r.icon_theme_path) == non_empty(opt_str_view(item.icon_theme_path)),
        opt_str_view(r.attention_icon_name) == non_empty(opt_str_view(item.attention_icon_name)),
        r.needs_attention == item.needs_attention,
        opt_pix_view(r.icon_pixmap) == match icon_source(*item) {
            Some(list) => best_of(pix_views(list@)),
            None => None,
        },
        r.status@ == item.status@,
{
    let source = if item.needs_attention && item.attention_icon_pixmap.is_some() {
        item.attention_icon_pixmap.as_ref()
    } else {
        item.icon_pixmap.as_ref()
    };
    let icon_pixmap = best_pixmap(source);
    let title = match clone_non_empty(&item.title) {
        Some(t) => t,
        None => if item.id.as_str().is_empty() {
            address.to_string()
        } else {
            item.id.clone()
        },
    };
    TrayItemSnapshot {
        id: address.to_string(),
        app_id: item.id.clone(),
        title,
        icon_name: clone_non_empty(&item.icon_name),
        icon_theme_path: clone_non_empty(&item.icon_theme_path),
        attention_icon_name: clone_non_empty(&item.attention_icon_name),
        needs_attention: item.needs_attention,
        icon_pixmap,
        status: item.status.clone(),
    }
}

// ---------------------------------------------------------------------------
// Order of items
// ---------------------------------------------------------------------------

pub open spec fn title_key() -> spec_fn(TrayItemSnapshot) -> Seq<char> {
    |t: TrayItemSnapshot| t.title@
}

pub open spec fn title_le() -> spec_fn(Seq<char>, Seq<char>) -> bool {
    |a: Seq<char>, b: Seq<char>| text_le(a, b)
}

/// The items in title order; items of equal title keep their order.
pub fn sort_by_title(items: Vec<TrayItemSnapshot>) -> (r: Vec<TrayItemSnapshot>)
    ensures
        stable_sorted_by(r@, items@, title_key(), title_le()),
{
    proof {
        lemma_text_le_total();
    }
    let ghost key = title_key();
    let ghost le = title_le();
    let ghost input = items@;
    assert(input.len() == items.len());
    let mut rest = items;
    let mut r: Vec<TrayItemSnapshot> = Vec::new();
    let mut titles: Vec<Vec<char>> = Vec::new();
    let mut i: usize = 0;
    assert(input.take(0) =~= Seq::<TrayItemSnapshot>::empty());
    assert forall|k: Seq<char>| #[trigger] with_key(r@, key, k) == with_key(
        input.take(0),
        key,
        k,
    ) by {
        reveal(Seq::filter);
    }
    while rest.len() > 0
        invariant
            i <= input.len(),
            rest@ == input.skip(i as int),
            i + rest@.len() == input.len(),
            input.len() <= usize::MAX,
            key == title_key(),
            le == title_le(),
            crate::order::total_order(le),
            titles@.len() == r@.len(),
            forall|j: int| 0 <= j < r@.len() ==> (#[trigger] titles@[j])@ == r@[j].title@,
            sorted_by(r@, key, le),
            forall|k: Seq<char>| #[trigger] with_key(r@, key, k) == with_key(
                input.take(i as int),
                key,
                k,
            ),
        decreases rest@.len(),
    {
        assert(rest@[0] == input[i as int]);
        let x = rest.remove(0);
        assert(rest@ =~= input.skip(i + 1));
        let xt = chars_of(x.title.as_str());
        let mut p: usize = 0;
        loop
            invariant
                p <= r@.len(),
                titles@.len() == r@.len(),
                forall|j: int| 0 <= j < r@.len() ==> (#[trigger] titles@[j])@ == r@[j].title@,
                xt@ == x.title@,
                key == title_key(),
                le == title_le(),
                forall|k: int| 0 <= k < p ==> le(key(#[trigger] r@[k]), key(x)),
            ensures
                p <= r@.len(),
                forall|k: int| 0 <= k < p ==> le(key(#[trigger] r@[k]), key(x)),
                p == r@.len() || !le(key(r@[p as int]), key(x)),
            decreases r@.len() - p,
        {
            if p >= r.len() {
                break;
            }
            if chars_lt(&xt, &titles[p]) {
                break;
            }
            p += 1;
        }
        let ghost before = r@;
        assert forall|k: int| p <= k < before.len() implies !le(key(#[trigger] before[k]), key(x))
            by {
            if k > p {
                assert(le(key(before[p as int]), key(before[k])));
            }
        }
        proof {
            lemma_insert_stable_by(before, p as int, x, key, le);
            lemma_with_key_push(input.take(i as int), x, key);
            assert(input.take(i + 1) =~= input.take(i as int).push(x));
        }
        let ghost tbefore = titles@;
        r.insert(p, x);
        titles.insert(p, xt);
        assert forall|j: int| 0 <= j < r@.len() implies (#[trigger] titles@[j])@ == r@[j].title@ by {
            if j > p {
                assert(titles@[j] == tbefore[j - 1]);
                assert(r@[j] == before[j - 1]);
            } else if j < p {
                assert(titles@[j] == tbefore[j]);
                assert(r@[j] == before[j]);
            }
        }
        i += 1;
    }
    assert(input.take(i as int) =~= input);
    r
}

/// Rows a menu takes: its visible entries, and at least one.
pub open spec fn menu_rows(menu: Option<TrayMenuSnapshot>) -> int {
    match menu {
        Some(m) => {
            let c = m.entries@.filter(|e: TrayMenuEntry| e.visible).len();
            if c == 0 {
                1
            } else {
                c as int
            }
        },
        None => 1,
    }
}

/// Number of entries a menu shows (hidden entries are skipped); at least one
/// row is reserved for an empty or missing menu.
pub fn visible_entry_rows(menu: Option<&TrayMenuSnapshot>) -> (n: usize)
    ensures
        n == menu_rows(match menu {
            Some(m) => Some(*m),
            None => None,
        }),
{
    match menu {
        None => 1,
        Some(m) => {
            let ghost pred = |e: TrayMenuEntry| e.visible;
            let mut c: usize = 0;
            let mut i: usize = 0;
            assert(m.entries@.take(0).filter(pred) =~= Seq::<TrayMenuEntry>::empty()) by {
                reveal(Seq::filter);
            }
            while i < m.entries.len()
                invariant
                    i <= m.entries@.len(),
                    pred == (|e: TrayMenuEntry| e.visible),
                    c == m.entries@.take(i as int).filter(pred).len(),
                    c <= i,
                decreases m.entries@.len() - i,
            {
                proof {
                    reveal(Seq::filter);
                    assert(m.entries@.take(i + 1).drop_last() =~= m.entries@.take(i as int));
                }
                if m.entries[i].visible {
                    c += 1;
                }
                i += 1;
            }
            assert(m.entries@.take(i as int) =~= m.entries@);
            if c == 0 {
                1
            } else {
                c
            }
        },
    }
}

} // verus!

verus! {

/// Bytes of a `w` by `h` ARGB32 image (`w * h * 4`, saturating).
pub open spec fn argb_len(w: int, h: int) -> int {
    if w * h * 4 > usize::MAX {
        usize::MAX as int
    } else {
        w * h * 4
    }
}

/// The first `n` bytes of ARGB32 pixels reordered as RGBA.
pub open spec fn argb_as_rgba(bytes: Seq<u8>, n: int) -> Seq<u8> {
    Seq::new(
        n as nat,
        |i: int|
            {
                let j = i - i % 4;
                if i % 4 == 0 {
                    bytes[j + 1]
                } else if i % 4 == 1 {
                    bytes[j + 2]
                } else if i % 4 == 2 {
                    bytes[j + 3]
                } else {
                    bytes[j]
                }
            },
    )
}

/// The pixmap as an RGBA image `(width, height, bytes)`: `None` when it has
/// no area or too few bytes; negative sizes count as zero. StatusNotifierItem
/// pixmaps are ARGB32 in network byte order.
pub fn argb_to_rgba(px: &TrayPixmap) -> (r: Option<(u32, u32, Vec<u8>)>)
    ensures
        ({
            let w: int = if px.width < 0 { 0 } else { px.width as int };
            let h: int = if px.height < 0 { 0 } else { px.height as int };
            let n = argb_len(w, h);
            match r {
                None => w == 0 || h == 0 || px.bytes@.len() < n,
                Some((rw, rh, v)) => w > 0 && h > 0 && px.bytes@.len() >= n && rw == w && rh == h
                    && v@ == argb_as_rgba(px.bytes@, n / 4 * 4),
            }
        }),
{
    let w: u32 = if px.width < 0 {
        0
    } else {
        px.width as u32
    };
    let h: u32 = if px.height < 0 {
        0
    } else {
        px.height as u32
    };
    if w == 0 || h == 0 {
        return None;
    }
    let w128: u128 = w as u128;
    let h128: u128 = h as u128;
    assert(w128 * h128 <= 0xffff_fffe_0000_0001) by (nonlinear_arith)
        requires
            w128 <= 0xffff_ffff,
            h128 <= 0xffff_ffff,
    ;
    let wh: u128 = w128 * h128 * 4;
    let expected: usize = if wh > usize::MAX as u128 {
        usize::MAX
    } else {
        wh as usize
    };
    if px.bytes.len() < expected {
        return None;
    }
    let chunks = expected / 4;
    let ghost n: int = chunks * 4;
    let mut out: Vec<u8> = Vec::new();
    let mut j: usize = 0;
    while j < chunks
        invariant
            j <= chunks,
            chunks * 4 <= expected <= px.bytes@.len(),
            out@.len() == j * 4,
            forall|i: int| 0 <= i < out@.len() ==> out@[i] == #[trigger] argb_as_rgba(px.bytes@, n)[i],
            n == chunks * 4,
        decreases chunks - j,
    {
        let b = 4 * j;
        let a = px.bytes[b];
        let rr = px.bytes[b + 1];
        let g = px.bytes[b + 2];
        let bl = px.bytes[b + 3];
        let ghost before = out@;
        out.push(rr);
        out.push(g);
        out.push(bl);
        out.push(a);
        assert forall|i: int| 0 <= i < out@.len() implies out@[i] == #[trigger] argb_as_rgba(
            px.bytes@,
            n,
        )[i] by {
            if i >= before.len() {
                assert(i - i % 4 == b) by (nonlinear_arith)
                    requires
                        b == 4 * j,
                        4 * j <= i < 4 * j + 4,
                ;
                assert(i % 4 == i - b) by (nonlinear_arith)
                    requires
                        b == 4 * j,
                        4 * j <= i < 4 * j + 4,
                ;
            } else {
                assert(out@[i] == before[i]);
            }
        }
        j += 1;
    }
    assert(out@ =~= argb_as_rgba(px.bytes@, n));
    Some((w, h, out))
}

} // verus!
