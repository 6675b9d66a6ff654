//! The bar's window bookkeeping: which popups (tray menus, hover tooltips) are
//! open, the tray menu waiting on its contents, which monitor each bar surface
//! is pinned to, custom island texts and the recent errors. Each user or
//! service event is a method that updates this state and says which popup
//! surfaces to close or open; the windowing layer performs that.
use vstd::prelude::*;

use crate::compositor::CompositorState;
use crate::compositor::OutputInfo;
use crate::compositor::names_some_output;
use crate::custom::CustomSnapshot;
use crate::order::lemma_filter_pairwise;
use crate::order::pairwise;
use crate::text::chars_eq;
use crate::text::chars_of;
use crate::text::seq_lt;
use crate::tray::TrayMenuSnapshot;

verus! {

broadcast use vstd::string::group_string_axioms;

/// Which module a hover tooltip belongs to.
#[derive(Debug, Clone, Copy, PartialEq, Eq, Structural)]
pub enum HoverTipKind {
    Clock,
    Weather,
}

/// What a popup surface shows.
#[derive(Debug, Clone)]
pub enum PopupKind {
    TrayMenu { item_id: String },
    /// Hover tip anchored under a module (clock / weather).
    HoverTooltip { kind: HoverTipKind },
}

/// An open popup surface.
#[derive(Debug)]
pub struct Popup {
    pub id: u64,
    pub kind: PopupKind,
}

/// A right-click on a tray icon that waits on the item's menu contents.
#[derive(Debug, Clone)]
pub struct PendingTrayMenu {
    pub item_id: String,
    /// The bar surface the menu will open from.
    pub parent: u64,
}

/// A bar surface pinned to a monitor.
#[derive(Debug, Clone)]
pub struct BarPin {
    pub bar: u64,
    pub output: String,
}

/// Bookkeeping of the bar's surfaces.
#[derive(Debug)]
pub struct BarState {
    pub popups: Vec<Popup>,
    pub pending_tray: Option<PendingTrayMenu>,
    pub tray_menu: Option<TrayMenuSnapshot>,
    pub pins: Vec<BarPin>,
    /// Monitor every bar is bound to (`--output`); no pinning happens then.
    pub bound_output: Option<String>,
    pub custom: Vec<CustomSnapshot>,
    pub errors: Vec<String>,
}

/// How many recent errors are kept.
pub const MAX_ERRORS: usize = 5;

// ---------------------------------------------------------------------------
// Specifications
// ---------------------------------------------------------------------------

pub open spec fn is_tray_menu(p: Popup) -> bool {
    p.kind is TrayMenu
}

pub open spec fn is_tooltip(p: Popup) -> bool {
    p.kind is HoverTooltip
}

/// The tray menu popup of item `item`.
pub open spec fn is_menu_of(p: Popup, item: Seq<char>) -> bool {
    p.kind matches PopupKind::TrayMenu { item_id } && item_id@ == item
}

/// The hover tooltip of module `kind`.
pub open spec fn is_tooltip_of(p: Popup, kind: HoverTipKind) -> bool {
    p.kind matches PopupKind::HoverTooltip { kind: k } && k == kind
}

/// A group of popups that close together.
#[derive(Debug, Clone, Copy)]
pub enum PopupGroup {
    TrayMenus,
    Tooltip(HoverTipKind),
    Tooltips,
    Surface(u64),
}

pub open spec fn in_group(g: PopupGroup, p: Popup) -> bool {
    match g {
        PopupGroup::TrayMenus => is_tray_menu(p),
        PopupGroup::Tooltip(k) => is_tooltip_of(p, k),
        PopupGroup::Tooltips => is_tooltip(p),
        PopupGroup::Surface(id) => p.id == id,
    }
}

/// The popups left when group `g` closes.
pub open spec fn without(s: Seq<Popup>, g: PopupGroup) -> Seq<Popup> {
    s.filter(|p: Popup| !in_group(g, p))
}

/// The surface ids of the popups of group `g`, in order.
pub open spec fn ids_in(s: Seq<Popup>, g: PopupGroup) -> Seq<u64> {
    s.filter(|p: Popup| in_group(g, p)).map_values(|p: Popup| p.id)
}

/// Two different popups: different surfaces, and not two tray menus nor two
/// tooltips.
pub open spec fn popups_compatible(a: Popup, b: Popup) -> bool {
    &&& a.id != b.id
    &&& !(is_tray_menu(a) && is_tray_menu(b))
    &&& !(is_tooltip(a) && is_tooltip(b))
}

/// Two different pins: different bars on different monitors.
pub open spec fn pins_compatible(a: BarPin, b: BarPin) -> bool {
    a.bar != b.bar && a.output@ != b.output@
}

pub open spec fn customs_compatible(a: CustomSnapshot, b: CustomSnapshot) -> bool {
    a.id@ != b.id@
}

/// Bar `bar` has a pin.
pub open spec fn has_pin(pins: Seq<BarPin>, bar: u64) -> bool {
    exists|k: int| 0 <= k < pins.len() && (#[trigger] pins[k]).bar == bar
}

/// Output `name` is pinned by a bar other than `bar`.
pub open spec fn pinned_by_other(pins: Seq<BarPin>, bar: u64, name: Seq<char>) -> bool {
    exists|k: int| 0 <= k < pins.len() && (#[trigger] pins[k]).bar != bar && pins[k].output@ == name
}

impl BarState {
    /// Surfaces are distinct, at most one tray menu and one tooltip are open,
    /// no two bars share a monitor, islands are listed once and at most
    /// `MAX_ERRORS` errors are kept.
    pub open spec fn wf(&self) -> bool {
        &&& pairwise(self.popups@, |a: Popup, b: Popup| popups_compatible(a, b))
        &&& pairwise(self.pins@, |a: BarPin, b: BarPin| pins_compatible(a, b))
        &&& pairwise(self.custom@, |a: CustomSnapshot, b: CustomSnapshot| customs_compatible(a, b))
        &&& self.errors@.len() <= MAX_ERRORS
    }

    /// A tray menu popup is open.
    pub open spec fn menu_open(&self) -> bool {
        exists|k: int| 0 <= k < self.popups@.len() && is_tray_menu(#[trigger] self.popups@[k])
    }

    /// The tray menu popup of `item` is open.
    pub open spec fn menu_open_for(&self, item: Seq<char>) -> bool {
        exists|k: int| 0 <= k < self.popups@.len() && is_menu_of(#[trigger] self.popups@[k], item)
    }

    /// The tooltip of `kind` is open.
    pub open spec fn tooltip_open(&self, kind: HoverTipKind) -> bool {
        exists|k: int| 0 <= k < self.popups@.len() && is_tooltip_of(#[trigger] self.popups@[k], kind)
    }

    /// Surface `id` is a tray menu popup.
    pub open spec fn is_menu_surface(&self, id: u64) -> bool {
        exists|k: int|
            0 <= k < self.popups@.len() && (#[trigger] self.popups@[k]).id == id && is_tray_menu(
                self.popups@[k],
            )
    }

    /// Everything but the popups is as in `other`.
    pub open spec fn same_but_popups(&self, other: &BarState) -> bool {
        &&& self.pending_tray == other.pending_tray
        &&& self.tray_menu == other.tray_menu
        &&& self.pins@ == other.pins@
        &&& self.bound_output == other.bound_output
        &&& self.custom@ == other.custom@
        &&& self.errors@ == other.errors@
    }
}

// ---------------------------------------------------------------------------
// Popups
// ---------------------------------------------------------------------------

impl BarState {
    /// No popups, pins, island texts or errors; bars bound to `bound_output`
    /// when it is set.
    pub fn new(bound_output: Option<String>) -> (s: Self)
        ensures
            s.wf(),
            s.popups@.len() == 0,
            s.pending_tray is None,
            s.tray_menu is None,
            s.pins@.len() == 0,
            s.bound_output == bound_output,
            s.custom@.len() == 0,
            s.errors@.len() == 0,
    {
        BarState {
            popups: Vec::new(),
            pending_tray: None,
            tray_menu: None,
            pins: Vec::new(),
            bound_output,
            custom: Vec::new(),
            errors: Vec::new(),
        }
    }

    /// Removes the popups of group `g` and returns their surface ids.
    pub fn take_group(&mut self, g: PopupGroup) -> (closed: Vec<u64>)
        requires
            old(self).wf(),
        ensures
            final(self).wf(),
            final(self).popups@ == without(old(self).popups@, g),
            closed@ == ids_in(old(self).popups@, g),
            final(self).same_but_popups(old(self)),
    {
        let ghost input = self.popups@;
        let ghost keep = |p: Popup| !in_group(g, p);
        let ghost sel = |p: Popup| in_group(g, p);
        let mut rest: Vec<Popup> = Vec::new();
        std::mem::swap(&mut rest, &mut self.popups);
        assert(input.len() == rest.len());
        let mut kept: Vec<Popup> = Vec::new();
        let mut closed: Vec<u64> = Vec::new();
        let mut i: usize = 0;
        assert(input.take(0) =~= Seq::<Popup>::empty());
        assert(input.take(0).filter(keep) =~= Seq::<Popup>::empty()) by {
            reveal(Seq::filter);
        }
        assert(input.take(0).filter(sel) =~= Seq::<Popup>::empty()) by {
            reveal(Seq::filter);
        }
        while rest.len() > 0
            invariant
                rest@ == input.skip(i as int),
                i + rest@.len() == input.len(),
                input.len() <= usize::MAX,
                keep == (|p: Popup| !in_group(g, p)),
                sel == (|p: Popup| in_group(g, p)),
                kept@ == input.take(i as int).filter(keep),
                closed@ == input.take(i as int).filter(sel).map_values(|p: Popup| p.id),
            decreases rest@.len(),
        {
            assert(rest@[0] == input[i as int]);
            let p = rest.remove(0);
            assert(rest@ =~= input.skip(i + 1));
            proof {
                reveal(Seq::filter);
                assert(input.take(i + 1).drop_last() =~= input.take(i as int));
                assert(input.take(i + 1).last() == p);
            }
            let ghost before = closed@;
            let ghost fsel = input.take(i as int).filter(sel);
            if in_group_of(g, &p) {
                closed.push(p.id);
                assert(input.take(i + 1).filter(sel) == fsel.push(p));
                assert(closed@ =~= fsel.push(p).map_values(|p: Popup| p.id));
            } else {
                kept.push(p);
            }
            i += 1;
        }
        assert(input.take(i as int) =~= input);
        proof {
            lemma_filter_pairwise(input, keep, |a: Popup, b: Popup| popups_compatible(a, b));
        }
        self.popups = kept;
        closed
    }

    /// Closes every tray menu and forgets the menu and any pending request.
    pub fn close_tray_popups(&mut self) -> (closed: Vec<u64>)
        requires
            old(self).wf(),
        ensures
            final(self).wf(),
            final(self).popups@ == without(old(self).popups@, PopupGroup::TrayMenus),
            closed@ == ids_in(old(self).popups@, PopupGroup::TrayMenus),
            final(self).pending_tray is None,
            final(self).tray_menu is None,
            final(self).pins@ == old(self).pins@,
            final(self).bound_output == old(self).bound_output,
            final(self).custom@ == old(self).custom@,
            final(self).errors@ == old(self).errors@,
    {
        self.pending_tray = None;
        self.tray_menu = None;
        self.take_group(PopupGroup::TrayMenus)
    }

    /// Closes the tooltip of `kind`.
    pub fn close_hover_tooltip(&mut self, kind: HoverTipKind) -> (closed: Vec<u64>)
        requires
            old(self).wf(),
        ensures
            final(self).wf(),
            final(self).popups@ == without(old(self).popups@, PopupGroup::Tooltip(kind)),
            closed@ == ids_in(old(self).popups@, PopupGroup::Tooltip(kind)),
            final(self).same_but_popups(old(self)),
    {
        self.take_group(PopupGroup::Tooltip(kind))
    }

    /// Closes every tooltip.
    pub fn close_all_hover_tooltips(&mut self) -> (closed: Vec<u64>)
        requires
            old(self).wf(),
        ensures
            final(self).wf(),
            final(self).popups@ == without(old(self).popups@, PopupGroup::Tooltips),
            closed@ == ids_in(old(self).popups@, PopupGroup::Tooltips),
            final(self).same_but_popups(old(self)),
    {
        self.take_group(PopupGroup::Tooltips)
    }
}

/// Whether popup `p` belongs to group `g`.
pub fn in_group_of(g: PopupGroup, p: &Popup) -> (r: bool)
    ensures
        r == in_group(g, *p),
{
    match g {
        PopupGroup::TrayMenus => match &p.kind {
            PopupKind::TrayMenu { .. } => true,
            _ => false,
        },
        PopupGroup::Tooltip(k) => match &p.kind {
            PopupKind::HoverTooltip { kind } => *kind == k,
            _ => false,
        },
        PopupGroup::Tooltips => match &p.kind {
            PopupKind::HoverTooltip { .. } => true,
            _ => false,
        },
        PopupGroup::Surface(id) => p.id == id,
    }
}


/// What a right-click on a tray icon asks of the windowing layer.
#[derive(Debug)]
pub struct TrayMenuRequest {
    /// Tray menu surfaces to close.
    pub close: Vec<u64>,
    /// Whether to ask the item for its menu contents.
    pub request_menu: bool,
}

/// How the tray menu popup opens.
#[derive(Debug)]
pub struct TrayPopupPlan {
    /// Tray menu surfaces to close first.
    pub close: Vec<u64>,
    /// The bar surface the popup opens from; `None` when there is none, and
    /// then no popup opens.
    pub parent: Option<u64>,
    /// The request the popup answers, if one was waiting.
    pub pending: Option<PendingTrayMenu>,
    /// Rows the menu needs.
    pub rows: usize,
}

/// How a hover tooltip opens.
#[derive(Debug)]
pub struct TooltipPlan {
    /// Tooltip surfaces to close first.
    pub close: Vec<u64>,
    /// Whether the new tooltip popup opened.
    pub opened: bool,
}

impl BarState {
    /// Some popup satisfies `g`.
    pub fn any_in_group(&self, g: PopupGroup) -> (r: bool)
        ensures
            r == exists|k: int| 0 <= k < self.popups@.len() && in_group(g, #[trigger] self.popups@[k]),
    {
        let mut i: usize = 0;
        while i < self.popups.len()
            invariant
                i <= self.popups@.len(),
                forall|k: int| 0 <= k < i ==> !in_group(g, #[trigger] self.popups@[k]),
            decreases self.popups@.len() - i,
        {
            if in_group_of(g, &self.popups[i]) {
                return true;
            }
            i += 1;
        }
        false
    }

    /// The tray menu popup of `item_id` is open.
    pub fn menu_open_for_item(&self, item_id: &str) -> (r: bool)
        ensures
            r == self.menu_open_for(item_id@),
    {
        let want = chars_of(item_id);
        let mut i: usize = 0;
        while i < self.popups.len()
            invariant
                i <= self.popups@.len(),
                want@ == item_id@,
                forall|k: int| 0 <= k < i ==> !is_menu_of(#[trigger] self.popups@[k], item_id@),
            decreases self.popups@.len() - i,
        {
            match &self.popups[i].kind {
                PopupKind::TrayMenu { item_id: open } => {
                    let oc = chars_of(open.as_str());
                    if chars_eq(&oc, &want) {
                        return true;
                    }
                },
                _ => {},
            }
            i += 1;
        }
        false
    }

    /// Adds popup `p`, replacing any popup on the same surface.
    fn insert_popup(&mut self, p: Popup)
        requires
            old(self).wf(),
            !(is_tray_menu(p) && old(self).menu_open()),
            !(is_tooltip(p) && exists|k: int|
                0 <= k < old(self).popups@.len() && is_tooltip(#[trigger] old(self).popups@[k])),
        ensures
            final(self).wf(),
            final(self).popups@ == without(old(self).popups@, PopupGroup::Surface(p.id)).push(p),
            final(self).same_but_popups(old(self)),
    {
        let ghost o = self.popups@;
        let id = p.id;
        let _ = self.take_group(PopupGroup::Surface(id));
        let ghost w = self.popups@;
        assert forall|k: int| 0 <= k < w.len() implies popups_compatible(#[trigger] w[k], p)
            && popups_compatible(p, w[k]) by {
            let pred = |q: Popup| !in_group(PopupGroup::Surface(id), q);
            assert(o.filter(pred).contains(w[k]));
            o.lemma_filter_contains_rev(pred, w[k]);
            o.lemma_filter_pred(pred, k);
            let j = choose|j: int| 0 <= j < o.len() && o[j] == w[k];
            assert(is_tray_menu(o[j]) ==> !is_tray_menu(p));
            assert(is_tooltip(o[j]) ==> !is_tooltip(p));
        }
        self.popups.push(p);
        assert forall|i: int, j: int|
            0 <= i < self.popups@.len() && 0 <= j < self.popups@.len() && i != j implies popups_compatible(
            #[trigger] self.popups@[i],
            #[trigger] self.popups@[j],
        ) by {
            if i < w.len() && j < w.len() {
                assert(self.popups@[i] == w[i] && self.popups@[j] == w[j]);
            } else if i < w.len() {
                assert(self.popups@[i] == w[i]);
            } else {
                assert(self.popups@[j] == w[j]);
            }
        }
    }

    /// Right-click on tray item `item_id`: closes an open menu of that item
    /// (a toggle); otherwise closes other menus, remembers the request when
    /// there is a bar to open from, and asks for the menu contents.
    pub fn tray_open_menu(&mut self, item_id: String, parent: Option<u64>) -> (r: TrayMenuRequest)
        requires
            old(self).wf(),
        ensures
            final(self).wf(),
            final(self).popups@ == without(old(self).popups@, PopupGroup::TrayMenus),
            r.close@ == ids_in(old(self).popups@, PopupGroup::TrayMenus),
            final(self).tray_menu is None,
            r.request_menu == !old(self).menu_open_for(item_id@),
            match final(self).pending_tray {
                Some(pt) => r.request_menu && parent == Some(pt.parent) && pt.item_id@ == item_id@,
                None => !r.request_menu || parent is None,
            },
            final(self).pins@ == old(self).pins@,
            final(self).bound_output == old(self).bound_output,
            final(self).custom@ == old(self).custom@,
            final(self).errors@ == old(self).errors@,
    {
        if self.menu_open_for_item(item_id.as_str()) {
            let close = self.close_tray_popups();
            return TrayMenuRequest { close, request_menu: false };
        }
        let close = self.close_tray_popups();
        if let Some(bar) = parent {
            self.pending_tray = Some(PendingTrayMenu { item_id, parent: bar });
        }
        TrayMenuRequest { close, request_menu: true }
    }

    /// A left click on surface `window`: a click outside an open tray menu
    /// dismisses the tray menus; otherwise nothing changes.
    pub fn pointer_pressed(&mut self, window: u64) -> (closed: Vec<u64>)
        requires
            old(self).wf(),
        ensures
            final(self).wf(),
            if !old(self).menu_open() || old(self).is_menu_surface(window) {
                &&& closed@.len() == 0
                &&& final(self).popups@ == old(self).popups@
                &&& final(self).same_but_popups(old(self))
            } else {
                &&& final(self).popups@ == without(old(self).popups@, PopupGroup::TrayMenus)
                &&& closed@ == ids_in(old(self).popups@, PopupGroup::TrayMenus)
                &&& final(self).pending_tray is None
                &&& final(self).tray_menu is None
                &&& final(self).pins@ == old(self).pins@
                &&& final(self).custom@ == old(self).custom@
                &&& final(self).errors@ == old(self).errors@
            },
    {
        if !self.any_in_group(PopupGroup::TrayMenus) {
            return Vec::new();
        }
        let mut i: usize = 0;
        while i < self.popups.len()
            invariant
                i <= self.popups@.len(),
                self.wf(),
                forall|k: int|
                    0 <= k < i ==> !((#[trigger] self.popups@[k]).id == window && is_tray_menu(
                        self.popups@[k],
                    )),
            decreases self.popups@.len() - i,
        {
            if self.popups[i].id == window && in_group_of(PopupGroup::TrayMenus, &self.popups[i]) {
                return Vec::new();
            }
            i += 1;
        }
        self.close_tray_popups()
    }

    /// Popup surface `id` closed: a closed tray menu also drops the menu and
    /// any pending request.
    pub fn popup_closed(&mut self, id: u64)
        requires
            old(self).wf(),
        ensures
            final(self).wf(),
            final(self).popups@ == without(old(self).popups@, PopupGroup::Surface(id)),
            if old(self).is_menu_surface(id) {
                final(self).tray_menu is None && final(self).pending_tray is None
            } else {
                final(self).tray_menu == old(self).tray_menu && final(self).pending_tray
                    == old(self).pending_tray
            },
            final(self).pins@ == old(self).pins@,
            final(self).bound_output == old(self).bound_output,
            final(self).custom@ == old(self).custom@,
            final(self).errors@ == old(self).errors@,
    {
        let ghost o = self.popups@;
        let mut was_menu = false;
        let mut i: usize = 0;
        while i < self.popups.len()
            invariant
                i <= self.popups@.len(),
                was_menu == exists|k: int|
                    0 <= k < i && (#[trigger] self.popups@[k]).id == id && is_tray_menu(
                        self.popups@[k],
                    ),
            decreases self.popups@.len() - i,
        {
            if self.popups[i].id == id && in_group_of(PopupGroup::TrayMenus, &self.popups[i]) {
                was_menu = true;
            }
            i += 1;
        }
        let _ = self.take_group(PopupGroup::Surface(id));
        if was_menu {
            self.tray_menu = None;
            self.pending_tray = None;
        }
    }

    /// Menu contents arrived for an item: they refresh an open menu of that
    /// item, or answer the pending request for it (and then its popup should
    /// open); contents nobody waits for are dropped.
    pub fn tray_menu_arrived(&mut self, menu: TrayMenuSnapshot) -> (open: bool)
        requires
            old(self).wf(),
        ensures
            final(self).wf(),
            final(self).popups@ == old(self).popups@,
            final(self).pending_tray == old(self).pending_tray,
            final(self).pins@ == old(self).pins@,
            final(self).bound_output == old(self).bound_output,
            final(self).custom@ == old(self).custom@,
            final(self).errors@ == old(self).errors@,
            ({
                let item = menu.item_id@;
                let waiting = old(self).pending_tray matches Some(pt) && pt.item_id@ == item;
                if old(self).menu_open_for(item) {
                    !open && final(self).tray_menu == Some(menu)
                } else if waiting {
                    open && final(self).tray_menu == Some(menu)
                } else {
                    !open && final(self).tray_menu == old(self).tray_menu
                }
            }),
    {
        if self.menu_open_for_item(menu.item_id.as_str()) {
            self.tray_menu = Some(menu);
            return false;
        }
        let waiting = match &self.pending_tray {
            Some(pt) => {
                let a = chars_of(pt.item_id.as_str());
                let b = chars_of(menu.item_id.as_str());
                chars_eq(&a, &b)
            },
            None => false,
        };
        if !waiting {
            return false;
        }
        self.tray_menu = Some(menu);
        true
    }

    /// Opens the tray menu popup of `item_id` as surface `id`: other tray menu
    /// popups close, the pending request is consumed, and the popup opens from
    /// the request's bar, else from `fallback_parent`.
    pub fn open_tray_menu_popup(
        &mut self,
        item_id: String,
        id: u64,
        fallback_parent: Option<u64>,
    ) -> (r: TrayPopupPlan)
        requires
            old(self).wf(),
        ensures
            final(self).wf(),
            r.close@ == ids_in(old(self).popups@, PopupGroup::TrayMenus),
            r.pending == old(self).pending_tray,
            final(self).pending_tray is None,
            r.parent == match old(self).pending_tray {
                Some(pt) => Some(pt.parent),
                None => fallback_parent,
            },
            r.rows == crate::tray::menu_rows(old(self).tray_menu),
            match r.parent {
                Some(_) => {
                    let base = without(old(self).popups@, PopupGroup::TrayMenus);
                    &&& final(self).popups@.len() >= 1
                    &&& final(self).popups@.drop_last() == without(base, PopupGroup::Surface(id))
                    &&& final(self).popups@.last().id == id
                    &&& is_menu_of(final(self).popups@.last(), item_id@)
                },
                None => final(self).popups@ == without(old(self).popups@, PopupGroup::TrayMenus),
            },
            final(self).tray_menu == old(self).tray_menu,
            final(self).pins@ == old(self).pins@,
            final(self).bound_output == old(self).bound_output,
            final(self).custom@ == old(self).custom@,
            final(self).errors@ == old(self).errors@,
    {
        let close = self.take_group(PopupGroup::TrayMenus);
        let rows = crate::tray::visible_entry_rows(self.tray_menu.as_ref());
        let pending = self.pending_tray.take();
        let parent = match &pending {
            Some(pt) => Some(pt.parent),
            None => fallback_parent,
        };
        if parent.is_some() {
            assert(!self.menu_open()) by {
                let g = PopupGroup::TrayMenus;
                if self.menu_open() {
                    let k = choose|k: int|
                        0 <= k < self.popups@.len() && is_tray_menu(#[trigger] self.popups@[k]);
                    let ghost o = old(self).popups@;
                    o.lemma_filter_pred(|p: Popup| !in_group(g, p), k);
                }
            }
            self.insert_popup(Popup { id, kind: PopupKind::TrayMenu { item_id } });
        }
        TrayPopupPlan { close, parent, pending, rows }
    }

    /// Pointer entered a module with a tooltip: unless it has no lines or its
    /// tooltip is already open, other tooltips close and, when there is a bar
    /// to open from, its tooltip opens as surface `id`.
    pub fn open_hover_tooltip(
        &mut self,
        kind: HoverTipKind,
        has_lines: bool,
        id: u64,
        parent: Option<u64>,
    ) -> (r: TooltipPlan)
        requires
            old(self).wf(),
        ensures
            final(self).wf(),
            final(self).same_but_popups(old(self)),
            if !has_lines || old(self).tooltip_open(kind) {
                &&& r.close@.len() == 0
                &&& !r.opened
                &&& final(self).popups@ == old(self).popups@
            } else {
                let base = without(old(self).popups@, PopupGroup::Tooltips);
                &&& r.close@ == ids_in(old(self).popups@, PopupGroup::Tooltips)
                &&& r.opened == parent is Some
                &&& if r.opened {
                    &&& final(self).popups@.len() >= 1
                    &&& final(self).popups@.drop_last() == without(base, PopupGroup::Surface(id))
                    &&& final(self).popups@.last().id == id
                    &&& is_tooltip_of(final(self).popups@.last(), kind)
                } else {
                    final(self).popups@ == base
                }
            },
    {
        if !has_lines || self.any_in_group(PopupGroup::Tooltip(kind)) {
            return TooltipPlan { close: Vec::new(), opened: false };
        }
        let close = self.take_group(PopupGroup::Tooltips);
        if parent.is_none() {
            return TooltipPlan { close, opened: false };
        }
        assert(!exists|k: int|
            0 <= k < self.popups@.len() && is_tooltip(#[trigger] self.popups@[k])) by {
            let g = PopupGroup::Tooltips;
            if exists|k: int| 0 <= k < self.popups@.len() && is_tooltip(#[trigger] self.popups@[k]) {
                let k = choose|k: int| 0 <= k < self.popups@.len() && is_tooltip(#[trigger] self.popups@[k]);
                let ghost o = old(self).popups@;
                o.lemma_filter_pred(|p: Popup| !in_group(g, p), k);
            }
        }
        self.insert_popup(Popup { id, kind: PopupKind::HoverTooltip { kind } });
        TooltipPlan { close, opened: true }
    }
}


/// Island `id` is among the configured custom islands.
pub open spec fn configured(cfgs: Seq<crate::config::CustomModuleConfig>, id: Seq<char>) -> bool {
    exists|k: int| 0 <= k < cfgs.len() && (#[trigger] cfgs[k]).id@ == id
}

impl BarState {
    /// The text shown by custom island `id`, if it has reported one.
    pub fn custom_text(&self, id: &str) -> (r: Option<&String>)
        ensures
            match r {
                Some(t) => exists|k: int|
                    0 <= k < self.custom@.len() && (#[trigger] self.custom@[k]).id@ == id@
                        && self.custom@[k].text == *t,
                None => forall|k: int|
                    0 <= k < self.custom@.len() ==> (#[trigger] self.custom@[k]).id@ != id@,
            },
    {
        let want = chars_of(id);
        let mut i: usize = 0;
        while i < self.custom.len()
            invariant
                i <= self.custom@.len(),
                want@ == id@,
                forall|k: int| 0 <= k < i ==> (#[trigger] self.custom@[k]).id@ != id@,
            decreases self.custom@.len() - i,
        {
            let c = chars_of(self.custom[i].id.as_str());
            if chars_eq(&c, &want) {
                return Some(&self.custom[i].text);
            }
            i += 1;
        }
        None
    }

    /// A custom island reported its text: stored unless it is what the
    /// island already shows; says whether anything changed.
    pub fn set_custom_text(&mut self, snap: CustomSnapshot) -> (changed: bool)
        requires
            old(self).wf(),
        ensures
            final(self).wf(),
            ({
                let same = exists|k: int|
                    0 <= k < old(self).custom@.len() && (#[trigger] old(self).custom@[k]).id@
                        == snap.id@ && old(self).custom@[k].text@ == snap.text@;
                if same {
                    !changed && final(self).custom@ == old(self).custom@
                } else {
                    changed && final(self).custom@ == old(self).custom@.filter(
                        |c: CustomSnapshot| c.id@ != snap.id@,
                    ).push(snap)
                }
            }),
            final(self).popups@ == old(self).popups@,
            final(self).pending_tray == old(self).pending_tray,
            final(self).tray_menu == old(self).tray_menu,
            final(self).pins@ == old(self).pins@,
            final(self).bound_output == old(self).bound_output,
            final(self).errors@ == old(self).errors@,
    {
        let want = chars_of(snap.id.as_str());
        let text = chars_of(snap.text.as_str());
        let mut i: usize = 0;
        while i < self.custom.len()
            invariant
                i <= self.custom@.len(),
                want@ == snap.id@,
                text@ == snap.text@,
                self.wf(),
                forall|k: int|
                    0 <= k < i ==> !((#[trigger] self.custom@[k]).id@ == snap.id@
                        && self.custom@[k].text@ == snap.text@),
            decreases self.custom@.len() - i,
        {
            let c = chars_of(self.custom[i].id.as_str());
            let t = chars_of(self.custom[i].text.as_str());
            if chars_eq(&c, &want) && chars_eq(&t, &text) {
                return false;
            }
            i += 1;
        }
        let ghost input = self.custom@;
        let ghost keep = |c: CustomSnapshot| c.id@ != snap.id@;
        let mut rest: Vec<CustomSnapshot> = Vec::new();
        std::mem::swap(&mut rest, &mut self.custom);
        assert(input.len() == rest.len());
        let mut kept: Vec<CustomSnapshot> = Vec::new();
        let mut j: usize = 0;
        assert(input.take(0).filter(keep) =~= Seq::<CustomSnapshot>::empty()) by {
            reveal(Seq::filter);
        }
        while rest.len() > 0
            invariant
                rest@ == input.skip(j as int),
                j + rest@.len() == input.len(),
                input.len() <= usize::MAX,
                want@ == snap.id@,
                keep == (|c: CustomSnapshot| c.id@ != snap.id@),
                kept@ == input.take(j as int).filter(keep),
            decreases rest@.len(),
        {
            assert(rest@[0] == input[j as int]);
            let c = rest.remove(0);
            assert(rest@ =~= input.skip(j + 1));
            proof {
                reveal(Seq::filter);
                assert(input.take(j + 1).drop_last() =~= input.take(j as int));
                assert(input.take(j + 1).last() == c);
            }
            let cc = chars_of(c.id.as_str());
            if !chars_eq(&cc, &want) {
                kept.push(c);
            }
            j += 1;
        }
        assert(input.take(j as int) =~= input);
        let ghost rel = |a: CustomSnapshot, b: CustomSnapshot| customs_compatible(a, b);
        proof {
            lemma_filter_pairwise(input, keep, rel);
        }
        let ghost f = kept@;
        kept.push(snap);
        assert forall|a: int, b: int|
            0 <= a < kept@.len() && 0 <= b < kept@.len() && a != b implies rel(
            #[trigger] kept@[a],
            #[trigger] kept@[b],
        ) by {
            if a < f.len() && b < f.len() {
                assert(kept@[a] == f[a] && kept@[b] == f[b]);
            } else if a < f.len() {
                input.lemma_filter_pred(keep, a);
            } else {
                input.lemma_filter_pred(keep, b);
            }
        }
        self.custom = kept;
        true
    }

    /// After a config reload: custom islands that are no longer configured
    /// are forgotten, and the bars follow the configured output binding.
    pub fn apply_reload(
        &mut self,
        custom: &Vec<crate::config::CustomModuleConfig>,
        bound_output: Option<String>,
    )
        requires
            old(self).wf(),
        ensures
            final(self).wf(),
            final(self).custom@ == old(self).custom@.filter(
                |c: CustomSnapshot| configured(custom@, c.id@),
            ),
            final(self).bound_output == bound_output,
            final(self).popups@ == old(self).popups@,
            final(self).pending_tray == old(self).pending_tray,
            final(self).tray_menu == old(self).tray_menu,
            final(self).pins@ == old(self).pins@,
            final(self).errors@ == old(self).errors@,
    {
        let ghost input = self.custom@;
        let ghost keep = |c: CustomSnapshot| configured(custom@, c.id@);
        let mut rest: Vec<CustomSnapshot> = Vec::new();
        std::mem::swap(&mut rest, &mut self.custom);
        assert(input.len() == rest.len());
        let mut kept: Vec<CustomSnapshot> = Vec::new();
        let mut j: usize = 0;
        assert(input.take(0).filter(keep) =~= Seq::<CustomSnapshot>::empty()) by {
            reveal(Seq::filter);
        }
        while rest.len() > 0
            invariant
                rest@ == input.skip(j as int),
                j + rest@.len() == input.len(),
                input.len() <= usize::MAX,
                keep == (|c: CustomSnapshot| configured(custom@, c.id@)),
                kept@ == input.take(j as int).filter(keep),
            decreases rest@.len(),
        {
            assert(rest@[0] == input[j as int]);
            let c = rest.remove(0);
            assert(rest@ =~= input.skip(j + 1));
            proof {
                reveal(Seq::filter);
                assert(input.take(j + 1).drop_last() =~= input.take(j as int));
                assert(input.take(j + 1).last() == c);
            }
            let cc = chars_of(c.id.as_str());
            let mut found = false;
            let mut k: usize = 0;
            while k < custom.len()
                invariant
                    k <= custom@.len(),
                    cc@ == c.id@,
                    found == exists|m: int| 0 <= m < k && (#[trigger] custom@[m]).id@ == c.id@,
                decreases custom@.len() - k,
            {
                let ck = chars_of(custom[k].id.as_str());
                if chars_eq(&ck, &cc) {
                    found = true;
                }
                k += 1;
            }
            if found {
                kept.push(c);
            }
            j += 1;
        }
        assert(input.take(j as int) =~= input);
        proof {
            lemma_filter_pairwise(input, keep, |a: CustomSnapshot, b: CustomSnapshot| customs_compatible(a, b));
        }
        self.custom = kept;
        self.bound_output = bound_output;
    }

    /// Records a service error; only the `MAX_ERRORS` most recent are kept.
    pub fn push_error(&mut self, err: String)
        requires
            old(self).wf(),
        ensures
            final(self).wf(),
            final(self).errors@ == if old(self).errors@.len() < MAX_ERRORS {
                old(self).errors@.push(err)
            } else {
                old(self).errors@.push(err).drop_first()
            },
            final(self).popups@ == old(self).popups@,
            final(self).pending_tray == old(self).pending_tray,
            final(self).tray_menu == old(self).tray_menu,
            final(self).pins@ == old(self).pins@,
            final(self).bound_output == old(self).bound_output,
            final(self).custom@ == old(self).custom@,
    {
        self.errors.push(err);
        if self.errors.len() > MAX_ERRORS {
            let _ = self.errors.remove(0);
            assert(self.errors@ =~= old(self).errors@.push(err).drop_first());
        }
    }
}

/// Indices of the events that are not compositor snapshots, in order.
pub open spec fn other_events(is_compositor: Seq<bool>) -> Seq<usize>
    decreases is_compositor.len(),
{
    if is_compositor.len() == 0 {
        Seq::empty()
    } else {
        let rest = other_events(is_compositor.drop_last());
        if is_compositor.last() {
            rest
        } else {
            rest.push((is_compositor.len() - 1) as usize)
        }
    }
}

/// Index of the last compositor snapshot, if any.
pub open spec fn latest_snapshot(is_compositor: Seq<bool>) -> Option<usize>
    decreases is_compositor.len(),
{
    if is_compositor.len() == 0 {
        None
    } else if is_compositor.last() {
        Some((is_compositor.len() - 1) as usize)
    } else {
        latest_snapshot(is_compositor.drop_last())
    }
}

/// The order in which a burst of service events is applied, given which of
/// them are compositor snapshots: every other event in order, then only the
/// latest compositor snapshot (earlier ones are superseded).
pub open spec fn burst_order(is_compositor: Seq<bool>) -> Seq<usize> {
    other_events(is_compositor) + match latest_snapshot(is_compositor) {
        Some(k) => seq![k],
        None => Seq::empty(),
    }
}

/// Indices of the events of a burst in the order they are applied (see
/// `burst_order`).
pub fn apply_order(is_compositor: &Vec<bool>) -> (r: Vec<usize>)
    ensures
        r@ == burst_order(is_compositor@),
{
    let mut others: Vec<usize> = Vec::new();
    let mut last: Option<usize> = None;
    let mut i: usize = 0;
    while i < is_compositor.len()
        invariant
            i <= is_compositor@.len(),
            others@ == other_events(is_compositor@.take(i as int)),
            last == latest_snapshot(is_compositor@.take(i as int)),
        decreases is_compositor@.len() - i,
    {
        let ghost pre = is_compositor@.take(i as int);
        let ghost nxt = is_compositor@.take(i + 1);
        assert(nxt.drop_last() =~= pre);
        assert(nxt.last() == is_compositor@[i as int]);
        if is_compositor[i] {
            last = Some(i);
        } else {
            others.push(i);
        }
        i += 1;
    }
    assert(is_compositor@.take(i as int) =~= is_compositor@);
    match last {
        Some(k) => {
            others.push(k);
        },
        None => {},
    }
    assert(others@ =~= burst_order(is_compositor@));
    others
}


// ---------------------------------------------------------------------------
// Pinning bars to monitors
// ---------------------------------------------------------------------------

/// Output `name` is not pinned by a bar other than `bar`.
pub open spec fn free_for(pins: Seq<BarPin>, bar: u64, name: Seq<char>) -> bool {
    !pinned_by_other(pins, bar, name)
}

/// The bit pattern (`f32::to_bits`) of two as an `f32`: a width gap below
/// it is an exact fit.
pub const EXACT_GAP_BITS: u32 = 0x4000_0000;

/// The bit pattern of sixty-four as an `f32`: the closest width is taken
/// when its gap is below it.
pub const NEAR_GAP_BITS: u32 = 0x4280_0000;

/// The width gap of output `k`: the bit pattern of the `f32` distance
/// `|outputs[k].width as f32 - w|` between its width and the bar's width
/// `w`. Gaps are non-negative floats, whose bit patterns compare as the
/// floats do (as `f32::total_cmp`, and as `<` for the non-NaN ones). A
/// missing gap counts as the largest.
pub open spec fn gap_at(g: Seq<u32>, k: int) -> u32 {
    if 0 <= k < g.len() {
        g[k]
    } else {
        u32::MAX
    }
}

/// `a` comes before `b` in geometry order (by `x`, then `y`).
pub open spec fn geometry_before(a: OutputInfo, b: OutputInfo) -> bool {
    a.x < b.x || (a.x == b.x && a.y < b.y)
}

/// A free output whose width is less than two pixels off the bar's.
pub open spec fn exact_fit(pins: Seq<BarPin>, bar: u64, o: OutputInfo, gap: u32) -> bool {
    free_for(pins, bar, o.name@) && gap < EXACT_GAP_BITS
}

/// The first exact fit in geometry order; of equal positions, the earliest.
pub open spec fn first_exact(s: Seq<OutputInfo>, pins: Seq<BarPin>, bar: u64, g: Seq<u32>) -> Option<
    OutputInfo,
>
    decreases s.len(),
{
    if s.len() == 0 {
        None
    } else {
        let r = first_exact(s.drop_last(), pins, bar, g);
        let o = s.last();
        if exact_fit(pins, bar, o, gap_at(g, s.len() - 1)) && (r is None || geometry_before(o, r->0)) {
            Some(o)
        } else {
            r
        }
    }
}

/// The free output closest in width, with its gap; of equal gaps, the
/// earliest.
pub open spec fn closest_free(s: Seq<OutputInfo>, pins: Seq<BarPin>, bar: u64, g: Seq<u32>) -> Option<
    (OutputInfo, u32),
>
    decreases s.len(),
{
    if s.len() == 0 {
        None
    } else {
        let r = closest_free(s.drop_last(), pins, bar, g);
        let o = s.last();
        let gap = gap_at(g, s.len() - 1);
        if free_for(pins, bar, o.name@) && match r {
            None => true,
            Some((_, best)) => gap < best,
        } {
            Some((o, gap))
        } else {
            r
        }
    }
}

/// The first free output.
pub open spec fn first_free(s: Seq<OutputInfo>, pins: Seq<BarPin>, bar: u64) -> Option<OutputInfo>
    decreases s.len(),
{
    if s.len() == 0 {
        None
    } else {
        let r = first_free(s.drop_last(), pins, bar);
        if r is None && free_for(pins, bar, s.last().name@) {
            Some(s.last())
        } else {
            r
        }
    }
}

/// `n` is the least (in string order) free output that some workspace is on.
pub open spec fn least_free_name(
    ws: Seq<crate::compositor::WorkspaceInfo>,
    pins: Seq<BarPin>,
    bar: u64,
    n: Seq<char>,
) -> bool {
    &&& names_some_output(ws, n)
    &&& free_for(pins, bar, n)
    &&& forall|m: Seq<char>|
        names_some_output(ws, m) && free_for(pins, bar, m) && m != n ==> seq_lt(n, m)
}

/// The monitor a bar gets pinned to, given the width gaps of the outputs
/// when the bar's width is known (see `gap_at`), or `None` when its pin stays as it is: a free
/// monitor of matching width (the first in geometry order), else the free
/// monitor closest in width when that is under 64 pixels off; failing both,
/// a bar that has no pin yet takes the first free monitor (in geometry
/// order, or by name when only workspaces name them).
pub open spec fn pin_choice(
    pins: Seq<BarPin>,
    bound: bool,
    bar: u64,
    gaps: Option<Seq<u32>>,
    c: CompositorState,
) -> Option<Seq<char>> {
    let outs = c.outputs@;
    if bound {
        None
    } else if width_choice(pins, bar, gaps, c) is Some {
        width_choice(pins, bar, gaps, c)
    } else if has_pin(pins, bar) {
        None
    } else if outs.len() > 0 {
        match first_free(outs, pins, bar) {
            Some(o) => Some(o.name@),
            None => None,
        }
    } else if exists|n: Seq<char>| least_free_name(c.workspaces@, pins, bar, n) {
        Some(choose|n: Seq<char>| least_free_name(c.workspaces@, pins, bar, n))
    } else {
        None
    }
}

/// The monitor picked by width alone (see `pin_choice`).
pub open spec fn width_choice(
    pins: Seq<BarPin>,
    bar: u64,
    gaps: Option<Seq<u32>>,
    c: CompositorState,
) -> Option<Seq<char>> {
    let outs = c.outputs@;
    match gaps {
        Some(g) => match first_exact(outs, pins, bar, g) {
            Some(o) => Some(o.name@),
            None => match closest_free(outs, pins, bar, g) {
                Some((o, gap)) => if gap < NEAR_GAP_BITS {
                    Some(o.name@)
                } else {
                    None
                },
                None => None,
            },
        },
        None => None,
    }
}

/// The monitor bar `bar` is pinned to.
pub open spec fn pin_of(pins: Seq<BarPin>, bar: u64) -> Option<Seq<char>> {
    if has_pin(pins, bar) {
        Some(pins[choose|k: int| 0 <= k < pins.len() && (#[trigger] pins[k]).bar == bar].output@)
    } else {
        None
    }
}

/// `n` names a monitor the compositor knows: one of its outputs, or when it
/// lists none, a workspace's output.
pub open spec fn known_output(c: CompositorState, n: Seq<char>) -> bool {
    if c.outputs@.len() > 0 {
        exists|k: int| 0 <= k < c.outputs@.len() && (#[trigger] c.outputs@[k]).name@ == n
    } else {
        names_some_output(c.workspaces@, n)
    }
}

/// The pins after bar `bar` is pinned to `name`.
pub open spec fn pins_after(pins: Seq<BarPin>, bar: u64, name: Seq<char>, result: Seq<BarPin>) -> bool {
    &&& result.len() >= 1
    &&& result.drop_last() == pins.filter(|p: BarPin| p.bar != bar)
    &&& result.last().bar == bar
    &&& result.last().output@ == name
}

pub proof fn lemma_first_exact_fits(s: Seq<OutputInfo>, pins: Seq<BarPin>, bar: u64, g: Seq<u32>)
    ensures
        first_exact(s, pins, bar, g) matches Some(o) ==> free_for(pins, bar, o.name@),
    decreases s.len(),
{
    if s.len() > 0 {
        lemma_first_exact_fits(s.drop_last(), pins, bar, g);
    }
}

pub proof fn lemma_closest_is_free(s: Seq<OutputInfo>, pins: Seq<BarPin>, bar: u64, g: Seq<u32>)
    ensures
        closest_free(s, pins, bar, g) matches Some(p) ==> free_for(pins, bar, p.0.name@),
    decreases s.len(),
{
    if s.len() > 0 {
        lemma_closest_is_free(s.drop_last(), pins, bar, g);
    }
}

/// The optional gap list as a sequence.
pub open spec fn gaps_view(gaps: Option<Vec<u32>>) -> Option<Seq<u32>> {
    match gaps {
        Some(g) => Some(g@),
        None => None,
    }
}

fn gap_of(g: &Vec<u32>, k: usize) -> (r: u32)
    ensures
        r == gap_at(g@, k as int),
{
    if k < g.len() {
        g[k]
    } else {
        u32::MAX
    }
}

pub proof fn lemma_first_free_prefix(s: Seq<OutputInfo>, pins: Seq<BarPin>, bar: u64, k: int)
    requires
        0 <= k <= s.len(),
        first_free(s.take(k), pins, bar) is Some,
    ensures
        first_free(s, pins, bar) == first_free(s.take(k), pins, bar),
    decreases s.len() - k,
{
    if k < s.len() {
        assert(s.take(k + 1).drop_last() =~= s.take(k));
        lemma_first_free_prefix(s, pins, bar, k + 1);
    } else {
        assert(s.take(k) =~= s);
    }
}

impl BarState {
    /// The pins of the other bars and the bound output are as in `other`.
    pub open spec fn same_but_pins(&self, other: &BarState) -> bool {
        &&& self.popups@ == other.popups@
        &&& self.pending_tray == other.pending_tray
        &&& self.tray_menu == other.tray_menu
        &&& self.bound_output == other.bound_output
        &&& self.custom@ == other.custom@
        &&& self.errors@ == other.errors@
    }

    /// Output `name` is not pinned by a bar other than `bar`.
    pub fn is_free(&self, bar: u64, name: &Vec<char>) -> (r: bool)
        ensures
            r == free_for(self.pins@, bar, name@),
    {
        let mut i: usize = 0;
        while i < self.pins.len()
            invariant
                i <= self.pins@.len(),
                forall|k: int|
                    0 <= k < i ==> !((#[trigger] self.pins@[k]).bar != bar && self.pins@[k].output@
                        == name@),
            decreases self.pins@.len() - i,
        {
            if self.pins[i].bar != bar {
                let o = chars_of(self.pins[i].output.as_str());
                if chars_eq(&o, name) {
                    return false;
                }
            }
            i += 1;
        }
        true
    }

    /// Forgets the pin of bar `bar`.
    pub fn unpin(&mut self, bar: u64)
        requires
            old(self).wf(),
        ensures
            final(self).wf(),
            final(self).pins@ == old(self).pins@.filter(|p: BarPin| p.bar != bar),
            final(self).same_but_pins(old(self)),
    {
        let ghost input = self.pins@;
        let ghost keep = |p: BarPin| p.bar != bar;
        let mut rest: Vec<BarPin> = Vec::new();
        std::mem::swap(&mut rest, &mut self.pins);
        assert(input.len() == rest.len());
        let mut kept: Vec<BarPin> = Vec::new();
        let mut j: usize = 0;
        assert(input.take(0).filter(keep) =~= Seq::<BarPin>::empty()) by {
            reveal(Seq::filter);
        }
        while rest.len() > 0
            invariant
                rest@ == input.skip(j as int),
                j + rest@.len() == input.len(),
                input.len() <= usize::MAX,
                keep == (|p: BarPin| p.bar != bar),
                kept@ == input.take(j as int).filter(keep),
            decreases rest@.len(),
        {
            assert(rest@[0] == input[j as int]);
            let p = rest.remove(0);
            assert(rest@ =~= input.skip(j + 1));
            proof {
                reveal(Seq::filter);
                assert(input.take(j + 1).drop_last() =~= input.take(j as int));
                assert(input.take(j + 1).last() == p);
            }
            if p.bar != bar {
                kept.push(p);
            }
            j += 1;
        }
        assert(input.take(j as int) =~= input);
        proof {
            lemma_filter_pairwise(input, keep, |a: BarPin, b: BarPin| pins_compatible(a, b));
        }
        self.pins = kept;
    }

    /// Pins bar `bar` to monitor `name`, replacing its pin if it had one.
    fn set_pin(&mut self, bar: u64, name: String)
        requires
            old(self).wf(),
            free_for(old(self).pins@, bar, name@),
        ensures
            final(self).wf(),
            pins_after(old(self).pins@, bar, name@, final(self).pins@),
            final(self).same_but_pins(old(self)),
    {
        let ghost input = self.pins@;
        let ghost keep = |p: BarPin| p.bar != bar;
        let ghost rel = |a: BarPin, b: BarPin| pins_compatible(a, b);
        self.unpin(bar);
        let ghost f = self.pins@;
        self.pins.push(BarPin { bar, output: name });
        assert forall|a: int, b: int|
            0 <= a < self.pins@.len() && 0 <= b < self.pins@.len() && a != b implies rel(
            #[trigger] self.pins@[a],
            #[trigger] self.pins@[b],
        ) by {
            if a < f.len() && b < f.len() {
                assert(self.pins@[a] == f[a] && self.pins@[b] == f[b]);
            } else {
                let x = if a < f.len() {
                    a
                } else {
                    b
                };
                input.lemma_filter_pred(keep, x);
                assert(f.contains(f[x]));
                input.lemma_filter_contains_rev(keep, f[x]);
                let k = choose|k: int| 0 <= k < input.len() && input[k] == f[x];
                assert(input[k].bar != bar);
            }
        }
        assert(self.pins@.drop_last() =~= f);
    }

    /// Pins bar surface `bar` to a monitor so its workspaces and taskbar stay
    /// on that monitor whatever has focus; `gaps`, when the surface width is
    /// known, holds the width gap of each output in order (see `gap_at` and
    /// `pin_choice`).
    pub fn pin_bar_output(&mut self, bar: u64, gaps: Option<Vec<u32>>, c: &CompositorState)
        requires
            old(self).wf(),
        ensures
            final(self).wf(),
            final(self).same_but_pins(old(self)),
            match pin_choice(old(self).pins@, old(self).bound_output is Some, bar, gaps_view(gaps), *c) {
                Some(n) => pins_after(old(self).pins@, bar, n, final(self).pins@),
                None => final(self).pins@ == old(self).pins@,
            },
    {
        if self.bound_output.is_some() {
            return;
        }
        let ghost pins = self.pins@;
        let ghost outs = c.outputs@;
        let ghost gv = gaps_view(gaps);
        if let Some(g) = &gaps {
            // Exact width match, first in geometry order.
            let mut best: Option<usize> = None;
            let mut i: usize = 0;
            while i < c.outputs.len()
                invariant
                    i <= outs.len(),
                    outs == c.outputs@,
                    pins == self.pins@,
                    self.wf(),
                    self.same_but_pins(old(self)),
                    self.pins@ == old(self).pins@,
                    match best {
                        Some(k) => k < i && first_exact(outs.take(i as int), pins, bar, g@)
                            == Some(outs[k as int]),
                        None => first_exact(outs.take(i as int), pins, bar, g@) is None,
                    },
                decreases outs.len() - i,
            {
                let o = &c.outputs[i];
                assert(outs.take(i + 1).drop_last() =~= outs.take(i as int));
                assert(outs.take(i + 1).last() == *o);
                let name = chars_of(o.name.as_str());
                let gap = gap_of(g, i);
                if gap < EXACT_GAP_BITS && self.is_free(bar, &name) {
                    let better = match best {
                        None => true,
                        Some(k) => o.x < c.outputs[k].x || (o.x == c.outputs[k].x && o.y
                            < c.outputs[k].y),
                    };
                    if better {
                        best = Some(i);
                    }
                }
                i += 1;
            }
            assert(outs.take(i as int) =~= outs);
            if let Some(k) = best {
                proof {
                    lemma_first_exact_fits(outs, pins, bar, g@);
                }
                let name = c.outputs[k].name.clone();
                self.set_pin(bar, name);
                return;
            }
            // Closest free width, when it is near enough.
            let mut near: Option<usize> = None;
            let mut near_gap: u32 = 0;
            let mut i: usize = 0;
            while i < c.outputs.len()
                invariant
                    i <= outs.len(),
                    outs == c.outputs@,
                    pins == self.pins@,
                    self.wf(),
                    self.same_but_pins(old(self)),
                    self.pins@ == old(self).pins@,
                    match near {
                        Some(k) => k < i && closest_free(outs.take(i as int), pins, bar, g@)
                            == Some((outs[k as int], near_gap)),
                        None => closest_free(outs.take(i as int), pins, bar, g@) is None,
                    },
                decreases outs.len() - i,
            {
                let o = &c.outputs[i];
                assert(outs.take(i + 1).drop_last() =~= outs.take(i as int));
                assert(outs.take(i + 1).last() == *o);
                let name = chars_of(o.name.as_str());
                let gap = gap_of(g, i);
                if self.is_free(bar, &name) {
                    let better = match near {
                        None => true,
                        Some(_) => gap < near_gap,
                    };
                    if better {
                        near = Some(i);
                        near_gap = gap;
                    }
                }
                i += 1;
            }
            assert(outs.take(i as int) =~= outs);
            if let Some(k) = near {
                if near_gap < NEAR_GAP_BITS {
                    proof {
                        lemma_closest_is_free(outs, pins, bar, g@);
                    }
                    let name = c.outputs[k].name.clone();
                    self.set_pin(bar, name);
                    return;
                }
            }
        }
        // No width match: keep an existing pin.
        assert(width_choice(pins, bar, gv, *c) is None);
        let mut i: usize = 0;
        while i < self.pins.len()
            invariant
                i <= self.pins@.len(),
                self.wf(),
                self.same_but_pins(old(self)),
                self.pins@ == old(self).pins@,
                old(self).bound_output is None,
                pins == old(self).pins@,
                width_choice(pins, bar, gv, *c) is None,
                gv == gaps_view(gaps),
                forall|k: int| 0 <= k < i ==> (#[trigger] self.pins@[k]).bar != bar,
            decreases self.pins@.len() - i,
        {
            if self.pins[i].bar == bar {
                return;
            }
            i += 1;
        }
        if c.outputs.len() > 0 {
            let mut i: usize = 0;
            while i < c.outputs.len()
                invariant
                    i <= outs.len(),
                    outs == c.outputs@,
                    pins == self.pins@,
                    self.wf(),
                    self.same_but_pins(old(self)),
                    self.pins@ == old(self).pins@,
                    old(self).bound_output is None,
                    pins == old(self).pins@,
                    width_choice(pins, bar, gv, *c) is None,
                    gv == gaps_view(gaps),
                gv == gaps_view(gaps),
                    !has_pin(pins, bar),
                    first_free(outs.take(i as int), pins, bar) is None,
                decreases outs.len() - i,
            {
                let o = &c.outputs[i];
                assert(outs.take(i + 1).drop_last() =~= outs.take(i as int));
                assert(outs.take(i + 1).last() == *o);
                let name = chars_of(o.name.as_str());
                if self.is_free(bar, &name) {
                    let n = o.name.clone();
                    proof {
                        assert(first_free(outs.take(i + 1), pins, bar) == Some(outs[i as int]));
                        lemma_first_free_prefix(outs, pins, bar, i + 1);
                        assert(pin_choice(pins, false, bar, gv, *c) == Some(outs[i as int].name@));
                    }
                    self.set_pin(bar, n);
                    return;
                }
                i += 1;
            }
            assert(outs.take(i as int) =~= outs);
            return;
        }
        let names = c.output_names();
        let ghost nv = crate::compositor::str_views(names@);
        let ghost ws = c.workspaces@;
        let mut i: usize = 0;
        while i < names.len()
            invariant
                i <= names@.len(),
                nv == crate::compositor::str_views(names@),
                c.spec_output_names_ok(nv),
                c.outputs@.len() == 0,
                pins == self.pins@,
                ws == c.workspaces@,
                self.wf(),
                self.same_but_pins(old(self)),
                self.pins@ == old(self).pins@,
                old(self).bound_output is None,
                pins == old(self).pins@,
                width_choice(pins, bar, gv, *c) is None,
                gv == gaps_view(gaps),
                !has_pin(pins, bar),
                forall|k: int| 0 <= k < i ==> !free_for(pins, bar, #[trigger] nv[k]),
            decreases names@.len() - i,
        {
            let name = chars_of(names[i].as_str());
            assert(nv[i as int] == names@[i as int]@);
            if self.is_free(bar, &name) {
                let n = names[i].clone();
                proof {
                    let x = nv[i as int];
                    assert(nv.contains(x));
                    assert forall|m: Seq<char>|
                        names_some_output(ws, m) && free_for(pins, bar, m) && m != x implies seq_lt(
                        x,
                        m,
                    ) by {
                        assert(nv.contains(m));
                        let j = choose|j: int| 0 <= j < nv.len() && nv[j] == m;
                        if j < i {
                        } else if j == i {
                        } else {
                            assert(seq_lt(nv[i as int], nv[j]));
                        }
                    }
                    assert(least_free_name(ws, pins, bar, x));
                    assert forall|y: Seq<char>| least_free_name(ws, pins, bar, y) implies y == x by {
                        if y != x {
                            assert(seq_lt(x, y));
                            assert(seq_lt(y, x));
                            crate::text::lemma_seq_lt_asym(x, y);
                        }
                    }
                }
                self.set_pin(bar, n);
                return;
            }
            i += 1;
        }
        proof {
            assert forall|y: Seq<char>| !least_free_name(ws, pins, bar, y) by {
                if least_free_name(ws, pins, bar, y) {
                    assert(nv.contains(y));
                    let j = choose|j: int| 0 <= j < nv.len() && nv[j] == y;
                    assert(!free_for(pins, bar, nv[j]));
                }
            }
        }
    }
}


impl BarState {
    /// Bar `bar` closed: its pin goes, and so does a popup on that surface.
    pub fn window_closed(&mut self, id: u64)
        requires
            old(self).wf(),
        ensures
            final(self).wf(),
            final(self).popups@ == without(old(self).popups@, PopupGroup::Surface(id)),
            final(self).pins@ == old(self).pins@.filter(|p: BarPin| p.bar != id),
            if old(self).is_menu_surface(id) {
                final(self).tray_menu is None && final(self).pending_tray is None
            } else {
                final(self).tray_menu == old(self).tray_menu && final(self).pending_tray
                    == old(self).pending_tray
            },
            final(self).bound_output == old(self).bound_output,
            final(self).custom@ == old(self).custom@,
            final(self).errors@ == old(self).errors@,
    {
        self.popup_closed(id);
        self.unpin(id);
    }

    /// Index of the pin of bar `bar`.
    fn find_pin(&self, bar: u64) -> (r: Option<usize>)
        ensures
            match r {
                Some(k) => k < self.pins@.len() && self.pins@[k as int].bar == bar && forall|j: int|
                    0 <= j < k ==> (#[trigger] self.pins@[j]).bar != bar,
                None => !has_pin(self.pins@, bar),
            },
    {
        let mut i: usize = 0;
        while i < self.pins.len()
            invariant
                i <= self.pins@.len(),
                forall|j: int| 0 <= j < i ==> (#[trigger] self.pins@[j]).bar != bar,
            decreases self.pins@.len() - i,
        {
            if self.pins[i].bar == bar {
                return Some(i);
            }
            i += 1;
        }
        None
    }

    /// The monitor bar `bar` shows: the bound output, else its pin; a bar
    /// without a pin is pinned first (without a known width).
    pub fn output_for_bar(&mut self, bar: u64, c: &CompositorState) -> (r: Option<String>)
        requires
            old(self).wf(),
        ensures
            final(self).wf(),
            final(self).same_but_pins(old(self)),
            crate::config::opt_str_view(r) == match old(self).bound_output {
                Some(o) => Some(o@),
                None => match pin_of(old(self).pins@, bar) {
                    Some(n) => Some(n),
                    None => pin_choice(old(self).pins@, false, bar, None, *c),
                },
            },
            old(self).bound_output is Some || has_pin(old(self).pins@, bar) ==> final(self).pins@
                == old(self).pins@,
            old(self).bound_output is None && !has_pin(old(self).pins@, bar) ==> match pin_choice(
                old(self).pins@,
                false,
                bar,
                None,
                *c,
            ) {
                Some(n) => pins_after(old(self).pins@, bar, n, final(self).pins@),
                None => final(self).pins@ == old(self).pins@,
            },
    {
        if let Some(o) = &self.bound_output {
            return Some(o.clone());
        }
        if let Some(k) = self.find_pin(bar) {
            proof {
                let j = choose|j: int|
                    0 <= j < self.pins@.len() && (#[trigger] self.pins@[j]).bar == bar;
                if j != k {
                    assert(pins_compatible(self.pins@[j], self.pins@[k as int]));
                }
            }
            return Some(self.pins[k].output.clone());
        }
        self.pin_bar_output(bar, None, c);
        let ghost o = old(self).pins@;
        match self.find_pin(bar) {
            Some(k) => {
                proof {
                    let n = self.pins@.len();
                    if k < n - 1 {
                        assert(self.pins@[k as int] == self.pins@.drop_last()[k as int]);
                        o.lemma_filter_pred(|p: BarPin| p.bar != bar, k as int);
                    }
                }
                Some(self.pins[k].output.clone())
            },
            None => None,
        }
    }

    /// After the compositor's monitors changed: pins to monitors it no longer
    /// knows are dropped (those bars re-pin when next drawn). Nothing changes
    /// while bars are bound to an output or no monitor is known.
    pub fn refresh_bar_output_pins(&mut self, c: &CompositorState)
        requires
            old(self).wf(),
        ensures
            final(self).wf(),
            final(self).same_but_pins(old(self)),
            if old(self).bound_output is Some || !knows_outputs(*c) {
                final(self).pins@ == old(self).pins@
            } else {
                final(self).pins@ == old(self).pins@.filter(
                    |p: BarPin| known_output(*c, p.output@),
                )
            },
    {
        if self.bound_output.is_some() {
            return;
        }
        let names = c.output_names();
        let ghost nv = crate::compositor::str_views(names@);
        proof {
            assert forall|n: Seq<char>| nv.contains(n) <==> known_output(*c, n) by {
                if c.outputs@.len() > 0 {
                    if nv.contains(n) {
                        let j = choose|j: int| 0 <= j < nv.len() && nv[j] == n;
                        assert(nv[j] == c.outputs@[j].name@);
                    }
                    if known_output(*c, n) {
                        let k = choose|k: int|
                            0 <= k < c.outputs@.len() && (#[trigger] c.outputs@[k]).name@ == n;
                        assert(nv[k] == n);
                    }
                }
            }
            if !knows_outputs(*c) {
                if nv.len() > 0 {
                    assert(nv.contains(nv[0]));
                    let j = choose|j: int|
                        0 <= j < c.workspaces@.len() && crate::compositor::opt_is(
                            #[trigger] c.workspaces@[j].output,
                            nv[0],
                        );
                }
            } else if c.outputs@.len() == 0 {
                let j = choose|j: int| 0 <= j < c.workspaces@.len() && (#[trigger] c.workspaces@[j]).output is Some;
                let n = c.workspaces@[j].output->0@;
                assert(names_some_output(c.workspaces@, n));
                assert(nv.contains(n));
            }
        }
        if names.len() == 0 {
            return;
        }
        let ghost input = self.pins@;
        let ghost keep = |p: BarPin| known_output(*c, p.output@);
        let mut rest: Vec<BarPin> = Vec::new();
        std::mem::swap(&mut rest, &mut self.pins);
        assert(input.len() == rest.len());
        let mut kept: Vec<BarPin> = Vec::new();
        let mut j: usize = 0;
        assert(input.take(0).filter(keep) =~= Seq::<BarPin>::empty()) by {
            reveal(Seq::filter);
        }
        while rest.len() > 0
            invariant
                rest@ == input.skip(j as int),
                j + rest@.len() == input.len(),
                input.len() <= usize::MAX,
                nv == crate::compositor::str_views(names@),
                forall|n: Seq<char>| nv.contains(n) <==> known_output(*c, n),
                keep == (|p: BarPin| known_output(*c, p.output@)),
                kept@ == input.take(j as int).filter(keep),
            decreases rest@.len(),
        {
            assert(rest@[0] == input[j as int]);
            let p = rest.remove(0);
            assert(rest@ =~= input.skip(j + 1));
            proof {
                reveal(Seq::filter);
                assert(input.take(j + 1).drop_last() =~= input.take(j as int));
                assert(input.take(j + 1).last() == p);
            }
            let pc = chars_of(p.output.as_str());
            let mut found = false;
            let mut k: usize = 0;
            while k < names.len()
                invariant
                    k <= names@.len(),
                    nv == crate::compositor::str_views(names@),
                    pc@ == p.output@,
                    found == exists|m: int| 0 <= m < k && nv[m] == p.output@,
                decreases names@.len() - k,
            {
                let nk = chars_of(names[k].as_str());
                assert(nv[k as int] == names@[k as int]@);
                if chars_eq(&nk, &pc) {
                    found = true;
                }
                k += 1;
            }
            assert(found == nv.contains(p.output@));
            if found {
                kept.push(p);
            }
            j += 1;
        }
        assert(input.take(j as int) =~= input);
        proof {
            lemma_filter_pairwise(input, keep, |a: BarPin, b: BarPin| pins_compatible(a, b));
        }
        self.pins = kept;
    }
}

/// The compositor names at least one monitor.
pub open spec fn knows_outputs(c: CompositorState) -> bool {
    c.outputs@.len() > 0 || exists|j: int|
        0 <= j < c.workspaces@.len() && (#[trigger] c.workspaces@[j]).output is Some
}


// ---------------------------------------------------------------------------
// Laws
// ---------------------------------------------------------------------------

/// Law: closing a group of popups twice closes nothing the second time and
/// leaves the popups as the first time did.
pub proof fn lemma_close_twice(s: Seq<Popup>, g: PopupGroup)
    ensures
        without(without(s, g), g) == without(s, g),
        ids_in(without(s, g), g).len() == 0,
{
    let keep = |p: Popup| !in_group(g, p);
    let sel = |p: Popup| in_group(g, p);
    let w = s.filter(keep);
    assert forall|i: int| 0 <= i < w.len() implies keep(#[trigger] w[i]) by {
        s.lemma_filter_pred(keep, i);
    }
    crate::order::lemma_filter_keeps_all(w, keep);
    assert forall|i: int| 0 <= i < w.len() implies !sel(#[trigger] w[i]) by {
        s.lemma_filter_pred(keep, i);
    }
    w.lemma_all_neg_filter_empty(sel);
    assert(w.filter(sel).map_values(|p: Popup| p.id) =~= Seq::<u64>::empty());
}

/// Law: a tray menu just opened for an item counts as open for it, so the
/// next right-click on that item closes it instead of asking again.
pub proof fn lemma_opened_menu_toggles(s: BarState, item: Seq<char>)
    requires
        s.popups@.len() >= 1,
        is_menu_of(s.popups@.last(), item),
    ensures
        s.menu_open_for(item),
{
    assert(is_menu_of(s.popups@[s.popups@.len() - 1], item));
}

/// Law: once a tray menu is dismissed, no tray menu is open, and a pointer
/// press anywhere changes nothing.
pub proof fn lemma_dismissed_means_closed(s: Seq<Popup>)
    ensures
        forall|k: int|
            0 <= k < without(s, PopupGroup::TrayMenus).len() ==> !is_tray_menu(
                #[trigger] without(s, PopupGroup::TrayMenus)[k],
            ),
{
    assert forall|k: int| 0 <= k < without(s, PopupGroup::TrayMenus).len() implies !is_tray_menu(
        #[trigger] without(s, PopupGroup::TrayMenus)[k],
    ) by {
        s.lemma_filter_pred(|p: Popup| !in_group(PopupGroup::TrayMenus, p), k);
    }
}

} // verus!
