//! Snapshot of compositor-facing state consumed by the bar, and the per-output
//! queries the bar makes of it.
use vstd::prelude::*;

use crate::text::chars_of;
use crate::text::chars_eq;
use crate::text::chars_lt;
use crate::text::seq_lt;
use crate::text::lemma_seq_lt_total;
use crate::text::lemma_seq_lt_trans;

verus! {

broadcast use vstd::string::group_string_axioms;

/// Connected monitor / output with logical geometry.
#[derive(Debug, Clone, PartialEq, Eq)]
pub struct OutputInfo {
    pub name: String,
    pub x: i32,
    pub y: i32,
    pub width: u32,
    pub height: u32,
}

#[derive(Debug, Clone, PartialEq, Eq)]
pub struct WorkspaceInfo {
    pub id: u64,
    pub name: String,
    pub index: u8,
    pub output: Option<String>,
    pub active: bool,
    pub urgent: bool,
}

#[derive(Debug, Clone, PartialEq, Eq)]
pub struct WindowInfo {
    pub id: u64,
    pub title: String,
    pub app_id: Option<String>,
    pub workspace_id: Option<u64>,
    pub output: Option<String>,
    pub focused: bool,
    /// Backend focus handle: niri uses the decimal id; Hyprland uses the client address.
    pub focus_token: String,
}

/// Snapshot of compositor-facing state consumed by the UI.
#[derive(Debug, Clone, PartialEq, Eq)]
pub struct CompositorState {
    pub focused_output: Option<String>,
    pub outputs: Vec<OutputInfo>,
    pub workspaces: Vec<WorkspaceInfo>,
    pub windows: Vec<WindowInfo>,
    pub focused_window: Option<WindowInfo>,
}

impl Default for CompositorState {
    fn default() -> (s: Self)
        ensures
            s.focused_output is None,
            s.outputs@.len() == 0,
            s.workspaces@.len() == 0,
            s.windows@.len() == 0,
            s.focused_window is None,
    {
        CompositorState {
            focused_output: None,
            outputs: Vec::new(),
            workspaces: Vec::new(),
            windows: Vec::new(),
            focused_window: None,
        }
    }
}

// ---------------------------------------------------------------------------
// Specifications
// ---------------------------------------------------------------------------

/// An optional output name that is present and equal to `name`.
pub open spec fn opt_is(o: Option<String>, name: Seq<char>) -> bool {
    o matches Some(s) && s@ == name
}

/// The referenced values of a sequence of references.
pub open spec fn derefs<T>(s: Seq<&T>) -> Seq<T> {
    s.map_values(|x: &T| *x)
}

/// The workspaces placed on output `name`, in their original order.
pub open spec fn workspaces_on(ws: Seq<WorkspaceInfo>, name: Seq<char>) -> Seq<WorkspaceInfo>
    decreases ws.len(),
{
    if ws.len() == 0 {
        Seq::empty()
    } else {
        let rest = workspaces_on(ws.drop_last(), name);
        if opt_is(ws.last().output, name) {
            rest.push(ws.last())
        } else {
            rest
        }
    }
}

impl CompositorState {
    /// The workspaces the bar shows for `output`: those on that output; with no
    /// output given, those on the focused output when there are any, else all.
    pub open spec fn spec_workspaces_for(self, output: Option<Seq<char>>) -> Seq<WorkspaceInfo> {
        match output {
            Some(name) => workspaces_on(self.workspaces@, name),
            None => match self.focused_output {
                Some(f) if workspaces_on(self.workspaces@, f@).len() > 0 => workspaces_on(
                    self.workspaces@,
                    f@,
                ),
                _ => self.workspaces@,
            },
        }
    }
}

/// The view of an optional `&str`.
pub open spec fn opt_view(o: Option<&str>) -> Option<Seq<char>> {
    match o {
        Some(s) => Some(s@),
        None => None,
    }
}

// ---------------------------------------------------------------------------
// Executable queries
// ---------------------------------------------------------------------------

/// `o == Some(name)`, comparing by characters.
fn opt_matches(o: &Option<String>, name: &Vec<char>) -> (r: bool)
    ensures
        r == opt_is(*o, name@),
{
    match o {
        Some(s) => {
            let cs = chars_of(s.as_str());
            chars_eq(&cs, name)
        },
        None => false,
    }
}

impl CompositorState {
    /// The workspaces on output `name`, in order.
    fn workspaces_named<'a>(&'a self, name: &Vec<char>) -> (r: Vec<&'a WorkspaceInfo>)
        ensures
            derefs(r@) == workspaces_on(self.workspaces@, name@),
    {
        let mut r: Vec<&'a WorkspaceInfo> = Vec::new();
        let mut i: usize = 0;
        while i < self.workspaces.len()
            invariant
                i <= self.workspaces@.len(),
                derefs(r@) == workspaces_on(self.workspaces@.take(i as int), name@),
            decreases self.workspaces@.len() - i,
        {
            let ws = &self.workspaces[i];
            assert(self.workspaces@.take(i + 1).drop_last() == self.workspaces@.take(i as int));
            let ghost before = derefs(r@);
            if opt_matches(&ws.output, name) {
                r.push(ws);
                assert(derefs(r@) =~= before.push(*ws));
            }
            i += 1;
        }
        assert(self.workspaces@.take(i as int) == self.workspaces@);
        r
    }

    /// Workspaces to show for `output`: those on that output; without an
    /// output, those on the focused output if there are any, else all of them.
    pub fn workspaces_for_output<'a>(&'a self, output: Option<&str>) -> (r: Vec<&'a WorkspaceInfo>)
        ensures
            derefs(r@) == self.spec_workspaces_for(opt_view(output)),
    {
        match output {
            Some(name) => {
                let n = chars_of(name);
                self.workspaces_named(&n)
            },
            None => {
                if let Some(focused) = &self.focused_output {
                    let f = chars_of(focused.as_str());
                    let filtered = self.workspaces_named(&f);
                    if filtered.len() > 0 {
                        return filtered;
                    }
                }
                let mut r: Vec<&'a WorkspaceInfo> = Vec::new();
                let mut i: usize = 0;
                while i < self.workspaces.len()
                    invariant
                        i <= self.workspaces@.len(),
                        derefs(r@) == self.workspaces@.take(i as int),
                    decreases self.workspaces@.len() - i,
                {
                    let ghost before = derefs(r@);
                    let w = &self.workspaces[i];
                    r.push(w);
                    assert(derefs(r@) =~= before.push(*w));
                    assert(derefs(r@) =~= self.workspaces@.take(i + 1));
                    i += 1;
                }
                assert(self.workspaces@.take(i as int) == self.workspaces@);
                r
            },
        }
    }
}


// ---------------------------------------------------------------------------
// Output names
// ---------------------------------------------------------------------------

/// The views of a sequence of strings.
pub open spec fn str_views(s: Seq<String>) -> Seq<Seq<char>> {
    s.map_values(|x: String| x@)
}

/// Strictly increasing in string order (so also free of duplicates).
pub open spec fn strictly_sorted(s: Seq<Seq<char>>) -> bool {
    forall|i: int, j: int| 0 <= i < j < s.len() ==> seq_lt(#[trigger] s[i], #[trigger] s[j])
}

/// `name` is the output of one of the first workspaces.
pub open spec fn names_some_output(ws: Seq<WorkspaceInfo>, name: Seq<char>) -> bool {
    exists|j: int| 0 <= j < ws.len() && opt_is(#[trigger] ws[j].output, name)
}

impl CompositorState {
    /// Output names known to the compositor: the geometry list in order when
    /// there is one, else the distinct workspace outputs in string order.
    pub open spec fn spec_output_names_ok(self, names: Seq<Seq<char>>) -> bool {
        if self.outputs@.len() > 0 {
            names == self.outputs@.map_values(|o: OutputInfo| o.name@)
        } else {
            &&& strictly_sorted(names)
            &&& forall|n: Seq<char>|
                names.contains(n) <==> names_some_output(self.workspaces@, n)
        }
    }

    /// Output names known to the compositor (prefer the geometry list, else
    /// the sorted distinct outputs of the workspaces).
    pub fn output_names(&self) -> (r: Vec<String>)
        ensures
            self.spec_output_names_ok(str_views(r@)),
    {
        if self.outputs.len() > 0 {
            let mut r: Vec<String> = Vec::new();
            let mut i: usize = 0;
            while i < self.outputs.len()
                invariant
                    i <= self.outputs@.len(),
                    str_views(r@) == self.outputs@.take(i as int).map_values(
                        |o: OutputInfo| o.name@,
                    ),
                decreases self.outputs@.len() - i,
            {
                let ghost before = str_views(r@);
                r.push(self.outputs[i].name.clone());
                assert(str_views(r@) =~= before.push(self.outputs@[i as int].name@));
                assert(self.outputs@.take(i + 1).map_values(|o: OutputInfo| o.name@)
                    =~= self.outputs@.take(i as int).map_values(|o: OutputInfo| o.name@).push(
                    self.outputs@[i as int].name@,
                ));
                i += 1;
            }
            assert(self.outputs@.take(i as int) == self.outputs@);
            return r;
        }
        let mut r: Vec<String> = Vec::new();
        let mut i: usize = 0;
        while i < self.workspaces.len()
            invariant
                i <= self.workspaces@.len(),
                strictly_sorted(str_views(r@)),
                forall|n: Seq<char>|
                    str_views(r@).contains(n) <==> names_some_output(
                        self.workspaces@.take(i as int),
                        n,
                    ),
            decreases self.workspaces@.len() - i,
        {
            let ghost prev = self.workspaces@.take(i as int);
            let ghost next = self.workspaces@.take(i + 1);
            assert forall|n: Seq<char>| names_some_output(prev, n) implies names_some_output(
                next,
                n,
            ) by {
                let j = choose|j: int| 0 <= j < prev.len() && opt_is(#[trigger] prev[j].output, n);
                assert(next[j] == prev[j]);
            }
            if let Some(o) = &self.workspaces[i].output {
                let oc = chars_of(o.as_str());
                // First position whose name is not below `o`.
                let mut p: usize = 0;
                loop
                    invariant
                        p <= r@.len(),
                        forall|k: int| 0 <= k < p ==> seq_lt(#[trigger] str_views(r@)[k], oc@),
                    ensures
                        p <= r@.len(),
                        forall|k: int| 0 <= k < p ==> seq_lt(#[trigger] str_views(r@)[k], oc@),
                        p == r@.len() || !seq_lt(str_views(r@)[p as int], oc@),
                    decreases r@.len() - p,
                {
                    if p >= r.len() {
                        break;
                    }
                    let rc = chars_of(r[p].as_str());
                    if !chars_lt(&rc, &oc) {
                        break;
                    }
                    p += 1;
                }
                let present = p < r.len() && {
                    let rc = chars_of(r[p].as_str());
                    chars_eq(&rc, &oc)
                };
                let ghost old_v = str_views(r@);
                if !present {
                    proof {
                        if p < old_v.len() {
                            lemma_seq_lt_total(old_v[p as int], oc@);
                        }
                    }
                    r.insert(p, o.clone());
                    let ghost new_v = str_views(r@);
                    assert(new_v =~= old_v.insert(p as int, oc@));
                    assert forall|a: int, b: int| 0 <= a < b < new_v.len() implies seq_lt(
                        #[trigger] new_v[a],
                        #[trigger] new_v[b],
                    ) by {
                        if b < p {
                        } else if b == p {
                        } else if a == p {
                            if b - 1 > p {
                                lemma_seq_lt_trans(oc@, old_v[p as int], old_v[b - 1]);
                            }
                        } else if a < p {
                        } else {
                        }
                    }
                    assert forall|n: Seq<char>| new_v.contains(n) <==> names_some_output(
                        next,
                        n,
                    ) by {
                        if new_v.contains(n) {
                            let k = choose|k: int| 0 <= k < new_v.len() && new_v[k] == n;
                            if k == p {
                                assert(opt_is(next[i as int].output, n));
                            } else {
                                let kk = if k < p { k } else { k - 1 };
                                assert(old_v[kk] == n);
                                assert(old_v.contains(n));
                                assert(names_some_output(prev, n));
                                let j = choose|j: int|
                                    0 <= j < prev.len() && opt_is(#[trigger] prev[j].output, n);
                                assert(next[j] == prev[j]);
                                assert(opt_is(next[j].output, n));
                            }
                        }
                        if names_some_output(next, n) {
                            let j = choose|j: int|
                                0 <= j < next.len() && opt_is(#[trigger] next[j].output, n);
                            if j < i {
                                assert(prev[j] == next[j]);
                                assert(names_some_output(prev, n));
                                assert(old_v.contains(n));
                                let k = choose|k: int| 0 <= k < old_v.len() && old_v[k] == n;
                                if k < p {
                                    assert(new_v[k] == n);
                                } else {
                                    assert(new_v[k + 1] == n);
                                }
                                assert(new_v.contains(n));
                            } else {
                                assert(new_v[p as int] == n);
                                assert(new_v.contains(n));
                            }
                        }
                    }
                } else {
                    assert forall|n: Seq<char>| old_v.contains(n) <==> names_some_output(
                        next,
                        n,
                    ) by {
                        if names_some_output(next, n) {
                            let j = choose|j: int|
                                0 <= j < next.len() && opt_is(#[trigger] next[j].output, n);
                            if j < i {
                                assert(prev[j] == next[j]);
                                assert(names_some_output(prev, n));
                            } else {
                                assert(old_v[p as int] == n);
                            }
                        }
                    }
                }
            } else {
                assert forall|n: Seq<char>| names_some_output(next, n) implies names_some_output(
                    prev,
                    n,
                ) by {
                    let j = choose|j: int| 0 <= j < next.len() && opt_is(#[trigger] next[j].output, n);
                    assert(j < i);
                    assert(prev[j] == next[j]);
                }
            }
            i += 1;
        }
        assert(self.workspaces@.take(i as int) == self.workspaces@);
        r
    }
}

// ---------------------------------------------------------------------------
// Focused window and taskbar
// ---------------------------------------------------------------------------

/// The value behind an optional reference.
pub open spec fn opt_deref<T>(o: Option<&T>) -> Option<T> {
    match o {
        Some(x) => Some(*x),
        None => None,
    }
}

/// The first focused window of `ws` on output `name` (any output when `name`
/// is `None`).
pub open spec fn first_focused(ws: Seq<WindowInfo>, name: Option<Seq<char>>) -> Option<WindowInfo>
    decreases ws.len(),
{
    if ws.len() == 0 {
        None
    } else if ws[0].focused && match name {
        Some(n) => opt_is(ws[0].output, n),
        None => true,
    } {
        Some(ws[0])
    } else {
        first_focused(ws.drop_first(), name)
    }
}

/// Windows with id `k`, in order.
pub open spec fn with_id(s: Seq<WindowInfo>, k: u64) -> Seq<WindowInfo> {
    s.filter(|w: WindowInfo| w.id == k)
}

/// Ordered by window id.
pub open spec fn sorted_by_id(s: Seq<WindowInfo>) -> bool {
    forall|i: int, j: int| 0 <= i < j < s.len() ==> (#[trigger] s[i]).id <= (#[trigger] s[j]).id
}

/// `r` is `s` stably sorted by window id: ordered by id, and the windows of
/// each id keep their relative order.
pub open spec fn stable_sorted_by_id(r: Seq<WindowInfo>, s: Seq<WindowInfo>) -> bool {
    &&& sorted_by_id(r)
    &&& forall|k: u64| #[trigger] with_id(r, k) == with_id(s, k)
}

/// Ids of the active workspaces, in order.
pub open spec fn active_ids(ws: Seq<WorkspaceInfo>) -> Seq<u64>
    decreases ws.len(),
{
    if ws.len() == 0 {
        Seq::empty()
    } else {
        let rest = active_ids(ws.drop_last());
        if ws.last().active {
            rest.push(ws.last().id)
        } else {
            rest
        }
    }
}

/// A window shown by the taskbar for `output`: on one of the workspaces
/// `ids`, and not known to be on another output.
pub open spec fn on_taskbar(w: WindowInfo, ids: Seq<u64>, output: Option<Seq<char>>) -> bool {
    &&& w.workspace_id matches Some(id) && ids.contains(id)
    &&& match (output, w.output) {
        (Some(want), Some(have)) => have@ == want,
        _ => true,
    }
}

impl CompositorState {
    pub open spec fn spec_focused_window_for(self, output: Option<Seq<char>>) -> Option<
        WindowInfo,
    > {
        match output {
            Some(name) => match first_focused(self.windows@, Some(name)) {
                Some(w) => Some(w),
                None => match self.focused_window {
                    Some(w) if opt_is(w.output, name) => Some(w),
                    _ => None,
                },
            },
            None => match self.focused_window {
                Some(w) => Some(w),
                None => first_focused(self.windows@, None),
            },
        }
    }

    /// Workspace ids whose windows the taskbar shows: the active workspaces
    /// for the output, else the workspace of the focused window (when that
    /// window is on the output).
    pub open spec fn spec_taskbar_ids(self, output: Option<Seq<char>>) -> Seq<u64> {
        let ids = active_ids(self.spec_workspaces_for(output));
        if ids.len() > 0 {
            ids
        } else {
            match self.focused_window {
                Some(w) if match output {
                    Some(n) => opt_is(w.output, n),
                    None => true,
                } => match w.workspace_id {
                    Some(id) => seq![id],
                    None => Seq::empty(),
                },
                _ => Seq::empty(),
            }
        }
    }

    /// Prefers the focused window on this output rather than another
    /// monitor's focus.
    pub fn focused_window_for_output(&self, output: Option<&str>) -> (r: Option<&WindowInfo>)
        ensures
            opt_deref(r) == self.spec_focused_window_for(opt_view(output)),
    {
        if let Some(name) = output {
            let n = chars_of(name);
            let mut i: usize = 0;
            assert(self.windows@.skip(0) == self.windows@);
            while i < self.windows.len()
                invariant
                    i <= self.windows@.len(),
                    first_focused(self.windows@, Some(n@)) == first_focused(
                        self.windows@.skip(i as int),
                        Some(n@),
                    ),
                    opt_view(output) == Some(n@),
                decreases self.windows@.len() - i,
            {
                let w = &self.windows[i];
                assert(self.windows@.skip(i as int)[0] == *w);
                if w.focused && opt_matches(&w.output, &n) {
                    return Some(w);
                }
                assert(self.windows@.skip(i as int).drop_first() == self.windows@.skip(i + 1));
                i += 1;
            }
            match &self.focused_window {
                Some(w) => {
                    if opt_matches(&w.output, &n) {
                        Some(w)
                    } else {
                        None
                    }
                },
                None => None,
            }
        } else {
            match &self.focused_window {
                Some(w) => Some(w),
                None => {
                    let mut i: usize = 0;
                    assert(self.windows@.skip(0) == self.windows@);
                    while i < self.windows.len()
                        invariant
                            i <= self.windows@.len(),
                            first_focused(self.windows@, None) == first_focused(
                                self.windows@.skip(i as int),
                                None,
                            ),
                            output is None,
                            self.focused_window is None,
                        decreases self.windows@.len() - i,
                    {
                        let w = &self.windows[i];
                        assert(self.windows@.skip(i as int)[0] == *w);
                        if w.focused {
                            return Some(w);
                        }
                        assert(self.windows@.skip(i as int).drop_first() == self.windows@.skip(
                            i + 1,
                        ));
                        i += 1;
                    }
                    None
                },
            }
        }
    }
}

/// Windows kept by the taskbar, in their original order.
pub open spec fn taskbar_candidates(
    ws: Seq<WindowInfo>,
    ids: Seq<u64>,
    output: Option<Seq<char>>,
) -> Seq<WindowInfo> {
    ws.filter(|w: WindowInfo| on_taskbar(w, ids, output))
}

/// Inserting `x` after every window with an id not above its own keeps the
/// order by id and appends `x` to the windows of its id.
pub proof fn lemma_insert_stable(r: Seq<WindowInfo>, p: int, x: WindowInfo)
    requires
        sorted_by_id(r),
        0 <= p <= r.len(),
        forall|k: int| 0 <= k < p ==> (#[trigger] r[k]).id <= x.id,
        forall|k: int| p <= k < r.len() ==> (#[trigger] r[k]).id > x.id,
    ensures
        sorted_by_id(r.insert(p, x)),
        forall|key: u64|
            #[trigger] with_id(r.insert(p, x), key) == if x.id == key {
                with_id(r, key).push(x)
            } else {
                with_id(r, key)
            },
{
    let n = r.insert(p, x);
    assert forall|i: int, j: int| 0 <= i < j < n.len() implies (#[trigger] n[i]).id <= (
    #[trigger] n[j]).id by {
        if j < p {
            assert(n[i] == r[i] && n[j] == r[j]);
        } else if j == p {
            assert(n[i] == r[i]);
        } else if i == p {
            assert(n[j] == r[j - 1]);
        } else if i < p {
            assert(n[i] == r[i] && n[j] == r[j - 1]);
        } else {
            assert(n[i] == r[i - 1] && n[j] == r[j - 1]);
        }
    }
    assert(n =~= r.take(p) + seq![x] + r.skip(p));
    assert(r =~= r.take(p) + r.skip(p));
    assert forall|key: u64| #[trigger] with_id(n, key) == if x.id == key {
        with_id(r, key).push(x)
    } else {
        with_id(r, key)
    } by {
        let pred = |w: WindowInfo| w.id == key;
        Seq::filter_distributes_over_add(r.take(p) + seq![x], r.skip(p), pred);
        Seq::filter_distributes_over_add(r.take(p), seq![x], pred);
        Seq::filter_distributes_over_add(r.take(p), r.skip(p), pred);
        reveal_with_fuel(Seq::filter, 2);
        assert(seq![x].drop_last() =~= Seq::<WindowInfo>::empty());
        if x.id == key {
            r.skip(p).lemma_all_neg_filter_empty(pred);
            assert(r.skip(p).filter(pred) =~= Seq::<WindowInfo>::empty());
            assert(seq![x].filter(pred) =~= seq![x]);
        } else {
            assert(seq![x].filter(pred) =~= Seq::<WindowInfo>::empty());
        }
    }
}

impl CompositorState {
    /// Windows for the taskbar: those on the active workspace(s) of this
    /// monitor, ordered by window id.
    pub fn taskbar_windows<'a>(&'a self, output: Option<&str>) -> (r: Vec<&'a WindowInfo>)
        ensures
            stable_sorted_by_id(
                derefs(r@),
                taskbar_candidates(
                    self.windows@,
                    self.spec_taskbar_ids(opt_view(output)),
                    opt_view(output),
                ),
            ),
    {
        let workspaces = self.workspaces_for_output(output);
        let ghost wsv = derefs(workspaces@);
        let mut ids: Vec<u64> = Vec::new();
        let mut i: usize = 0;
        while i < workspaces.len()
            invariant
                i <= workspaces@.len(),
                wsv == derefs(workspaces@),
                ids@ == active_ids(wsv.take(i as int)),
            decreases workspaces@.len() - i,
        {
            assert(wsv.take(i + 1).drop_last() == wsv.take(i as int));
            assert(wsv[i as int] == *workspaces@[i as int]);
            if workspaces[i].active {
                ids.push(workspaces[i].id);
            }
            i += 1;
        }
        assert(wsv.take(i as int) == wsv);
        let oname: Option<Vec<char>> = match output {
            Some(name) => Some(chars_of(name)),
            None => None,
        };
        if ids.len() == 0 {
            if let Some(w) = &self.focused_window {
                let on_output = match &oname {
                    Some(n) => opt_matches(&w.output, n),
                    None => true,
                };
                if on_output {
                    if let Some(id) = w.workspace_id {
                        ids.push(id);
                    }
                }
            }
        }
        let ghost out = opt_view(output);
        let ghost tids = self.spec_taskbar_ids(out);
        assert(ids@ =~= tids);
        let ghost pred = |w: WindowInfo| on_taskbar(w, tids, out);
        let mut r: Vec<&'a WindowInfo> = Vec::new();
        let mut i: usize = 0;
        assert(self.windows@.take(0).filter(pred) =~= Seq::<WindowInfo>::empty()) by {
            reveal(Seq::filter);
        }
        while i < self.windows.len()
            invariant
                i <= self.windows@.len(),
                ids@ == tids,
                out == opt_view(output),
                match oname {
                    Some(n) => out == Some(n@),
                    None => out is None,
                },
                pred == (|w: WindowInfo| on_taskbar(w, tids, out)),
                sorted_by_id(derefs(r@)),
                forall|k: u64|
                    #[trigger] with_id(derefs(r@), k) == with_id(
                        self.windows@.take(i as int).filter(pred),
                        k,
                    ),
            decreases self.windows@.len() - i,
        {
            let w = &self.windows[i];
            assert(self.windows@[i as int] == *w);
            assert(self.windows@.take(i + 1).drop_last() == self.windows@.take(i as int));
            assert(self.windows@.take(i + 1).last() == *w);
            // On one of the chosen workspaces?
            let mut on_active = false;
            if let Some(wid) = w.workspace_id {
                let mut k: usize = 0;
                while k < ids.len()
                    invariant
                        k <= ids@.len(),
                        !on_active ==> forall|j: int| 0 <= j < k ==> ids@[j] != wid,
                        on_active ==> ids@.contains(wid),
                    decreases ids@.len() - k,
                {
                    if ids[k] == wid {
                        on_active = true;
                    }
                    k += 1;
                }
            }
            let compatible = match (&oname, &w.output) {
                (Some(want), Some(have)) => {
                    let hc = chars_of(have.as_str());
                    chars_eq(&hc, want)
                },
                _ => true,
            };
            let keep = on_active && compatible;
            assert(keep == pred(*w));
            let ghost before = derefs(r@);
            proof {
                reveal(Seq::filter);
            }
            if keep {
                let mut p: usize = 0;
                loop
                    invariant
                        p <= r@.len(),
                        forall|k: int| 0 <= k < p ==> (#[trigger] derefs(r@)[k]).id <= w.id,
                    ensures
                        p <= r@.len(),
                        forall|k: int| 0 <= k < p ==> (#[trigger] derefs(r@)[k]).id <= w.id,
                        p == r@.len() || r@[p as int].id > w.id,
                    decreases r@.len() - p,
                {
                    if p >= r.len() {
                        break;
                    }
                    if r[p].id > w.id {
                        break;
                    }
                    p += 1;
                }
                assert forall|k: int| p <= k < before.len() implies (#[trigger] before[k]).id
                    > w.id by {
                    if k > p {
                        assert(before[p as int].id <= before[k].id);
                    }
                }
                proof {
                    lemma_insert_stable(before, p as int, *w);
                }
                r.insert(p, w);
                assert(derefs(r@) =~= before.insert(p as int, *w));
            }
            let ghost fi = self.windows@.take(i as int).filter(pred);
            let ghost fn1 = self.windows@.take(i + 1).filter(pred);
            assert(fn1 == if keep { fi.push(*w) } else { fi });
            assert forall|k: u64| #[trigger] with_id(derefs(r@), k) == with_id(fn1, k) by {
                reveal(Seq::filter);
                if keep {
                    assert(fi.push(*w).drop_last() =~= fi);
                }
            }
            i += 1;
        }
        assert(self.windows@.take(i as int) == self.windows@);
        r
    }
}

// ---------------------------------------------------------------------------
// Output under a point
// ---------------------------------------------------------------------------

/// `v as i32` for a `u32`.
pub open spec fn as_i32(v: u32) -> int {
    if v <= i32::MAX {
        v as int
    } else {
        v - 0x1_0000_0000
    }
}

/// `a.saturating_add(b)` on `i32`.
pub open spec fn sat_add_i32(a: int, b: int) -> int {
    if a + b > i32::MAX {
        i32::MAX as int
    } else if a + b < i32::MIN {
        i32::MIN as int
    } else {
        a + b
    }
}

/// The logical point `(x, y)` lies inside output `o`.
pub open spec fn output_contains(o: OutputInfo, x: i32, y: i32) -> bool {
    &&& x >= o.x
    &&& y >= o.y
    &&& x < sat_add_i32(o.x as int, as_i32(o.width))
    &&& y < sat_add_i32(o.y as int, as_i32(o.height))
}

/// The first output containing `(x, y)`.
pub open spec fn first_output_at(os: Seq<OutputInfo>, x: i32, y: i32) -> Option<OutputInfo>
    decreases os.len(),
{
    if os.len() == 0 {
        None
    } else if output_contains(os[0], x, y) {
        Some(os[0])
    } else {
        first_output_at(os.drop_first(), x, y)
    }
}

fn i32_of_u32(v: u32) -> (r: i64)
    ensures
        r == as_i32(v),
{
    if v <= 0x7fff_ffff {
        v as i64
    } else {
        v as i64 - 0x1_0000_0000
    }
}

fn sat_add(a: i32, b: i64) -> (r: i64)
    requires
        i32::MIN <= b <= i32::MAX,
    ensures
        r == sat_add_i32(a as int, b as int),
{
    let s = a as i64 + b;
    if s > 0x7fff_ffff {
        0x7fff_ffff
    } else if s < -0x8000_0000 {
        -0x8000_0000
    } else {
        s
    }
}

impl CompositorState {
    /// The output containing the logical desktop point `(x, y)`, already
    /// rounded to whole pixels.
    pub fn output_at(&self, x: i32, y: i32) -> (r: Option<&str>)
        ensures
            opt_view(r) == (match first_output_at(self.outputs@, x, y) {
                Some(o) => Some(o.name@),
                None => None,
            }),
    {
        let mut i: usize = 0;
        assert(self.outputs@.skip(0) == self.outputs@);
        while i < self.outputs.len()
            invariant
                i <= self.outputs@.len(),
                first_output_at(self.outputs@, x, y) == first_output_at(
                    self.outputs@.skip(i as int),
                    x,
                    y,
                ),
            decreases self.outputs@.len() - i,
        {
            let o = &self.outputs[i];
            assert(self.outputs@.skip(i as int)[0] == *o);
            if x >= o.x && y >= o.y && (x as i64) < sat_add(o.x, i32_of_u32(o.width)) && (y as i64)
                < sat_add(o.y, i32_of_u32(o.height)) {
                return Some(o.name.as_str());
            }
            assert(self.outputs@.skip(i as int).drop_first() == self.outputs@.skip(i + 1));
            i += 1;
        }
        None
    }
}
} // verus!
