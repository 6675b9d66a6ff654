//! Building the bar's compositor snapshot from what the niri and Hyprland
//! IPC report: outputs in geometry order (keeping the last known geometry of
//! outputs that are temporarily off), workspaces per output in index order,
//! windows with the output of their workspace, and what has focus.
use vstd::prelude::*;

use crate::compositor::CompositorState;
use crate::compositor::OutputInfo;
use crate::compositor::WindowInfo;
use crate::compositor::WorkspaceInfo;
use crate::labels::decimal;
use crate::labels::decimal_string;
use crate::order::lemma_insert_stable_by;
use crate::order::lemma_int_le_total;
use crate::order::lemma_pair_le_total;
use crate::order::lemma_text_num_le_total;
use crate::order::lemma_with_key_push;
use crate::order::int_le;
use crate::order::pair_le;
use crate::order::sorted_by;
use crate::order::stable_sorted_by;
use crate::order::text_num_le;
use crate::order::total_order;
use crate::order::with_key;
use crate::text::chars_eq;
use crate::text::chars_lt;
use crate::text::chars_of;
use crate::config::opt_str_view;

verus! {

broadcast use vstd::string::group_string_axioms;

// ---------------------------------------------------------------------------
// Copies (the derived `Clone` impls are not read by the verifier)
// ---------------------------------------------------------------------------

pub fn copy_opt_string(o: &Option<String>) -> (r: Option<String>)
    ensures
        r == *o,
{
    match o {
        Some(s) => Some(s.clone()),
        None => None,
    }
}

pub fn copy_output(o: &OutputInfo) -> (r: OutputInfo)
    ensures
        r == *o,
{
    OutputInfo { name: o.name.clone(), x: o.x, y: o.y, width: o.width, height: o.height }
}

pub fn copy_window(w: &WindowInfo) -> (r: WindowInfo)
    ensures
        r == *w,
{
    WindowInfo {
        id: w.id,
        title: w.title.clone(),
        app_id: copy_opt_string(&w.app_id),
        workspace_id: w.workspace_id,
        output: copy_opt_string(&w.output),
        focused: w.focused,
        focus_token: w.focus_token.clone(),
    }
}

pub fn copy_outputs(v: &Vec<OutputInfo>) -> (r: Vec<OutputInfo>)
    ensures
        r@ == v@,
{
    let mut r: Vec<OutputInfo> = Vec::new();
    let mut i: usize = 0;
    while i < v.len()
        invariant
            i <= v@.len(),
            r@ == v@.take(i as int),
        decreases v@.len() - i,
    {
        r.push(copy_output(&v[i]));
        assert(v@.take(i + 1) =~= v@.take(i as int).push(v@[i as int]));
        i += 1;
    }
    assert(v@.take(i as int) =~= v@);
    r
}

// ---------------------------------------------------------------------------
// Orders
// ---------------------------------------------------------------------------

/// Geometry key of an output.
pub open spec fn geometry_key() -> spec_fn(OutputInfo) -> (int, int) {
    |o: OutputInfo| (o.x as int, o.y as int)
}

pub open spec fn geometry_le() -> spec_fn((int, int), (int, int)) -> bool {
    |a: (int, int), b: (int, int)| pair_le(a, b)
}

/// Outputs stably sorted by position (`x`, then `y`).
pub fn sort_outputs(items: Vec<OutputInfo>) -> (r: Vec<OutputInfo>)
    ensures
        stable_sorted_by(r@, items@, geometry_key(), geometry_le()),
{
    proof {
        lemma_pair_le_total();
    }
    let ghost key = geometry_key();
    let ghost le = geometry_le();
    let ghost input = items@;
    assert(input.len() == items.len());
    let mut rest = items;
    let mut r: Vec<OutputInfo> = Vec::new();
    let mut i: usize = 0;
    assert forall|k: (int, int)| #[trigger] with_key(r@, key, k) == with_key(input.take(0), key, k)
        by {
        reveal(Seq::filter);
        assert(input.take(0) =~= Seq::<OutputInfo>::empty());
    }
    while rest.len() > 0
        invariant
            rest@ == input.skip(i as int),
            i + rest@.len() == input.len(),
            input.len() <= usize::MAX,
            key == geometry_key(),
            le == geometry_le(),
            total_order(le),
            sorted_by(r@, key, le),
            forall|k: (int, int)| #[trigger] with_key(r@, key, k) == with_key(
                input.take(i as int),
                key,
                k,
            ),
        decreases rest@.len(),
    {
        assert(rest@[0] == input[i as int]);
        let x = rest.remove(0);
        assert(rest@ =~= input.skip(i + 1));
        let mut p: usize = 0;
        loop
            invariant
                p <= r@.len(),
                key == geometry_key(),
                le == geometry_le(),
                forall|k: int| 0 <= k < p ==> le(key(#[trigger] r@[k]), key(x)),
            ensures
                p <= r@.len(),
                forall|k: int| 0 <= k < p ==> le(key(#[trigger] r@[k]), key(x)),
                p == r@.len() || !le(key(r@[p as int]), key(x)),
            decreases r@.len() - p,
        {
            if p >= r.len() {
                break;
            }
            if x.x < r[p].x || (x.x == r[p].x && x.y < r[p].y) {
                break;
            }
            p += 1;
        }
        let ghost before = r@;
        assert forall|k: int| p <= k < before.len() implies !le(key(#[trigger] before[k]), key(x))
            by {
            if k > p {
                assert(le(key(before[p as int]), key(before[k])));
            }
        }
        proof {
            lemma_insert_stable_by(before, p as int, x, key, le);
            lemma_with_key_push(input.take(i as int), x, key);
            assert(input.take(i + 1) =~= input.take(i as int).push(x));
        }
        r.insert(p, x);
        i += 1;
    }
    assert(input.take(i as int) =~= input);
    r
}

/// Order key of a workspace: its output (empty when unknown), then index.
pub open spec fn workspace_key() -> spec_fn(WorkspaceInfo) -> (Seq<char>, int) {
    |w: WorkspaceInfo|
        (
            match w.output {
                Some(o) => o@,
                None => Seq::empty(),
            },
            w.index as int,
        )
}

pub open spec fn workspace_le() -> spec_fn((Seq<char>, int), (Seq<char>, int)) -> bool {
    |a: (Seq<char>, int), b: (Seq<char>, int)| text_num_le(a, b)
}

/// Workspaces stably sorted by output name, then index.
pub fn sort_workspaces(items: Vec<WorkspaceInfo>) -> (r: Vec<WorkspaceInfo>)
    ensures
        stable_sorted_by(r@, items@, workspace_key(), workspace_le()),
{
    proof {
        lemma_text_num_le_total();
    }
    let ghost key = workspace_key();
    let ghost le = workspace_le();
    let ghost input = items@;
    assert(input.len() == items.len());
    let mut rest = items;
    let mut r: Vec<WorkspaceInfo> = Vec::new();
    let mut names: Vec<Vec<char>> = Vec::new();
    let mut i: usize = 0;
    assert forall|k: (Seq<char>, int)| #[trigger] with_key(r@, key, k) == with_key(
        input.take(0),
        key,
        k,
    ) by {
        reveal(Seq::filter);
        assert(input.take(0) =~= Seq::<WorkspaceInfo>::empty());
    }
    while rest.len() > 0
        invariant
            rest@ == input.skip(i as int),
            i + rest@.len() == input.len(),
            input.len() <= usize::MAX,
            key == workspace_key(),
            le == workspace_le(),
            total_order(le),
            names@.len() == r@.len(),
            forall|j: int| 0 <= j < r@.len() ==> (#[trigger] names@[j])@ == key(r@[j]).0,
            sorted_by(r@, key, le),
            forall|k: (Seq<char>, int)| #[trigger] with_key(r@, key, k) == with_key(
                input.take(i as int),
                key,
                k,
            ),
        decreases rest@.len(),
    {
        assert(rest@[0] == input[i as int]);
        let x = rest.remove(0);
        assert(rest@ =~= input.skip(i + 1));
        let xn: Vec<char> = match &x.output {
            Some(o) => chars_of(o.as_str()),
            None => Vec::new(),
        };
        assert(xn@ == key(x).0);
        let mut p: usize = 0;
        loop
            invariant
                p <= r@.len(),
                names@.len() == r@.len(),
                forall|j: int| 0 <= j < r@.len() ==> (#[trigger] names@[j])@ == key(r@[j]).0,
                xn@ == key(x).0,
                key == workspace_key(),
                le == workspace_le(),
                forall|k: int| 0 <= k < p ==> le(key(#[trigger] r@[k]), key(x)),
            ensures
                p <= r@.len(),
                forall|k: int| 0 <= k < p ==> le(key(#[trigger] r@[k]), key(x)),
                p == r@.len() || !le(key(r@[p as int]), key(x)),
            decreases r@.len() - p,
        {
            if p >= r.len() {
                break;
            }
            let before_x = chars_lt(&xn, &names[p]);
            let same = chars_eq(&xn, &names[p]);
            if before_x || (same && x.index < r[p].index) {
                proof {
                    if before_x {
                        crate::text::lemma_seq_lt_asym(xn@, names@[p as int]@);
                        if xn@ == names@[p as int]@ {
                            crate::text::lemma_seq_lt_irrefl(xn@);
                        }
                    }
                }
                break;
            }
            proof {
                if !same {
                    crate::text::lemma_seq_lt_total(xn@, names@[p as int]@);
                }
            }
            p += 1;
        }
        let ghost before = r@;
        let ghost nbefore = names@;
        assert forall|k: int| p <= k < before.len() implies !le(key(#[trigger] before[k]), key(x))
            by {
            if k > p {
                assert(le(key(before[p as int]), key(before[k])));
            }
        }
        proof {
            lemma_insert_stable_by(before, p as int, x, key, le);
            lemma_with_key_push(input.take(i as int), x, key);
            assert(input.take(i + 1) =~= input.take(i as int).push(x));
        }
        r.insert(p, x);
        names.insert(p, xn);
        assert forall|j: int| 0 <= j < r@.len() implies (#[trigger] names@[j])@ == key(r@[j]).0 by {
            if j > p {
                assert(names@[j] == nbefore[j - 1]);
                assert(r@[j] == before[j - 1]);
            } else if j < p {
                assert(names@[j] == nbefore[j]);
                assert(r@[j] == before[j]);
            }
        }
        i += 1;
    }
    assert(input.take(i as int) =~= input);
    r
}

pub open spec fn window_key() -> spec_fn(WindowInfo) -> int {
    |w: WindowInfo| w.id as int
}

pub open spec fn window_le() -> spec_fn(int, int) -> bool {
    |a: int, b: int| int_le(a, b)
}

/// Windows stably sorted by id.
pub fn sort_windows(items: Vec<WindowInfo>) -> (r: Vec<WindowInfo>)
    ensures
        stable_sorted_by(r@, items@, window_key(), window_le()),
{
    proof {
        lemma_int_le_total();
    }
    let ghost key = window_key();
    let ghost le = window_le();
    let ghost input = items@;
    assert(input.len() == items.len());
    let mut rest = items;
    let mut r: Vec<WindowInfo> = Vec::new();
    let mut i: usize = 0;
    assert forall|k: int| #[trigger] with_key(r@, key, k) == with_key(input.take(0), key, k) by {
        reveal(Seq::filter);
        assert(input.take(0) =~= Seq::<WindowInfo>::empty());
    }
    while rest.len() > 0
        invariant
            rest@ == input.skip(i as int),
            i + rest@.len() == input.len(),
            input.len() <= usize::MAX,
            key == window_key(),
            le == window_le(),
            total_order(le),
            sorted_by(r@, key, le),
            forall|k: int| #[trigger] with_key(r@, key, k) == with_key(input.take(i as int), key, k),
        decreases rest@.len(),
    {
        assert(rest@[0] == input[i as int]);
        let x = rest.remove(0);
        assert(rest@ =~= input.skip(i + 1));
        let mut p: usize = 0;
        loop
            invariant
                p <= r@.len(),
                key == window_key(),
                le == window_le(),
                forall|k: int| 0 <= k < p ==> le(key(#[trigger] r@[k]), key(x)),
            ensures
                p <= r@.len(),
                forall|k: int| 0 <= k < p ==> le(key(#[trigger] r@[k]), key(x)),
                p == r@.len() || !le(key(r@[p as int]), key(x)),
            decreases r@.len() - p,
        {
            if p >= r.len() {
                break;
            }
            if x.id < r[p].id {
                break;
            }
            p += 1;
        }
        let ghost before = r@;
        assert forall|k: int| p <= k < before.len() implies !le(key(#[trigger] before[k]), key(x))
            by {
            if k > p {
                assert(le(key(before[p as int]), key(before[k])));
            }
        }
        proof {
            lemma_insert_stable_by(before, p as int, x, key, le);
            lemma_with_key_push(input.take(i as int), x, key);
            assert(input.take(i + 1) =~= input.take(i as int).push(x));
        }
        r.insert(p, x);
        i += 1;
    }
    assert(input.take(i as int) =~= input);
    r
}


// ---------------------------------------------------------------------------
// niri
// ---------------------------------------------------------------------------

/// A workspace as niri's event stream reports it.
#[derive(Debug, Clone)]
pub struct NiriWorkspace {
    pub id: u64,
    pub idx: u8,
    pub name: Option<String>,
    pub output: Option<String>,
    pub is_urgent: bool,
    pub is_active: bool,
    pub is_focused: bool,
}

/// A window as niri's event stream reports it.
#[derive(Debug, Clone)]
pub struct NiriWindow {
    pub id: u64,
    pub title: Option<String>,
    pub app_id: Option<String>,
    pub workspace_id: Option<u64>,
    pub is_focused: bool,
}

/// Logical position and size of an output.
#[derive(Debug, Clone, Copy)]
pub struct LogicalGeometry {
    pub x: i32,
    pub y: i32,
    pub width: u32,
    pub height: u32,
}

/// An output as niri's `Outputs` request reports it; `logical` is `None`
/// while the output is off.
#[derive(Debug, Clone)]
pub struct NiriOutput {
    pub name: String,
    pub logical: Option<LogicalGeometry>,
}

/// `r` is the bar's view of niri workspace `w`: a workspace without a name
/// is labelled by its index.
pub open spec fn workspace_from_niri(r: WorkspaceInfo, w: NiriWorkspace) -> bool {
    &&& r.id == w.id
    &&& r.name@ == match w.name {
        Some(n) => n@,
        None => decimal(w.idx as nat),
    }
    &&& r.index == w.idx
    &&& r.output == w.output
    &&& r.active == w.is_active
    &&& r.urgent == w.is_urgent
}

/// The last workspace with id `id` (later reports replace earlier ones).
pub open spec fn last_workspace(ws: Seq<NiriWorkspace>, id: u64) -> Option<NiriWorkspace>
    decreases ws.len(),
{
    if ws.len() == 0 {
        None
    } else if ws.last().id == id {
        Some(ws.last())
    } else {
        last_workspace(ws.drop_last(), id)
    }
}

/// The output of the workspace a niri window is on.
pub open spec fn niri_window_output(w: NiriWindow, ws: Seq<NiriWorkspace>) -> Option<String> {
    match w.workspace_id {
        Some(id) => match last_workspace(ws, id) {
            Some(x) => x.output,
            None => None,
        },
        None => None,
    }
}

/// `r` is the bar's view of niri window `w`: untitled windows get an empty
/// title, and niri focuses windows by their id in decimal.
pub open spec fn window_from_niri(r: WindowInfo, w: NiriWindow, ws: Seq<NiriWorkspace>) -> bool {
    &&& r.id == w.id
    &&& r.title@ == match w.title {
        Some(t) => t@,
        None => Seq::empty(),
    }
    &&& r.app_id == w.app_id
    &&& r.workspace_id == w.workspace_id
    &&& r.output == niri_window_output(w, ws)
    &&& r.focused == w.is_focused
    &&& r.focus_token@ == decimal(w.id as nat)
}

/// The first focused window.
pub open spec fn first_focused_window(s: Seq<WindowInfo>) -> Option<WindowInfo>
    decreases s.len(),
{
    if s.len() == 0 {
        None
    } else if s[0].focused {
        Some(s[0])
    } else {
        first_focused_window(s.drop_first())
    }
}

/// The first focused workspace.
pub open spec fn first_focused_workspace(ws: Seq<NiriWorkspace>) -> Option<NiriWorkspace>
    decreases ws.len(),
{
    if ws.len() == 0 {
        None
    } else if ws[0].is_focused {
        Some(ws[0])
    } else {
        first_focused_workspace(ws.drop_first())
    }
}

/// The focused output: that of the focused workspace, else that of the
/// focused window.
pub open spec fn niri_focused_output(ws: Seq<NiriWorkspace>, fw: Option<WindowInfo>) -> Option<
    String,
> {
    match first_focused_workspace(ws) {
        Some(w) if w.output is Some => w.output,
        _ => match fw {
            Some(f) => f.output,
            None => None,
        },
    }
}

fn workspace_info_of(w: &NiriWorkspace) -> (r: WorkspaceInfo)
    ensures
        workspace_from_niri(r, *w),
{
    let name = match &w.name {
        Some(n) => n.clone(),
        None => decimal_string(w.idx as u64),
    };
    WorkspaceInfo {
        id: w.id,
        name,
        index: w.idx,
        output: copy_opt_string(&w.output),
        active: w.is_active,
        urgent: w.is_urgent,
    }
}

fn workspace_output_of(ws: &Vec<NiriWorkspace>, id: u64) -> (r: Option<String>)
    ensures
        r == match last_workspace(ws@, id) {
            Some(x) => x.output,
            None => None,
        },
{
    let mut i = ws.len();
    assert(ws@.take(i as int) =~= ws@);
    while i > 0
        invariant
            i <= ws@.len(),
            last_workspace(ws@, id) == last_workspace(ws@.take(i as int), id),
        decreases i,
    {
        assert(ws@.take(i as int).drop_last() =~= ws@.take(i - 1));
        assert(ws@.take(i as int).last() == ws@[i - 1]);
        if ws[i - 1].id == id {
            return copy_opt_string(&ws[i - 1].output);
        }
        i -= 1;
    }
    None
}

fn window_info_of(w: &NiriWindow, ws: &Vec<NiriWorkspace>) -> (r: WindowInfo)
    ensures
        window_from_niri(r, *w, ws@),
{
    let output = match w.workspace_id {
        Some(id) => workspace_output_of(ws, id),
        None => None,
    };
    WindowInfo {
        id: w.id,
        title: match &w.title {
            Some(t) => t.clone(),
            None => String::new(),
        },
        app_id: copy_opt_string(&w.app_id),
        workspace_id: w.workspace_id,
        output,
        focused: w.is_focused,
        focus_token: decimal_string(w.id),
    }
}

fn first_focused_of(s: &Vec<WindowInfo>) -> (r: Option<WindowInfo>)
    ensures
        r == first_focused_window(s@),
{
    let mut i: usize = 0;
    assert(s@.skip(0) =~= s@);
    while i < s.len()
        invariant
            i <= s@.len(),
            first_focused_window(s@) == first_focused_window(s@.skip(i as int)),
        decreases s@.len() - i,
    {
        assert(s@.skip(i as int)[0] == s@[i as int]);
        assert(s@.skip(i as int).drop_first() =~= s@.skip(i + 1));
        if s[i].focused {
            return Some(copy_window(&s[i]));
        }
        i += 1;
    }
    assert(s@.skip(i as int) =~= Seq::<WindowInfo>::empty());
    None
}

fn niri_focused_output_of(ws: &Vec<NiriWorkspace>, fw: &Option<WindowInfo>) -> (r: Option<String>)
    ensures
        r == niri_focused_output(ws@, *fw),
{
    let mut i: usize = 0;
    let mut done = false;
    assert(ws@.skip(0) =~= ws@);
    while i < ws.len() && !done
        invariant
            i <= ws@.len(),
            !done ==> first_focused_workspace(ws@) == first_focused_workspace(ws@.skip(i as int)),
            done ==> i < ws@.len() && first_focused_workspace(ws@) == Some(ws@[i as int])
                && ws@[i as int].output is None,
        decreases ws@.len() - i, if done { 0int } else { 1int },
    {
        assert(ws@.skip(i as int)[0] == ws@[i as int]);
        assert(ws@.skip(i as int).drop_first() =~= ws@.skip(i + 1));
        if ws[i].is_focused {
            if ws[i].output.is_some() {
                return copy_opt_string(&ws[i].output);
            }
            done = true;
        } else {
            i += 1;
        }
    }
    if !done {
        assert(ws@.skip(i as int) =~= Seq::<NiriWorkspace>::empty());
    }
    match fw {
        Some(f) => copy_opt_string(&f.output),
        None => None,
    }
}

/// The bar's snapshot of niri's state: workspaces sorted by output then
/// index, windows sorted by id, the first focused window, the focused
/// output, and `outputs` as given.
pub fn niri_snapshot(
    workspaces: &Vec<NiriWorkspace>,
    windows: &Vec<NiriWindow>,
    outputs: &Vec<OutputInfo>,
) -> (r: CompositorState)
    ensures
        exists|m: Seq<WorkspaceInfo>|
            m.len() == workspaces@.len() && (forall|i: int|
                0 <= i < m.len() ==> workspace_from_niri(#[trigger] m[i], workspaces@[i]))
                && stable_sorted_by(r.workspaces@, m, workspace_key(), workspace_le()),
        exists|m: Seq<WindowInfo>|
            m.len() == windows@.len() && (forall|i: int|
                0 <= i < m.len() ==> window_from_niri(#[trigger] m[i], windows@[i], workspaces@))
                && stable_sorted_by(r.windows@, m, window_key(), window_le()),
        r.focused_window == first_focused_window(r.windows@),
        r.focused_output == niri_focused_output(workspaces@, r.focused_window),
        r.outputs@ == outputs@,
{
    let mut ws: Vec<WorkspaceInfo> = Vec::new();
    let mut i: usize = 0;
    while i < workspaces.len()
        invariant
            i <= workspaces@.len(),
            ws@.len() == i,
            forall|k: int| 0 <= k < i ==> workspace_from_niri(#[trigger] ws@[k], workspaces@[k]),
        decreases workspaces@.len() - i,
    {
        ws.push(workspace_info_of(&workspaces[i]));
        i += 1;
    }
    let ghost wsm = ws@;
    let sorted_ws = sort_workspaces(ws);
    let mut wins: Vec<WindowInfo> = Vec::new();
    let mut i: usize = 0;
    while i < windows.len()
        invariant
            i <= windows@.len(),
            wins@.len() == i,
            forall|k: int|
                0 <= k < i ==> window_from_niri(#[trigger] wins@[k], windows@[k], workspaces@),
        decreases windows@.len() - i,
    {
        wins.push(window_info_of(&windows[i], workspaces));
        i += 1;
    }
    let ghost winm = wins@;
    let sorted_wins = sort_windows(wins);
    assert(wsm.len() == workspaces@.len() && (forall|i: int|
        0 <= i < wsm.len() ==> workspace_from_niri(#[trigger] wsm[i], workspaces@[i]))
        && stable_sorted_by(sorted_ws@, wsm, workspace_key(), workspace_le()));
    assert(winm.len() == windows@.len() && (forall|i: int|
        0 <= i < winm.len() ==> window_from_niri(#[trigger] winm[i], windows@[i], workspaces@))
        && stable_sorted_by(sorted_wins@, winm, window_key(), window_le()));
    let focused_window = first_focused_of(&sorted_wins);
    let focused_output = niri_focused_output_of(workspaces, &focused_window);
    let r = CompositorState {
        focused_output,
        outputs: copy_outputs(outputs),
        workspaces: sorted_ws,
        windows: sorted_wins,
        focused_window,
    };
    assert(wsm.len() == workspaces@.len() && (forall|i: int|
        0 <= i < wsm.len() ==> workspace_from_niri(#[trigger] wsm[i], workspaces@[i]))
        && stable_sorted_by(r.workspaces@, wsm, workspace_key(), workspace_le()));
    r
}

/// The last output named `name`.
pub open spec fn last_named(s: Seq<OutputInfo>, name: Seq<char>) -> Option<OutputInfo>
    decreases s.len(),
{
    if s.len() == 0 {
        None
    } else if s.last().name@ == name {
        Some(s.last())
    } else {
        last_named(s.drop_last(), name)
    }
}

/// `r` is the bar's view of niri output `f`: its logical geometry, or while
/// it has none, the geometry it last had (zero when unknown).
pub open spec fn output_from_niri(r: OutputInfo, f: NiriOutput, previous: Seq<OutputInfo>) -> bool {
    &&& r.name@ == f.name@
    &&& match f.logical {
        Some(g) => r.x == g.x && r.y == g.y && r.width == g.width && r.height == g.height,
        None => match last_named(previous, f.name@) {
            Some(p) => r.x == p.x && r.y == p.y && r.width == p.width && r.height == p.height,
            None => r.x == 0 && r.y == 0 && r.width == 0 && r.height == 0,
        },
    }
}

fn output_of(f: NiriOutput, previous: &Vec<OutputInfo>) -> (r: OutputInfo)
    ensures
        output_from_niri(r, f, previous@),
{
    match f.logical {
        Some(g) => OutputInfo { name: f.name, x: g.x, y: g.y, width: g.width, height: g.height },
        None => {
            let want = chars_of(f.name.as_str());
            let mut i = previous.len();
            assert(previous@.take(i as int) =~= previous@);
            while i > 0
                invariant
                    i <= previous@.len(),
                    want@ == f.name@,
                    f.logical is None,
                    last_named(previous@, f.name@) == last_named(previous@.take(i as int), f.name@),
                decreases i,
            {
                assert(previous@.take(i as int).drop_last() =~= previous@.take(i - 1));
                assert(previous@.take(i as int).last() == previous@[i - 1]);
                let p = &previous[i - 1];
                assert(previous@[i - 1] == *p);
                let pn = chars_of(p.name.as_str());
                if chars_eq(&pn, &want) {
                    assert(last_named(previous@.take(i as int), f.name@) == Some(*p));
                    return OutputInfo {
                        name: f.name,
                        x: p.x,
                        y: p.y,
                        width: p.width,
                        height: p.height,
                    };
                }
                i -= 1;
            }
            OutputInfo { name: f.name, x: 0, y: 0, width: 0, height: 0 }
        },
    }
}

/// niri's outputs in geometry order; an output that is off keeps the
/// geometry it had in `previous`, so bars stay pinned to it.
pub fn merge_outputs(fetched: Vec<NiriOutput>, previous: &Vec<OutputInfo>) -> (r: Vec<OutputInfo>)
    ensures
        exists|m: Seq<OutputInfo>|
            m.len() == fetched@.len() && (forall|i: int|
                0 <= i < m.len() ==> output_from_niri(#[trigger] m[i], fetched@[i], previous@))
                && stable_sorted_by(r@, m, geometry_key(), geometry_le()),
{
    let ghost input = fetched@;
    assert(input.len() == fetched.len());
    let mut rest = fetched;
    let mut outs: Vec<OutputInfo> = Vec::new();
    let mut i: usize = 0;
    while rest.len() > 0
        invariant
            rest@ == input.skip(i as int),
            i + rest@.len() == input.len(),
            input.len() <= usize::MAX,
            outs@.len() == i,
            forall|k: int| 0 <= k < i ==> output_from_niri(#[trigger] outs@[k], input[k], previous@),
        decreases rest@.len(),
    {
        assert(rest@[0] == input[i as int]);
        let f = rest.remove(0);
        assert(rest@ =~= input.skip(i + 1));
        outs.push(output_of(f, previous));
        i += 1;
    }
    let ghost m = outs@;
    let r = sort_outputs(outs);
    assert(m.len() == input.len() && (forall|i: int|
        0 <= i < m.len() ==> output_from_niri(#[trigger] m[i], input[i], previous@))
        && stable_sorted_by(r@, m, geometry_key(), geometry_le()));
    r
}


// ---------------------------------------------------------------------------
// Hyprland
// ---------------------------------------------------------------------------

/// The value of a hexadecimal digit.
pub open spec fn hex_val(c: char) -> Option<nat> {
    if '0' <= c <= '9' {
        Some((c as nat - '0' as nat) as nat)
    } else if 'a' <= c <= 'f' {
        Some((c as nat - 'a' as nat + 10) as nat)
    } else if 'A' <= c <= 'F' {
        Some((c as nat - 'A' as nat + 10) as nat)
    } else {
        None
    }
}

pub open spec fn all_hex(d: Seq<char>) -> bool {
    forall|i: int| 0 <= i < d.len() ==> (#[trigger] hex_val(d[i])) is Some
}

/// The number the hexadecimal digits `d` stand for.
pub open spec fn hex_value(d: Seq<char>) -> nat
    decreases d.len(),
{
    if d.len() == 0 {
        0
    } else {
        hex_value(d.drop_last()) * 16 + match hex_val(d.last()) {
            Some(v) => v,
            None => 0,
        }
    }
}

/// `u64::from_str_radix(s, 16)`: an optional `+`, then at least one
/// hexadecimal digit, with a value that fits.
pub open spec fn parse_hex_u64(s: Seq<char>) -> Option<u64> {
    let d = if s.len() > 0 && s[0] == '+' {
        s.drop_first()
    } else {
        s
    };
    if d.len() == 0 || !all_hex(d) || hex_value(d) > u64::MAX {
        None
    } else {
        Some(hex_value(d) as u64)
    }
}

/// A longer run of hex digits is worth at least as much as its prefix.
pub proof fn lemma_hex_value_prefix(d: Seq<char>, k: int)
    requires
        0 <= k <= d.len(),
    ensures
        hex_value(d.take(k)) <= hex_value(d),
    decreases d.len() - k,
{
    if k < d.len() {
        lemma_hex_value_prefix(d, k + 1);
        assert(d.take(k + 1).drop_last() =~= d.take(k));
    } else {
        assert(d.take(k) =~= d);
    }
}

fn hex_val_of(c: char) -> (r: Option<u64>)
    ensures
        match r {
            Some(v) => hex_val(c) == Some(v as nat) && v < 16,
            None => hex_val(c) is None,
        },
{
    if '0' <= c && c <= '9' {
        Some((c as u64) - ('0' as u64))
    } else if 'a' <= c && c <= 'f' {
        Some((c as u64) - ('a' as u64) + 10)
    } else if 'A' <= c && c <= 'F' {
        Some((c as u64) - ('A' as u64) + 10)
    } else {
        None
    }
}

/// Parses an unsigned hexadecimal number (`u64::from_str_radix(s, 16)`).
pub fn parse_hex(s: &Vec<char>) -> (r: Option<u64>)
    ensures
        r == parse_hex_u64(s@),
{
    let start: usize = if s.len() > 0 && s[0] == '+' {
        1
    } else {
        0
    };
    let ghost d = s@.skip(start as int);
    assert(d == if s@.len() > 0 && s@[0] == '+' {
        s@.drop_first()
    } else {
        s@
    });
    if start == s.len() {
        return None;
    }
    let mut v: u64 = 0;
    let mut i = start;
    assert(d.take(0) =~= Seq::<char>::empty());
    while i < s.len()
        invariant
            start <= i <= s@.len(),
            d == s@.skip(start as int),
            d == (if s@.len() > 0 && s@[0] == '+' {
                s@.drop_first()
            } else {
                s@
            }),
            d.len() > 0,
            v == hex_value(d.take(i - start)),
            all_hex(d.take(i - start)),
        decreases s@.len() - i,
    {
        let ghost k: int = i - start;
        assert(d.take(k + 1).drop_last() =~= d.take(k));
        assert(d.take(k + 1).last() == s@[i as int]);
        match hex_val_of(s[i]) {
            None => {
                assert(hex_val(d[k]) is None);
                assert(!all_hex(d));
                return None;
            },
            Some(x) => {
                let wide: u128 = (v as u128) * 16 + (x as u128);
                assert(hex_value(d.take(k + 1)) == v * 16 + x);
                if wide > 0xffff_ffff_ffff_ffff {
                    proof {
                        if all_hex(d) {
                            lemma_hex_value_prefix(d, k + 1);
                        }
                    }
                    return None;
                }
                v = wide as u64;
                assert forall|j: int| 0 <= j < k + 1 implies (#[trigger] hex_val(
                    d.take(k + 1)[j],
                )) is Some by {
                    if j < k {
                        assert(d.take(k + 1)[j] == d.take(k)[j]);
                    }
                }
            },
        }
        i += 1;
    }
    assert(d.take(i - start) =~= d);
    Some(v)
}

/// Hash of a string with std's default hasher (fixed keys, so the same in
/// every run of a build).
pub uninterp spec fn default_hash_of(s: Seq<char>) -> u64;

/// `BuildHasher::hash_one` of `BuildHasherDefault<DefaultHasher>` on `s`
/// (what `DefaultHasher::new()`, `str::hash` and `finish` give): claimed to
/// be `default_hash_of(s)`; nothing else is stated of the value.
#[verifier::external_body]
fn hash_str(s: &str) -> (h: u64)
    ensures
        h == default_hash_of(s@),
{
    std::hash::BuildHasher::hash_one(
        &std::hash::BuildHasherDefault::<std::collections::hash_map::DefaultHasher>::default(),
        s,
    )
}

/// The numeric id of a Hyprland client address: the address read as hex
/// (without its `0x` prefixes), else a hash of the whole address.
pub open spec fn address_id(addr: Seq<char>) -> u64 {
    match parse_hex_u64(crate::config::strip_all_prefix(addr, "0x"@)) {
        Some(v) => v,
        None => default_hash_of(addr),
    }
}

pub fn address_to_id(addr: &str) -> (r: u64)
    ensures
        r == address_id(addr@),
{
    let a = chars_of(addr);
    let p = chars_of("0x");
    let hex = crate::config::strip_all_prefix_chars(&a, &p);
    match parse_hex(&hex) {
        Some(v) => v,
        None => hash_str(addr),
    }
}

/// A workspace as Hyprland reports it.
#[derive(Debug, Clone)]
pub struct HyprWorkspace {
    pub id: i32,
    pub name: String,
    pub monitor: String,
}

/// A monitor as Hyprland reports it.
#[derive(Debug, Clone)]
pub struct HyprMonitor {
    pub name: String,
    pub x: i32,
    pub y: i32,
    pub width: u32,
    pub height: u32,
    pub active_workspace_id: i32,
}

/// A client (window) as Hyprland reports it.
#[derive(Debug, Clone)]
pub struct HyprClient {
    /// The client's address, as Hyprland prints it (`0x…`).
    pub address: String,
    pub title: String,
    pub class: String,
    pub workspace_id: i32,
}

/// The absolute value of a workspace id, as the 8-bit index the bar shows.
pub open spec fn hypr_index(id: i32) -> u8 {
    (if id < 0 {
        -(id as int)
    } else {
        id as int
    }) as u8
}

/// Some monitor shows workspace `id` on output `out`.
pub open spec fn shown_on_monitor(monitors: Seq<HyprMonitor>, out: Seq<char>, id: u64) -> bool {
    exists|k: int|
        0 <= k < monitors.len() && (#[trigger] monitors[k]).name@ == out && id
            == monitors[k].active_workspace_id as u64
}

/// `r` is the bar's view of Hyprland workspace `w`: active when it is the
/// active workspace, the active monitor's, or the one some monitor shows.
pub open spec fn workspace_from_hypr(
    r: WorkspaceInfo,
    w: HyprWorkspace,
    active_ws: Option<i32>,
    active_monitor: Option<HyprMonitor>,
    monitors: Seq<HyprMonitor>,
) -> bool {
    &&& r.id == w.id as u64
    &&& r.name@ == w.name@
    &&& r.index == hypr_index(w.id)
    &&& r.output matches Some(o) && o@ == w.monitor@
    &&& r.active == (active_ws == Some(w.id) || (active_monitor matches Some(m)
        && m.active_workspace_id == w.id) || shown_on_monitor(monitors, w.monitor@, w.id as u64))
    &&& !r.urgent
}

/// `r` is the bar's view of Hyprland monitor `m`.
pub open spec fn output_from_hypr(r: OutputInfo, m: HyprMonitor) -> bool {
    r.name@ == m.name@ && r.x == m.x && r.y == m.y && r.width == m.width && r.height == m.height
}

/// The output of the first workspace with id `id`.
pub open spec fn output_of_workspace(ws: Seq<WorkspaceInfo>, id: u64) -> Option<String>
    decreases ws.len(),
{
    if ws.len() == 0 {
        None
    } else if ws[0].id == id {
        ws[0].output
    } else {
        output_of_workspace(ws.drop_first(), id)
    }
}

/// `r` is the bar's view of Hyprland client `c`.
pub open spec fn window_from_hypr(
    r: WindowInfo,
    c: HyprClient,
    ws: Seq<WorkspaceInfo>,
    focused: Option<HyprClient>,
) -> bool {
    &&& r.id == address_id(c.address@)
    &&& r.title@ == c.title@
    &&& r.app_id matches Some(a) && a@ == c.class@
    &&& r.workspace_id == Some(c.workspace_id as u64)
    &&& r.output == output_of_workspace(ws, c.workspace_id as u64)
    &&& r.focused == (focused matches Some(f) && f.address@ == c.address@)
    &&& r.focus_token@ == c.address@
}

fn workspace_info_of_hypr(
    w: &HyprWorkspace,
    active_ws: Option<i32>,
    active_monitor: &Option<HyprMonitor>,
) -> (r: WorkspaceInfo)
    ensures
        r.id == w.id as u64,
        r.name@ == w.name@,
        r.index == hypr_index(w.id),
        r.output matches Some(o) && o@ == w.monitor@,
        r.active == (active_ws == Some(w.id) || (*active_monitor matches Some(m)
            && m.active_workspace_id == w.id)),
        !r.urgent,
{
    let by_ws = match active_ws {
        Some(a) => a == w.id,
        None => false,
    };
    let by_mon = match active_monitor {
        Some(m) => m.active_workspace_id == w.id,
        None => false,
    };
    let abs: i64 = if w.id < 0 {
        -(w.id as i64)
    } else {
        w.id as i64
    };
    WorkspaceInfo {
        id: w.id as u64,
        name: w.name.clone(),
        index: abs as u8,
        output: Some(w.monitor.clone()),
        active: by_ws || by_mon,
        urgent: false,
    }
}

fn output_of_workspace_in(ws: &Vec<WorkspaceInfo>, id: u64) -> (r: Option<String>)
    ensures
        r == output_of_workspace(ws@, id),
{
    let mut i: usize = 0;
    assert(ws@.skip(0) =~= ws@);
    while i < ws.len()
        invariant
            i <= ws@.len(),
            output_of_workspace(ws@, id) == output_of_workspace(ws@.skip(i as int), id),
        decreases ws@.len() - i,
    {
        assert(ws@.skip(i as int)[0] == ws@[i as int]);
        assert(ws@.skip(i as int).drop_first() =~= ws@.skip(i + 1));
        if ws[i].id == id {
            return copy_opt_string(&ws[i].output);
        }
        i += 1;
    }
    assert(ws@.skip(i as int) =~= Seq::<WorkspaceInfo>::empty());
    None
}

/// The monitors reported, none when the request failed.
pub open spec fn monitor_list(monitors: Option<Vec<HyprMonitor>>) -> Seq<HyprMonitor> {
    match monitors {
        Some(v) => v@,
        None => Seq::empty(),
    }
}

/// The bar's snapshot of Hyprland's state: workspaces sorted by monitor then
/// index (active when Hyprland says so for the active workspace, the active
/// monitor or any monitor), monitors in geometry order, clients in the order
/// reported, the focused client (from the list, else as reported on its own
/// on the active monitor), and the active monitor as focused output.
pub fn hyprland_snapshot(
    active_ws: Option<i32>,
    active_monitor: Option<HyprMonitor>,
    workspaces: &Vec<HyprWorkspace>,
    monitors: Option<Vec<HyprMonitor>>,
    clients: &Vec<HyprClient>,
    focused: Option<HyprClient>,
) -> (r: CompositorState)
    ensures
        ({
            let mons = monitor_list(monitors);
            &&& exists|m: Seq<WorkspaceInfo>|
                m.len() == workspaces@.len() && (forall|i: int|
                    0 <= i < m.len() ==> workspace_from_hypr(
                        #[trigger] m[i],
                        workspaces@[i],
                        active_ws,
                        active_monitor,
                        mons,
                    )) && stable_sorted_by(r.workspaces@, m, workspace_key(), workspace_le())
            &&& exists|m: Seq<OutputInfo>|
                m.len() == mons.len() && (forall|i: int|
                    0 <= i < m.len() ==> output_from_hypr(#[trigger] m[i], mons[i]))
                    && stable_sorted_by(r.outputs@, m, geometry_key(), geometry_le())
        }),
        r.windows@.len() == clients@.len(),
        forall|i: int|
            0 <= i < clients@.len() ==> window_from_hypr(
                #[trigger] r.windows@[i],
                clients@[i],
                r.workspaces@,
                focused,
            ),
        match active_monitor {
            Some(m) => r.focused_output matches Some(o) && o@ == m.name@,
            None => r.focused_output is None,
        },
        match first_focused_window(r.windows@) {
            Some(w) => r.focused_window == Some(w),
            None => match focused {
                Some(c) => r.focused_window matches Some(w) && w.id == address_id(c.address@)
                    && w.title@ == c.title@ && (w.app_id matches Some(a) && a@ == c.class@)
                    && w.workspace_id == Some(c.workspace_id as u64) && w.output
                    == r.focused_output && w.focused && w.focus_token@ == c.address@,
                None => r.focused_window is None,
            },
        },
{
    let ghost mons = monitor_list(monitors);
    let focused_output = match &active_monitor {
        Some(m) => Some(m.name.clone()),
        None => None,
    };
    // Workspaces, before the monitors' active workspaces are marked.
    let mut ws: Vec<WorkspaceInfo> = Vec::new();
    let mut i: usize = 0;
    while i < workspaces.len()
        invariant
            i <= workspaces@.len(),
            ws@.len() == i,
            forall|k: int|
                0 <= k < i ==> {
                    let r = #[trigger] ws@[k];
                    let w = workspaces@[k];
                    &&& r.id == w.id as u64
                    &&& r.name@ == w.name@
                    &&& r.index == hypr_index(w.id)
                    &&& r.output matches Some(o) && o@ == w.monitor@
                    &&& r.active == (active_ws == Some(w.id) || (active_monitor matches Some(m)
                        && m.active_workspace_id == w.id))
                    &&& !r.urgent
                },
        decreases workspaces@.len() - i,
    {
        ws.push(workspace_info_of_hypr(&workspaces[i], active_ws, &active_monitor));
        i += 1;
    }
    // Mark the workspace each monitor shows.
    let mons_v: Vec<HyprMonitor> = match monitors {
        Some(v) => v,
        None => Vec::new(),
    };
    assert(mons_v@ == mons);
    let mut marked: Vec<WorkspaceInfo> = Vec::new();
    let mut i: usize = 0;
    while i < ws.len()
        invariant
            i <= ws@.len(),
            ws@.len() == workspaces@.len(),
            marked@.len() == i,
            mons_v@ == mons,
            forall|k: int|
                0 <= k < ws@.len() ==> {
                    let r = #[trigger] ws@[k];
                    let w = workspaces@[k];
                    &&& r.id == w.id as u64
                    &&& r.name@ == w.name@
                    &&& r.index == hypr_index(w.id)
                    &&& r.output matches Some(o) && o@ == w.monitor@
                    &&& r.active == (active_ws == Some(w.id) || (active_monitor matches Some(m)
                        && m.active_workspace_id == w.id))
                    &&& !r.urgent
                },
            forall|k: int|
                0 <= k < i ==> workspace_from_hypr(
                    #[trigger] marked@[k],
                    workspaces@[k],
                    active_ws,
                    active_monitor,
                    mons,
                ),
        decreases ws@.len() - i,
    {
        let w = &ws[i];
        let out = match &w.output {
            Some(o) => chars_of(o.as_str()),
            None => Vec::new(),
        };
        let mut shown = false;
        let mut k: usize = 0;
        while k < mons_v.len()
            invariant
                k <= mons_v@.len(),
                out@ == workspaces@[i as int].monitor@,
                w.id == workspaces@[i as int].id as u64,
                shown == exists|j: int|
                    0 <= j < k && (#[trigger] mons_v@[j]).name@ == out@ && w.id
                        == mons_v@[j].active_workspace_id as u64,
            decreases mons_v@.len() - k,
        {
            let mn = chars_of(mons_v[k].name.as_str());
            if chars_eq(&mn, &out) && w.id == mons_v[k].active_workspace_id as u64 {
                shown = true;
            }
            k += 1;
        }
        marked.push(WorkspaceInfo {
            id: w.id,
            name: w.name.clone(),
            index: w.index,
            output: copy_opt_string(&w.output),
            active: w.active || shown,
            urgent: w.urgent,
        });
        i += 1;
    }
    let ghost wsm = marked@;
    let sorted_ws = sort_workspaces(marked);
    // Monitors as outputs, in geometry order.
    let mut outs: Vec<OutputInfo> = Vec::new();
    let mut i: usize = 0;
    while i < mons_v.len()
        invariant
            i <= mons_v@.len(),
            outs@.len() == i,
            forall|k: int| 0 <= k < i ==> output_from_hypr(#[trigger] outs@[k], mons_v@[k]),
        decreases mons_v@.len() - i,
    {
        let m = &mons_v[i];
        outs.push(
            OutputInfo { name: m.name.clone(), x: m.x, y: m.y, width: m.width, height: m.height },
        );
        i += 1;
    }
    let ghost om = outs@;
    let sorted_outs = sort_outputs(outs);
    // Clients, in the order reported.
    let focused_addr: Option<Vec<char>> = match &focused {
        Some(c) => Some(chars_of(c.address.as_str())),
        None => None,
    };
    let mut wins: Vec<WindowInfo> = Vec::new();
    let mut i: usize = 0;
    while i < clients.len()
        invariant
            i <= clients@.len(),
            wins@.len() == i,
            match focused_addr {
                Some(a) => focused matches Some(f) && a@ == f.address@,
                None => focused is None,
            },
            forall|k: int|
                0 <= k < i ==> window_from_hypr(
                    #[trigger] wins@[k],
                    clients@[k],
                    sorted_ws@,
                    focused,
                ),
        decreases clients@.len() - i,
    {
        let c = &clients[i];
        let is_focused = match &focused_addr {
            Some(a) => {
                let ca = chars_of(c.address.as_str());
                chars_eq(a, &ca)
            },
            None => false,
        };
        wins.push(WindowInfo {
            id: address_to_id(c.address.as_str()),
            title: c.title.clone(),
            app_id: Some(c.class.clone()),
            workspace_id: Some(c.workspace_id as u64),
            output: output_of_workspace_in(&sorted_ws, c.workspace_id as u64),
            focused: is_focused,
            focus_token: c.address.clone(),
        });
        i += 1;
    }
    let focused_window = match first_focused_of(&wins) {
        Some(w) => Some(w),
        None => match &focused {
            Some(c) => Some(
                WindowInfo {
                    id: address_to_id(c.address.as_str()),
                    title: c.title.clone(),
                    app_id: Some(c.class.clone()),
                    workspace_id: Some(c.workspace_id as u64),
                    output: copy_opt_string(&focused_output),
                    focused: true,
                    focus_token: c.address.clone(),
                },
            ),
            None => None,
        },
    };
    let r = CompositorState {
        focused_output,
        outputs: sorted_outs,
        workspaces: sorted_ws,
        windows: wins,
        focused_window,
    };
    assert(wsm.len() == workspaces@.len() && (forall|i: int|
        0 <= i < wsm.len() ==> workspace_from_hypr(
            #[trigger] wsm[i],
            workspaces@[i],
            active_ws,
            active_monitor,
            mons,
        )) && stable_sorted_by(r.workspaces@, wsm, workspace_key(), workspace_le()));
    assert(om.len() == mons.len() && (forall|i: int|
        0 <= i < om.len() ==> output_from_hypr(#[trigger] om[i], mons[i])) && stable_sorted_by(
        r.outputs@,
        om,
        geometry_key(),
        geometry_le(),
    ));
    r
}

} // verus!

verus! {

/// How often niri's outputs are re-read at the least, so monitors switched
/// off or plugged in show up even during a long run of layout-only events.
pub const OUTPUT_REFRESH_MS: u64 = 2_000;

/// Whether niri's outputs are re-read after an event: when the workspaces'
/// outputs changed, when none are known yet, or when the last read is
/// `OUTPUT_REFRESH_MS` old.
pub fn needs_output_refresh(workspace_outputs_changed: bool, outputs_known: bool, since_ms: u64) -> (r:
    bool)
    ensures
        r == (workspace_outputs_changed || !outputs_known || since_ms >= OUTPUT_REFRESH_MS),
{
    workspace_outputs_changed || !outputs_known || since_ms >= OUTPUT_REFRESH_MS
}

} // verus!
