use vstd::prelude::*;
use vstd::string::*;
use crate::text::{append_str, concat2, is_blank, str_eq, trim};
use crate::system::{new_uuid_v4, now_millis};

verus! {

broadcast use vstd::string::group_string_axioms;

/// Where a widget sits on screen. The coordinates are `f64` values held as their IEEE-754
/// bit patterns (`f64::to_bits`); only `z_index` takes part in the logic.
#[derive(Clone, Copy, PartialEq, Eq, Structural)]
pub struct SurfaceWidgetBounds {
    pub x: u64,
    pub y: u64,
    pub width: u64,
    pub height: u64,
    pub z_index: i64,
}

/// Bits of `16.0`, `96.0`, `320.0` and `220.0`, the default placement.
pub open spec fn default_bounds_spec() -> SurfaceWidgetBounds {
    SurfaceWidgetBounds {
        x: 0x4030000000000000,
        y: 0x4058000000000000,
        width: 0x4074000000000000,
        height: 0x406b800000000000,
        z_index: 1,
    }
}

impl SurfaceWidgetBounds {
    /// The default placement: x 16, y 96, 320 by 220, z-index 1.
    pub fn default_bounds() -> (b: Self)
        ensures
            b == default_bounds_spec(),
    {
        SurfaceWidgetBounds {
            x: 0x4030000000000000,
            y: 0x4058000000000000,
            width: 0x4074000000000000,
            height: 0x406b800000000000,
            z_index: 1,
        }
    }
}

#[derive(Clone, Copy, PartialEq, Eq, Structural)]
pub enum SurfaceWidgetSource {
    DesktopPush,
    MobileTool,
    User,
}

pub struct SurfaceWidget {
    pub id: String,
    pub title: Option<String>,
    pub html: String,
    pub bounds: SurfaceWidgetBounds,
    pub favorite: bool,
    pub source: SurfaceWidgetSource,
    pub created_at: i64,
    pub updated_at: i64,
}

pub struct UpsertSurfaceWidgetRequest {
    pub id: Option<String>,
    pub title: Option<String>,
    pub html: String,
    pub bounds: Option<SurfaceWidgetBounds>,
    pub favorite: Option<bool>,
    pub source: Option<SurfaceWidgetSource>,
}

pub enum SurfaceCommand {
    Create { widget_id: String, options: Option<SurfaceWidgetBounds> },
    Append { widget_id: String, content: String },
    Finalize { widget_id: String },
    Replace { target_selector: Option<String>, content: String },
    Remove { widget_id: String },
    Clear,
}

/// The widgets of the surface, in insertion order.
pub struct SurfaceState {
    pub widgets: Vec<SurfaceWidget>,
}

/// A widget as values.
pub struct WidgetView {
    pub id: Seq<char>,
    pub title: Option<Seq<char>>,
    pub html: Seq<char>,
    pub bounds: SurfaceWidgetBounds,
    pub favorite: bool,
    pub source: SurfaceWidgetSource,
    pub created_at: i64,
    pub updated_at: i64,
}

pub open spec fn opt_str(o: Option<String>) -> Option<Seq<char>> {
    match o {
        Some(s) => Some(s@),
        None => None,
    }
}

pub open spec fn widget_view(w: SurfaceWidget) -> WidgetView {
    WidgetView {
        id: w.id@,
        title: opt_str(w.title),
        html: w.html@,
        bounds: w.bounds,
        favorite: w.favorite,
        source: w.source,
        created_at: w.created_at,
        updated_at: w.updated_at,
    }
}

pub open spec fn widgets_view(ws: Seq<SurfaceWidget>) -> Seq<WidgetView> {
    ws.map_values(|w: SurfaceWidget| widget_view(w))
}

/// Index of the first widget with `id`, or `ws.len()` when there is none.
pub open spec fn first_with_id(ws: Seq<WidgetView>, id: Seq<char>) -> nat
    decreases ws.len(),
{
    if ws.len() == 0 {
        0
    } else if ws[0].id == id {
        0
    } else {
        1 + first_with_id(ws.drop_first(), id)
    }
}

pub proof fn lemma_first_with_id(ws: Seq<WidgetView>, id: Seq<char>)
    ensures
        first_with_id(ws, id) <= ws.len(),
        forall|k: int| 0 <= k < first_with_id(ws, id) ==> (#[trigger] ws[k]).id != id,
        first_with_id(ws, id) < ws.len() ==> ws[first_with_id(ws, id) as int].id == id,
    decreases ws.len(),
{
    if ws.len() > 0 && ws[0].id != id {
        lemma_first_with_id(ws.drop_first(), id);
        assert forall|k: int| 0 <= k < first_with_id(ws, id) implies (#[trigger] ws[k]).id != id by {
            if k > 0 {
                assert(ws[k] == ws.drop_first()[k - 1]);
            }
        }
    }
}

pub proof fn lemma_first_with_id_unique(ws: Seq<WidgetView>, id: Seq<char>, i: int)
    requires
        0 <= i <= ws.len(),
        forall|k: int| 0 <= k < i ==> (#[trigger] ws[k]).id != id,
        i < ws.len() ==> ws[i].id == id,
    ensures
        first_with_id(ws, id) == i,
    decreases ws.len(),
{
    if i > 0 {
        assert forall|k: int| 0 <= k < i - 1 implies (#[trigger] ws.drop_first()[k]).id != id by {
            assert(ws.drop_first()[k] == ws[k + 1]);
        }
        lemma_first_with_id_unique(ws.drop_first(), id, i - 1);
    }
}

/// Whether some widget has `id`.
pub open spec fn has_id(ws: Seq<WidgetView>, id: Seq<char>) -> bool {
    exists|k: int| 0 <= k < ws.len() && (#[trigger] ws[k]).id == id
}

/// No two widgets share an id.
pub open spec fn ids_unique(ws: Seq<WidgetView>) -> bool {
    forall|i: int, j: int| 0 <= i < j < ws.len() ==> (#[trigger] ws[i]).id != (#[trigger] ws[j]).id
}

/// Finds the first widget with `id`.
pub fn find_widget(state: &SurfaceState, id: &str) -> (r: usize)
    ensures
        r == first_with_id(widgets_view(state.widgets@), id@),
{
    let ghost ws = widgets_view(state.widgets@);
    let mut i: usize = 0;
    while i < state.widgets.len()
        invariant
            i <= state.widgets.len(),
            ws == widgets_view(state.widgets@),
            forall|k: int| 0 <= k < i ==> (#[trigger] ws[k]).id != id@,
        decreases state.widgets.len() - i,
    {
        assert(ws[i as int].id == state.widgets@[i as int].id@);
        if str_eq(state.widgets[i].id.as_str(), id) {
            proof {
                lemma_first_with_id_unique(ws, id@, i as int);
            }
            return i;
        }
        i = i + 1;
    }
    proof {
        lemma_first_with_id_unique(ws, id@, i as int);
    }
    i
}

} // verus!

verus! {

pub open spec fn default_widget_source() -> SurfaceWidgetSource {
    SurfaceWidgetSource::DesktopPush
}

/// The id an upsert request names: its own when it is not blank, else the fresh one.
pub open spec fn upsert_id(req: UpsertSurfaceWidgetRequest, fresh: Seq<char>) -> Seq<char> {
    match req.id {
        Some(s) => if trim(s@).len() > 0 {
            s@
        } else {
            fresh
        },
        None => fresh,
    }
}

/// The widgets after an upsert, and the widget written.
pub open spec fn upsert_spec(
    ws: Seq<WidgetView>,
    req: UpsertSurfaceWidgetRequest,
    now: i64,
    fresh: Seq<char>,
) -> (Seq<WidgetView>, WidgetView) {
    let id = upsert_id(req, fresh);
    let p = first_with_id(ws, id);
    if p < ws.len() {
        let w = ws[p as int];
        let nw = WidgetView {
            title: opt_str(req.title),
            html: req.html@,
            bounds: match req.bounds {
                Some(b) => b,
                None => w.bounds,
            },
            favorite: match req.favorite {
                Some(f) => f,
                None => w.favorite,
            },
            source: match req.source {
                Some(s) => s,
                None => w.source,
            },
            updated_at: now,
            ..w
        };
        (ws.update(p as int, nw), nw)
    } else {
        let nw = WidgetView {
            id,
            title: opt_str(req.title),
            html: req.html@,
            bounds: match req.bounds {
                Some(b) => b,
                None => default_bounds_spec(),
            },
            favorite: match req.favorite {
                Some(f) => f,
                None => false,
            },
            source: match req.source {
                Some(s) => s,
                None => default_widget_source(),
            },
            created_at: now,
            updated_at: now,
        };
        (ws.push(nw), nw)
    }
}

pub fn clone_opt_string(o: &Option<String>) -> (r: Option<String>)
    ensures
        opt_str(r) == opt_str(*o),
{
    match o {
        Some(s) => Some(s.clone()),
        None => None,
    }
}

pub fn clone_widget(w: &SurfaceWidget) -> (r: SurfaceWidget)
    ensures
        widget_view(r) == widget_view(*w),
{
    SurfaceWidget {
        id: w.id.clone(),
        title: clone_opt_string(&w.title),
        html: w.html.clone(),
        bounds: w.bounds,
        favorite: w.favorite,
        source: w.source,
        created_at: w.created_at,
        updated_at: w.updated_at,
    }
}

/// Replaces the widget at `i`.
fn replace_widget(state: &mut SurfaceState, i: usize, w: SurfaceWidget)
    requires
        i < old(state).widgets.len(),
    ensures
        widgets_view(final(state).widgets@) == widgets_view(old(state).widgets@).update(
            i as int,
            widget_view(w),
        ),
{
    let ghost ws = widgets_view(state.widgets@);
    let _old = state.widgets.remove(i);
    state.widgets.insert(i, w);
    proof {
        assert(widgets_view(state.widgets@) =~= ws.update(i as int, widget_view(w)));
    }
}

/// Appends a widget.
fn push_widget(state: &mut SurfaceState, w: SurfaceWidget)
    ensures
        widgets_view(final(state).widgets@) == widgets_view(old(state).widgets@).push(widget_view(w)),
{
    let ghost ws = widgets_view(state.widgets@);
    state.widgets.push(w);
    proof {
        assert(widgets_view(state.widgets@) =~= ws.push(widget_view(w)));
    }
}

/// Inserts or updates a widget at time `now`; `fresh_id` names it when the request
/// names none.
pub fn upsert_widget_at(
    state: &mut SurfaceState,
    request: UpsertSurfaceWidgetRequest,
    now: i64,
    fresh_id: String,
) -> (r: SurfaceWidget)
    ensures
        (widgets_view(final(state).widgets@), widget_view(r)) == upsert_spec(
            widgets_view(old(state).widgets@),
            request,
            now,
            fresh_id@,
        ),
{
    let ghost req = request;
    let ghost ws = widgets_view(state.widgets@);
    let UpsertSurfaceWidgetRequest { id, title, html, bounds, favorite, source } = request;
    let id = match id {
        Some(s) => if !is_blank(s.as_str()) {
            s
        } else {
            fresh_id
        },
        None => fresh_id,
    };
    assert(id@ == upsert_id(req, fresh_id@));
    let p = find_widget(state, id.as_str());
    proof {
        lemma_first_with_id(ws, id@);
    }
    if p < state.widgets.len() {
        let old_w = &state.widgets[p];
        assert(widget_view(*old_w) == ws[p as int]);
        let w = SurfaceWidget {
            id: old_w.id.clone(),
            title,
            html,
            bounds: match bounds {
                Some(b) => b,
                None => old_w.bounds,
            },
            favorite: match favorite {
                Some(f) => f,
                None => old_w.favorite,
            },
            source: match source {
                Some(s) => s,
                None => old_w.source,
            },
            created_at: old_w.created_at,
            updated_at: now,
        };
        let out = clone_widget(&w);
        replace_widget(state, p, w);
        out
    } else {
        let w = SurfaceWidget {
            id,
            title,
            html,
            bounds: match bounds {
                Some(b) => b,
                None => SurfaceWidgetBounds::default_bounds(),
            },
            favorite: match favorite {
                Some(f) => f,
                None => false,
            },
            source: match source {
                Some(s) => s,
                None => SurfaceWidgetSource::DesktopPush,
            },
            created_at: now,
            updated_at: now,
        };
        let out = clone_widget(&w);
        push_widget(state, w);
        out
    }
}

} // verus!

verus! {

/// The widgets without those that have `id`, in order.
pub open spec fn without_id(ws: Seq<WidgetView>, id: Seq<char>) -> Seq<WidgetView>
    decreases ws.len(),
{
    if ws.len() == 0 {
        Seq::empty()
    } else if ws.last().id == id {
        without_id(ws.drop_last(), id)
    } else {
        without_id(ws.drop_last(), id).push(ws.last())
    }
}

/// Index of the last widget with the greatest `updated_at`, among the first `n >= 1`.
pub open spec fn last_max_updated(ws: Seq<WidgetView>, n: nat) -> nat
    decreases n,
{
    if n <= 1 {
        0
    } else {
        let m = last_max_updated(ws, (n - 1) as nat);
        if ws[n - 1].updated_at >= ws[m as int].updated_at {
            (n - 1) as nat
        } else {
            m
        }
    }
}

/// Index of the first widget whose z-index exceeds `z`, or `s.len()`.
pub open spec fn first_above(s: Seq<WidgetView>, z: i64) -> nat
    decreases s.len(),
{
    if s.len() == 0 {
        0
    } else if s[0].bounds.z_index > z {
        0
    } else {
        1 + first_above(s.drop_first(), z)
    }
}

/// The widgets in stable order of z-index (as `sort_by_key` on `z_index` orders them).
pub open spec fn sort_by_z(ws: Seq<WidgetView>) -> Seq<WidgetView>
    decreases ws.len(),
{
    if ws.len() == 0 {
        Seq::empty()
    } else {
        let s = sort_by_z(ws.drop_last());
        s.insert(first_above(s, ws.last().bounds.z_index) as int, ws.last())
    }
}

/// Non-decreasing in z-index.
pub open spec fn z_sorted(s: Seq<WidgetView>) -> bool {
    forall|i: int, j: int|
        0 <= i <= j < s.len() ==> (#[trigger] s[i]).bounds.z_index <= (#[trigger] s[j]).bounds.z_index
}

pub proof fn lemma_first_above(s: Seq<WidgetView>, z: i64)
    ensures
        first_above(s, z) <= s.len(),
        forall|k: int| 0 <= k < first_above(s, z) ==> (#[trigger] s[k]).bounds.z_index <= z,
        first_above(s, z) < s.len() ==> s[first_above(s, z) as int].bounds.z_index > z,
    decreases s.len(),
{
    if s.len() > 0 && s[0].bounds.z_index <= z {
        lemma_first_above(s.drop_first(), z);
        assert forall|k: int| 0 <= k < first_above(s, z) implies (#[trigger] s[k]).bounds.z_index <= z by {
            if k > 0 {
                assert(s[k] == s.drop_first()[k - 1]);
            }
        }
    }
}

pub proof fn lemma_first_above_unique(s: Seq<WidgetView>, z: i64, i: int)
    requires
        0 <= i <= s.len(),
        forall|k: int| 0 <= k < i ==> (#[trigger] s[k]).bounds.z_index <= z,
        i < s.len() ==> s[i].bounds.z_index > z,
    ensures
        first_above(s, z) == i,
    decreases s.len(),
{
    if i > 0 {
        assert forall|k: int| 0 <= k < i - 1 implies (#[trigger] s.drop_first()[k]).bounds.z_index <= z by {
            assert(s.drop_first()[k] == s[k + 1]);
        }
        lemma_first_above_unique(s.drop_first(), z, i - 1);
    }
}

/// The sorted widget list is ordered by z-index and keeps every widget.
pub proof fn lemma_sort_by_z(ws: Seq<WidgetView>)
    ensures
        z_sorted(sort_by_z(ws)),
        sort_by_z(ws).len() == ws.len(),
        sort_by_z(ws).to_multiset() == ws.to_multiset(),
    decreases ws.len(),
{
    if ws.len() > 0 {
        let s = sort_by_z(ws.drop_last());
        lemma_sort_by_z(ws.drop_last());
        let x = ws.last();
        let p = first_above(s, x.bounds.z_index);
        lemma_first_above(s, x.bounds.z_index);
        let r = s.insert(p as int, x);
        assert forall|i: int, j: int| 0 <= i <= j < r.len() implies (#[trigger] r[i]).bounds.z_index
            <= (#[trigger] r[j]).bounds.z_index by {
            if j < p {
                assert(r[i] == s[i] && r[j] == s[j]);
            } else if j == p {
                if i < p {
                    assert(r[i] == s[i]);
                }
            } else if i < p {
                assert(r[i] == s[i] && r[j] == s[j - 1]);
                assert(s[i].bounds.z_index <= s[j - 1].bounds.z_index);
            } else if i == p {
                assert(r[j] == s[j - 1]);
                assert(s[p as int].bounds.z_index > x.bounds.z_index);
                assert(s[p as int].bounds.z_index <= s[j - 1].bounds.z_index);
            } else {
                assert(r[i] == s[i - 1] && r[j] == s[j - 1]);
            }
        }
        vstd::seq_lib::to_multiset_insert(s, p as int, x);
        vstd::seq_lib::to_multiset_build(ws.drop_last(), x);
        assert(ws.drop_last().push(x) =~= ws);
    } else {
        assert(ws =~= Seq::<WidgetView>::empty());
        assert(sort_by_z(ws) =~= Seq::<WidgetView>::empty());
    }
}

} // verus!

verus! {

/// Copies of the widgets in stable z-index order.
pub fn sorted_by_z(ws: &Vec<SurfaceWidget>) -> (r: Vec<SurfaceWidget>)
    ensures
        widgets_view(r@) == sort_by_z(widgets_view(ws@)),
{
    let ghost wv = widgets_view(ws@);
    let mut out: Vec<SurfaceWidget> = Vec::new();
    let mut i: usize = 0;
    proof {
        assert(wv.take(0) =~= Seq::<WidgetView>::empty());
        assert(widgets_view(out@) =~= Seq::<WidgetView>::empty());
    }
    while i < ws.len()
        invariant
            i <= ws.len(),
            wv == widgets_view(ws@),
            widgets_view(out@) == sort_by_z(wv.take(i as int)),
        decreases ws.len() - i,
    {
        let w = clone_widget(&ws[i]);
        let z = w.bounds.z_index;
        let ghost s = widgets_view(out@);
        let mut p: usize = 0;
        while p < out.len() && out[p].bounds.z_index <= z
            invariant
                p <= out.len(),
                s == widgets_view(out@),
                forall|k: int| 0 <= k < p ==> (#[trigger] s[k]).bounds.z_index <= z,
            decreases out.len() - p,
        {
            p = p + 1;
        }
        proof {
            if p < out.len() {
                assert(s[p as int].bounds.z_index > z);
            }
            lemma_first_above_unique(s, z, p as int);
            assert(wv.take((i + 1) as int).drop_last() =~= wv.take(i as int));
            assert(wv.take((i + 1) as int).last() == widget_view(w));
        }
        out.insert(p, w);
        proof {
            assert(widgets_view(out@) =~= s.insert(p as int, widget_view(w)));
        }
        i = i + 1;
    }
    assert(wv.take(ws.len() as int) =~= wv);
    out
}

/// The widgets, in stable z-index order.
pub fn list_surface_widgets(state: &SurfaceState) -> (r: Vec<SurfaceWidget>)
    ensures
        widgets_view(r@) == sort_by_z(widgets_view(state.widgets@)),
{
    sorted_by_z(&state.widgets)
}

/// Removes every widget with `id`.
fn retain_other_ids(state: &mut SurfaceState, id: &str)
    ensures
        widgets_view(final(state).widgets@) == without_id(widgets_view(old(state).widgets@), id@),
{
    let ghost wv = widgets_view(state.widgets@);
    let mut old_ws: Vec<SurfaceWidget> = Vec::new();
    std::mem::swap(&mut old_ws, &mut state.widgets);
    assert(widgets_view(state.widgets@) =~= Seq::<WidgetView>::empty());
    assert(wv.take(0) =~= Seq::<WidgetView>::empty());
    let mut i: usize = 0;
    while i < old_ws.len()
        invariant
            i <= old_ws.len(),
            wv == widgets_view(old_ws@),
            widgets_view(state.widgets@) == without_id(wv.take(i as int), id@),
        decreases old_ws.len() - i,
    {
        proof {
            assert(wv.take((i + 1) as int).drop_last() =~= wv.take(i as int));
            assert(wv.take((i + 1) as int).last() == widget_view(old_ws@[i as int]));
        }
        if !str_eq(old_ws[i].id.as_str(), id) {
            let w = clone_widget(&old_ws[i]);
            push_widget(state, w);
        }
        i = i + 1;
    }
    assert(wv.take(old_ws.len() as int) =~= wv);
}

/// Removes the widgets with `id`; tells whether there was one.
pub fn remove_surface_widget(state: &mut SurfaceState, widget_id: &str) -> (removed: bool)
    ensures
        widgets_view(final(state).widgets@) == without_id(widgets_view(old(state).widgets@), widget_id@),
        removed == has_id(widgets_view(old(state).widgets@), widget_id@),
{
    let ghost wv = widgets_view(state.widgets@);
    let before = state.widgets.len();
    retain_other_ids(state, widget_id);
    proof {
        lemma_without_id_len(wv, widget_id@);
    }
    before != state.widgets.len()
}

/// Removes every widget.
pub fn clear_surface_widgets(state: &mut SurfaceState)
    ensures
        final(state).widgets@.len() == 0,
{
    state.widgets.clear();
}

/// `without_id` drops exactly the widgets with the id, so its length shrinks iff there is one.
pub proof fn lemma_without_id_len(ws: Seq<WidgetView>, id: Seq<char>)
    ensures
        without_id(ws, id).len() <= ws.len(),
        without_id(ws, id).len() < ws.len() <==> has_id(ws, id),
        !has_id(without_id(ws, id), id),
        forall|w: WidgetView| #[trigger] without_id(ws, id).contains(w) <==> (ws.contains(w) && w.id != id),
    decreases ws.len(),
{
    if ws.len() > 0 {
        let d = ws.drop_last();
        lemma_without_id_len(d, id);
        let r = without_id(ws, id);
        if ws.last().id == id {
            assert(ws[ws.len() - 1].id == id);
        } else {
            assert(r == without_id(d, id).push(ws.last()));
            if has_id(ws, id) {
                let k = choose|k: int| 0 <= k < ws.len() && (#[trigger] ws[k]).id == id;
                assert(d[k].id == id);
            }
            assert(!has_id(r, id)) by {
                if has_id(r, id) {
                    let k = choose|k: int| 0 <= k < r.len() && (#[trigger] r[k]).id == id;
                    if k < r.len() - 1 {
                        assert(without_id(d, id)[k] == r[k]);
                    }
                }
            }
        }
        assert forall|w: WidgetView| #[trigger] r.contains(w) <==> (ws.contains(w) && w.id != id) by {
            let wd = without_id(d, id);
            assert(wd.contains(w) <==> (d.contains(w) && w.id != id));
            if d.contains(w) {
                let j = choose|j: int| 0 <= j < d.len() && d[j] == w;
                assert(ws[j] == w);
            }
            if ws.contains(w) {
                let j = choose|j: int| 0 <= j < ws.len() && ws[j] == w;
                if j < ws.len() - 1 {
                    assert(d[j] == w);
                }
            }
            if ws.last().id != id {
                assert(r == wd.push(ws.last()));
                if r.contains(w) {
                    let k = choose|k: int| 0 <= k < r.len() && r[k] == w;
                    if k < r.len() - 1 {
                        assert(wd[k] == w);
                    }
                }
                if wd.contains(w) {
                    let k = choose|k: int| 0 <= k < wd.len() && wd[k] == w;
                    assert(r[k] == w);
                }
                if w == ws.last() {
                    assert(r[r.len() - 1] == w);
                }
            }
        }
        if has_id(ws, id) && ws.last().id != id {
            let k = choose|k: int| 0 <= k < ws.len() && (#[trigger] ws[k]).id == id;
            assert(d[k].id == id);
        }
        if has_id(d, id) {
            let k = choose|k: int| 0 <= k < d.len() && (#[trigger] d[k]).id == id;
            assert(ws[k].id == id);
        }
    } else {
        assert(without_id(ws, id) =~= Seq::<WidgetView>::empty());
    }
}

} // verus!

verus! {

/// A widget that a desktop command creates.
pub open spec fn pushed_widget(id: Seq<char>, html: Seq<char>, bounds: SurfaceWidgetBounds, now: i64) -> WidgetView {
    WidgetView {
        id,
        title: None,
        html,
        bounds,
        favorite: false,
        source: SurfaceWidgetSource::DesktopPush,
        created_at: now,
        updated_at: now,
    }
}

/// The widgets after a surface command at time `now`.
pub open spec fn apply_spec(ws: Seq<WidgetView>, cmd: SurfaceCommand, now: i64) -> Seq<WidgetView> {
    match cmd {
        SurfaceCommand::Create { widget_id, options } => if first_with_id(ws, widget_id@) < ws.len() {
            ws
        } else {
            ws.push(
                pushed_widget(
                    widget_id@,
                    Seq::empty(),
                    match options {
                        Some(b) => b,
                        None => default_bounds_spec(),
                    },
                    now,
                ),
            )
        },
        SurfaceCommand::Append { widget_id, content } => {
            let p = first_with_id(ws, widget_id@);
            if p < ws.len() {
                ws.update(
                    p as int,
                    WidgetView { html: ws[p as int].html + content@, updated_at: now, ..ws[p as int] },
                )
            } else {
                ws.push(pushed_widget(widget_id@, content@, default_bounds_spec(), now))
            }
        },
        SurfaceCommand::Finalize { widget_id } => {
            let p = first_with_id(ws, widget_id@);
            if p < ws.len() {
                ws.update(p as int, WidgetView { updated_at: now, ..ws[p as int] })
            } else {
                ws
            }
        },
        SurfaceCommand::Replace { target_selector, content } => if ws.len() > 0 {
            let m = last_max_updated(ws, ws.len());
            ws.update(m as int, WidgetView { html: content@, updated_at: now, ..ws[m as int] })
        } else {
            ws
        },
        SurfaceCommand::Remove { widget_id } => without_id(ws, widget_id@),
        SurfaceCommand::Clear => Seq::empty(),
    }
}

pub proof fn lemma_last_max_updated(ws: Seq<WidgetView>, n: nat)
    requires
        1 <= n <= ws.len(),
    ensures
        last_max_updated(ws, n) < n,
        forall|k: int| 0 <= k < n ==> (#[trigger] ws[k]).updated_at <= ws[last_max_updated(ws, n) as int].updated_at,
    decreases n,
{
    if n > 1 {
        lemma_last_max_updated(ws, (n - 1) as nat);
    }
}

/// Index of the widget `Iterator::max_by_key` picks by `updated_at`.
fn last_max_index(state: &SurfaceState) -> (m: usize)
    requires
        state.widgets.len() > 0,
    ensures
        m == last_max_updated(widgets_view(state.widgets@), state.widgets@.len()),
{
    let ghost wv = widgets_view(state.widgets@);
    let mut m: usize = 0;
    let mut i: usize = 1;
    while i < state.widgets.len()
        invariant
            1 <= i <= state.widgets.len(),
            wv == widgets_view(state.widgets@),
            m == last_max_updated(wv, i as nat),
        decreases state.widgets.len() - i,
    {
        proof {
            lemma_last_max_updated(wv, i as nat);
        }
        assert(wv[i as int].updated_at == state.widgets@[i as int].updated_at);
        assert(wv[m as int].updated_at == state.widgets@[m as int].updated_at);
        if state.widgets[i].updated_at >= state.widgets[m].updated_at {
            m = i;
        }
        i = i + 1;
    }
    m
}

/// Applies a desktop surface command at time `now`; returns the widgets in z-index order.
pub fn apply_command_at(state: &mut SurfaceState, command: SurfaceCommand, now: i64) -> (r: Vec<SurfaceWidget>)
    ensures
        widgets_view(final(state).widgets@) == apply_spec(widgets_view(old(state).widgets@), command, now),
        widgets_view(r@) == sort_by_z(widgets_view(final(state).widgets@)),
{
    let ghost cmd = command;
    let ghost ws = widgets_view(state.widgets@);
    match command {
        SurfaceCommand::Create { widget_id, options } => {
            let p = find_widget(state, widget_id.as_str());
            if p >= state.widgets.len() {
                let w = SurfaceWidget {
                    id: widget_id,
                    title: None,
                    html: String::new(),
                    bounds: match options {
                        Some(b) => b,
                        None => SurfaceWidgetBounds::default_bounds(),
                    },
                    favorite: false,
                    source: SurfaceWidgetSource::DesktopPush,
                    created_at: now,
                    updated_at: now,
                };
                push_widget(state, w);
            }
        },
        SurfaceCommand::Append { widget_id, content } => {
            let p = find_widget(state, widget_id.as_str());
            proof {
                lemma_first_with_id(ws, widget_id@);
            }
            if p < state.widgets.len() {
                let mut w = clone_widget(&state.widgets[p]);
                assert(widget_view(w) == ws[p as int]);
                append_str(&mut w.html, content.as_str());
                w.updated_at = now;
                replace_widget(state, p, w);
            } else {
                let w = SurfaceWidget {
                    id: widget_id,
                    title: None,
                    html: content,
                    bounds: SurfaceWidgetBounds::default_bounds(),
                    favorite: false,
                    source: SurfaceWidgetSource::DesktopPush,
                    created_at: now,
                    updated_at: now,
                };
                push_widget(state, w);
            }
        },
        SurfaceCommand::Finalize { widget_id } => {
            let p = find_widget(state, widget_id.as_str());
            proof {
                lemma_first_with_id(ws, widget_id@);
            }
            if p < state.widgets.len() {
                let mut w = clone_widget(&state.widgets[p]);
                assert(widget_view(w) == ws[p as int]);
                w.updated_at = now;
                replace_widget(state, p, w);
            }
        },
        SurfaceCommand::Replace { target_selector: _, content } => {
            if state.widgets.len() > 0 {
                let m = last_max_index(state);
                proof {
                    lemma_last_max_updated(ws, ws.len());
                }
                let mut w = clone_widget(&state.widgets[m]);
                assert(widget_view(w) == ws[m as int]);
                w.html = content;
                w.updated_at = now;
                replace_widget(state, m, w);
            }
        },
        SurfaceCommand::Remove { widget_id } => {
            retain_other_ids(state, widget_id.as_str());
        },
        SurfaceCommand::Clear => {
            state.widgets.clear();
            assert(widgets_view(state.widgets@) =~= Seq::<WidgetView>::empty());
        },
    }
    sorted_by_z(&state.widgets)
}

/// Applies a desktop surface command now; returns the widgets in z-index order.
pub fn apply_surface_command(state: &mut SurfaceState, command: SurfaceCommand) -> (r: Vec<SurfaceWidget>)
    ensures
        exists|now: i64|
            widgets_view(final(state).widgets@) == apply_spec(widgets_view(old(state).widgets@), command, now),
        widgets_view(r@) == sort_by_z(widgets_view(final(state).widgets@)),
{
    let now = now_millis();
    apply_command_at(state, command, now)
}

/// Whether an upsert request names its widget itself.
pub open spec fn has_usable_id(req: UpsertSurfaceWidgetRequest) -> bool {
    req.id is Some && trim(req.id->0@).len() > 0
}

/// The fresh ids that `upsert_surface_widget` gives unnamed widgets.
pub open spec fn is_fresh_surface_id(id: Seq<char>) -> bool {
    id.len() == 44 && id.subrange(0, 8) == "surface-"@
}

/// Inserts or updates a widget now; a widget without a usable id gets `surface-<uuid>`.
pub fn upsert_surface_widget(state: &mut SurfaceState, request: UpsertSurfaceWidgetRequest) -> (r: SurfaceWidget)
    ensures
        exists|now: i64, fresh: Seq<char>|
            (has_usable_id(request) || is_fresh_surface_id(fresh)) && (widgets_view(final(state).widgets@), widget_view(r))
                == upsert_spec(widgets_view(old(state).widgets@), request, now, fresh),
{
    let now = now_millis();
    let needs_fresh = match &request.id {
        Some(s) => is_blank(s.as_str()),
        None => true,
    };
    let fresh = if needs_fresh {
        let u = new_uuid_v4();
        let f = concat2("surface-", u.as_str());
        proof {
            reveal_strlit("surface-");
            assert(f@.subrange(0, 8) =~= "surface-"@);
        }
        f
    } else {
        String::new()
    };
    upsert_widget_at(state, request, now, fresh)
}

} // verus!

verus! {

/// After an upsert, looking up the widget's id finds exactly the widget the upsert returned.
pub proof fn lemma_upsert_then_find(ws: Seq<WidgetView>, req: UpsertSurfaceWidgetRequest, now: i64, fresh: Seq<char>)
    ensures
        ({
            let (nws, w) = upsert_spec(ws, req, now, fresh);
            let p = first_with_id(nws, w.id);
            &&& w.id == upsert_id(req, fresh)
            &&& p < nws.len()
            &&& nws[p as int] == w
            &&& w.html == req.html@
            &&& w.updated_at == now
        }),
{
    let id = upsert_id(req, fresh);
    lemma_first_with_id(ws, id);
    let (nws, w) = upsert_spec(ws, req, now, fresh);
    let p = first_with_id(ws, id);
    if p < ws.len() {
        assert forall|k: int| 0 <= k < p implies (#[trigger] nws[k]).id != id by {
            assert(nws[k] == ws[k]);
        }
        lemma_first_with_id_unique(nws, id, p as int);
    } else {
        assert forall|k: int| 0 <= k < ws.len() implies (#[trigger] nws[k]).id != id by {
            assert(nws[k] == ws[k]);
        }
        lemma_first_with_id_unique(nws, id, ws.len() as int);
    }
}

/// An upsert never gives two widgets the same id.
pub proof fn lemma_upsert_keeps_ids_unique(ws: Seq<WidgetView>, req: UpsertSurfaceWidgetRequest, now: i64, fresh: Seq<char>)
    requires
        ids_unique(ws),
    ensures
        ids_unique(upsert_spec(ws, req, now, fresh).0),
{
    let id = upsert_id(req, fresh);
    lemma_first_with_id(ws, id);
    let nws = upsert_spec(ws, req, now, fresh).0;
    let p = first_with_id(ws, id);
    assert forall|i: int, j: int| 0 <= i < j < nws.len() implies (#[trigger] nws[i]).id != (#[trigger] nws[j]).id by {
        if p < ws.len() {
            assert(nws[i].id == ws[i].id && nws[j].id == ws[j].id);
        } else if j < ws.len() {
            assert(nws[i] == ws[i] && nws[j] == ws[j]);
        } else {
            assert(nws[i] == ws[i]);
        }
    }
}

/// No surface command gives two widgets the same id.
pub proof fn lemma_apply_keeps_ids_unique(ws: Seq<WidgetView>, cmd: SurfaceCommand, now: i64)
    requires
        ids_unique(ws),
    ensures
        ids_unique(apply_spec(ws, cmd, now)),
{
    let nws = apply_spec(ws, cmd, now);
    match cmd {
        SurfaceCommand::Create { widget_id, options } => {
            lemma_first_with_id(ws, widget_id@);
            assert forall|i: int, j: int| 0 <= i < j < nws.len() implies (#[trigger] nws[i]).id != (#[trigger] nws[j]).id by {
                assert(nws[i] == ws[i]);
                if j < ws.len() {
                    assert(nws[j] == ws[j]);
                }
            }
        },
        SurfaceCommand::Append { widget_id, content } => {
            lemma_first_with_id(ws, widget_id@);
            assert forall|i: int, j: int| 0 <= i < j < nws.len() implies (#[trigger] nws[i]).id != (#[trigger] nws[j]).id by {
                if first_with_id(ws, widget_id@) < ws.len() {
                    assert(nws[i].id == ws[i].id && nws[j].id == ws[j].id);
                } else {
                    assert(nws[i] == ws[i]);
                    if j < ws.len() {
                        assert(nws[j] == ws[j]);
                    }
                }
            }
        },
        SurfaceCommand::Finalize { widget_id } => {
            assert forall|i: int, j: int| 0 <= i < j < nws.len() implies (#[trigger] nws[i]).id != (#[trigger] nws[j]).id by {
                assert(nws[i].id == ws[i].id && nws[j].id == ws[j].id);
            }
        },
        SurfaceCommand::Replace { target_selector, content } => {
            if ws.len() > 0 {
                lemma_last_max_updated(ws, ws.len());
            }
            assert forall|i: int, j: int| 0 <= i < j < nws.len() implies (#[trigger] nws[i]).id != (#[trigger] nws[j]).id by {
                assert(nws[i].id == ws[i].id && nws[j].id == ws[j].id);
            }
        },
        SurfaceCommand::Remove { widget_id } => {
            lemma_without_id_keeps_unique(ws, widget_id@);
        },
        SurfaceCommand::Clear => {},
    }
}

proof fn lemma_without_id_keeps_unique(ws: Seq<WidgetView>, id: Seq<char>)
    requires
        ids_unique(ws),
    ensures
        ids_unique(without_id(ws, id)),
    decreases ws.len(),
{
    if ws.len() > 0 {
        let d = ws.drop_last();
        assert(ids_unique(d)) by {
            assert forall|i: int, j: int| 0 <= i < j < d.len() implies (#[trigger] d[i]).id != (#[trigger] d[j]).id by {
                assert(d[i] == ws[i] && d[j] == ws[j]);
            }
        }
        lemma_without_id_keeps_unique(d, id);
        lemma_without_id_len(d, id);
        if ws.last().id != id {
            let wd = without_id(d, id);
            let r = without_id(ws, id);
            assert forall|i: int, j: int| 0 <= i < j < r.len() implies (#[trigger] r[i]).id != (#[trigger] r[j]).id by {
                if j == r.len() - 1 {
                    assert(r[i] == wd[i]);
                    assert(wd.contains(wd[i]));
                    assert(d.contains(wd[i]));
                    let k = choose|k: int| 0 <= k < d.len() && d[k] == wd[i];
                    assert(ws[k] == d[k]);
                    assert(ws[k].id != ws[ws.len() - 1].id);
                } else {
                    assert(r[i] == wd[i] && r[j] == wd[j]);
                }
            }
        }
    }
}

} // verus!
