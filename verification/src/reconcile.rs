use vstd::prelude::*;
use crate::HIDDEN_WORKSPACE;
use crate::toggle::WindowView;

verus! {

/// Whether a reconciliation tick must relocate this window: it floats,
/// its spawn-origin title is a tracked scratchpad title, and it is not
/// already on the hidden workspace.
pub open spec fn spec_must_hide(w: WindowView, titles: Seq<Seq<u8>>) -> bool {
    w.floating && w.workspace != HIDDEN_WORKSPACE && crate::spec_has(titles, w.initial_title@)
}

/// The process identifiers of the windows from index `i` on that a
/// reconciliation tick relocates to the hidden workspace, in order.
pub open spec fn spec_hide_pids(ws: Seq<WindowView>, titles: Seq<Seq<u8>>, i: int) -> Seq<u32>
    decreases ws.len() - i,
{
    if i < 0 || i >= ws.len() {
        Seq::empty()
    } else if spec_must_hide(ws[i], titles) {
        seq![ws[i].pid] + spec_hide_pids(ws, titles, i + 1)
    } else {
        spec_hide_pids(ws, titles, i + 1)
    }
}

/// What the workspace-change handler relocates: every floating window
/// bearing a tracked title that sits outside the hidden workspace.
pub fn workspace_change_plan(windows: &Vec<WindowView>, titles: &Vec<Vec<u8>>) -> (r: Vec<u32>)
    ensures
        r@ == spec_hide_pids(windows@, titles.deep_view(), 0),
{
    let mut out: Vec<u32> = Vec::new();
    let mut i: usize = 0;
    proof {
        assert(out@ + spec_hide_pids(windows@, titles.deep_view(), 0)
            =~= spec_hide_pids(windows@, titles.deep_view(), 0));
    }
    while i < windows.len()
        invariant
            i <= windows@.len(),
            spec_hide_pids(windows@, titles.deep_view(), 0)
                == out@ + spec_hide_pids(windows@, titles.deep_view(), i as int),
        decreases windows@.len() - i,
    {
        let ghost pre = out@;
        let w = &windows[i];
        if w.floating && w.workspace != HIDDEN_WORKSPACE
            && crate::contains_bytes(titles, &w.initial_title) {
            out.push(w.pid);
            proof {
                assert(out@ =~= pre + seq![windows@[i as int].pid]);
                assert(out@ + spec_hide_pids(windows@, titles.deep_view(), i as int + 1)
                    =~= pre + spec_hide_pids(windows@, titles.deep_view(), i as int));
            }
        }
        i += 1;
    }
    out
}

/// What the active-window-change handler under spotless mode relocates:
/// nothing while a floating window holds focus, else every visible
/// window of a scratchpad without the shiny option.
pub fn active_change_plan(
    windows: &Vec<WindowView>,
    unshiny: &Vec<Vec<u8>>,
    active: &Option<WindowView>,
) -> (r: Vec<u32>)
    ensures
        r@ == (match *active {
            Some(w) => if !w.floating {
                spec_hide_pids(windows@, unshiny.deep_view(), 0)
            } else {
                Seq::<u32>::empty()
            },
            None => Seq::<u32>::empty(),
        }),
{
    match active {
        Some(w) => {
            if !w.floating {
                workspace_change_plan(windows, unshiny)
            } else {
                Vec::new()
            }
        },
        None => Vec::new(),
    }
}

/// A window list after the compositor has carried out a relocation plan:
/// every window whose process identifier the plan names sits on the
/// hidden workspace, the rest are untouched.
pub open spec fn spec_apply_hide(ws: Seq<WindowView>, pids: Seq<u32>) -> Seq<WindowView> {
    ws.map_values(|w: WindowView| if pids.contains(w.pid) {
        WindowView { workspace: HIDDEN_WORKSPACE, ..w }
    } else {
        w
    })
}

/// The plan names the process identifier of every window it must hide.
proof fn lemma_hide_pids_cover(ws: Seq<WindowView>, titles: Seq<Seq<u8>>, i: int, j: int)
    requires
        0 <= i <= j < ws.len(),
        spec_must_hide(ws[j], titles),
    ensures
        spec_hide_pids(ws, titles, i).contains(ws[j].pid),
    decreases j - i,
{
    if i == j {
        assert(spec_hide_pids(ws, titles, i)[0] == ws[j].pid);
    } else {
        lemma_hide_pids_cover(ws, titles, i + 1, j);
        let pids = spec_hide_pids(ws, titles, i + 1);
        let k = choose|k: int| 0 <= k < pids.len() && pids[k] == ws[j].pid;
        if spec_must_hide(ws[i], titles) {
            assert(spec_hide_pids(ws, titles, i)[k + 1] == ws[j].pid);
        }
    }
}

/// Reconciler invariant: once the compositor has carried out the
/// workspace-change plan, no floating window whose spawn-origin title is
/// a tracked scratchpad title remains outside the hidden workspace.
pub proof fn lemma_reconciler_invariant(ws: Seq<WindowView>, titles: Seq<Seq<u8>>)
    ensures
        forall|j: int|
            (0 <= j < ws.len()
                && (#[trigger] spec_apply_hide(ws, spec_hide_pids(ws, titles, 0))[j]).floating
                && crate::spec_has(
                    titles,
                    spec_apply_hide(ws, spec_hide_pids(ws, titles, 0))[j].initial_title@,
                )) ==> spec_apply_hide(ws, spec_hide_pids(ws, titles, 0))[j].workspace
                == HIDDEN_WORKSPACE,
{
    let pids = spec_hide_pids(ws, titles, 0);
    let after = spec_apply_hide(ws, pids);
    assert forall|j: int|
        0 <= j < ws.len() && after[j].floating
            && crate::spec_has(titles, after[j].initial_title@)
        implies after[j].workspace == HIDDEN_WORKSPACE by {
        if spec_must_hide(ws[j], titles) {
            lemma_hide_pids_cover(ws, titles, 0, j);
        }
    }
}

/// The process identifiers of the windows from index `i` on that a
/// hide-all sweep relocates: every floating window on the active
/// workspace, whatever its title.
pub open spec fn spec_hideall_pids(ws: Seq<WindowView>, active_ws: i32, i: int) -> Seq<u32>
    decreases ws.len() - i,
{
    if i < 0 || i >= ws.len() {
        Seq::empty()
    } else if ws[i].floating && ws[i].workspace == active_ws {
        seq![ws[i].pid] + spec_hideall_pids(ws, active_ws, i + 1)
    } else {
        spec_hideall_pids(ws, active_ws, i + 1)
    }
}

/// What a hide-all sweep relocates to the hidden workspace.
pub fn hideall_plan(windows: &Vec<WindowView>, active_ws: i32) -> (r: Vec<u32>)
    ensures
        r@ == spec_hideall_pids(windows@, active_ws, 0),
{
    let mut out: Vec<u32> = Vec::new();
    let mut i: usize = 0;
    proof {
        assert(out@ + spec_hideall_pids(windows@, active_ws, 0)
            =~= spec_hideall_pids(windows@, active_ws, 0));
    }
    while i < windows.len()
        invariant
            i <= windows@.len(),
            spec_hideall_pids(windows@, active_ws, 0)
                == out@ + spec_hideall_pids(windows@, active_ws, i as int),
        decreases windows@.len() - i,
    {
        let ghost pre = out@;
        let w = &windows[i];
        if w.floating && w.workspace == active_ws {
            out.push(w.pid);
            proof {
                assert(out@ =~= pre + seq![windows@[i as int].pid]);
                assert(out@ + spec_hideall_pids(windows@, active_ws, i as int + 1)
                    =~= pre + spec_hideall_pids(windows@, active_ws, i as int));
            }
        }
        i += 1;
    }
    out
}

/// Hide-all is title-agnostic: it relocates every floating window on the
/// active workspace, among them windows that no scratchpad definition
/// tracks.
pub proof fn lemma_hideall_title_agnostic(ws: Seq<WindowView>, active_ws: i32, j: int)
    requires
        0 <= j < ws.len(),
        ws[j].floating,
        ws[j].workspace == active_ws,
    ensures
        spec_hideall_pids(ws, active_ws, 0).contains(ws[j].pid),
    decreases j,
{
    lemma_hideall_cover(ws, active_ws, 0, j);
}

/// The hide-all plan names every floating window on the active workspace
/// from index `i` on.
proof fn lemma_hideall_cover(ws: Seq<WindowView>, active_ws: i32, i: int, j: int)
    requires
        0 <= i <= j < ws.len(),
        ws[j].floating,
        ws[j].workspace == active_ws,
    ensures
        spec_hideall_pids(ws, active_ws, i).contains(ws[j].pid),
    decreases j - i,
{
    if i == j {
        assert(spec_hideall_pids(ws, active_ws, i)[0] == ws[j].pid);
    } else {
        lemma_hideall_cover(ws, active_ws, i + 1, j);
        let pids = spec_hideall_pids(ws, active_ws, i + 1);
        let k = choose|k: int| 0 <= k < pids.len() && pids[k] == ws[j].pid;
        if ws[i].floating && ws[i].workspace == active_ws {
            assert(spec_hideall_pids(ws, active_ws, i)[k + 1] == ws[j].pid);
        }
    }
}

} // verus!
