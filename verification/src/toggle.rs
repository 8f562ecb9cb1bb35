use vstd::prelude::*;

verus! {

/// Read-only view of one compositor window, as the toggle resolver and
/// the reconciler observe it.
#[derive(Clone, Debug)]
pub struct WindowView {
    /// The spawn-origin title the window was created with.
    pub initial_title: Vec<u8>,
    /// The window's current title.
    pub title: Vec<u8>,
    /// The compositor's process identifier for the window.
    pub pid: u32,
    /// The workspace the window resides on.
    pub workspace: i32,
    /// Whether the window floats above the tiled layout.
    pub floating: bool,
}

/// What one toggle invocation decides: whether to hide the active window
/// and whether to summon the requested scratchpad.
#[derive(Clone, Copy, PartialEq, Eq, Structural, Debug)]
pub struct ToggleDecision {
    /// Relocate the active window silently to the hidden workspace.
    pub hide_active: bool,
    /// Summon the scratchpad carrying the requested title.
    pub summon_target: bool,
}

/// The decision table of the toggle resolver.
///
/// With no active window the target is summoned. When the active window's
/// spawn-origin title is the requested title, it is hidden and nothing is
/// summoned: the net effect is toggle-off. When the active window is a
/// floating window of some other tracked scratchpad, it is hidden first
/// unless the invocation is stackable. In every other case the target is
/// summoned and the active window is left alone.
pub open spec fn spec_toggle(
    active: Option<WindowView>,
    titles: Seq<Seq<u8>>,
    target: Seq<u8>,
    stackable: bool,
) -> ToggleDecision {
    match active {
        None => ToggleDecision { hide_active: false, summon_target: true },
        Some(w) => {
            if w.initial_title@ == target {
                ToggleDecision { hide_active: true, summon_target: false }
            } else if w.floating && crate::spec_has(titles, w.initial_title@) && !stackable {
                ToggleDecision { hide_active: true, summon_target: true }
            } else {
                ToggleDecision { hide_active: false, summon_target: true }
            }
        },
    }
}

/// Resolve one toggle invocation against the active window observed at
/// invocation time and the titles of the current registry snapshot.
pub fn resolve_toggle(
    active: &Option<WindowView>,
    titles: &Vec<Vec<u8>>,
    target: &Vec<u8>,
    stackable: bool,
) -> (r: ToggleDecision)
    ensures
        r == spec_toggle(*active, titles.deep_view(), target@, stackable),
        // toggle-off: requesting the active window's own origin title hides
        // it and summons nothing
        (match *active {
            Some(w) => w.initial_title@ == target@ ==> r.hide_active && !r.summon_target,
            None => true,
        }),
{
    match active {
        None => ToggleDecision { hide_active: false, summon_target: true },
        Some(w) => {
            if crate::bytes_eq(&w.initial_title, target) {
                ToggleDecision { hide_active: true, summon_target: false }
            } else if w.floating && !stackable && crate::contains_bytes(titles, &w.initial_title) {
                ToggleDecision { hide_active: true, summon_target: true }
            } else {
                ToggleDecision { hide_active: false, summon_target: true }
            }
        },
    }
}

/// Toggle resolution is deterministic: two invocations observing the same
/// active-window state, registry titles, requested title and stackable flag
/// decide the same row of the decision table.
pub proof fn lemma_toggle_deterministic(
    active1: Option<WindowView>,
    titles1: Seq<Seq<u8>>,
    target1: Seq<u8>,
    stackable1: bool,
    active2: Option<WindowView>,
    titles2: Seq<Seq<u8>>,
    target2: Seq<u8>,
    stackable2: bool,
)
    requires
        active1 == active2,
        titles1 == titles2,
        target1 == target2,
        stackable1 == stackable2,
    ensures
        spec_toggle(active1, titles1, target1, stackable1)
            == spec_toggle(active2, titles2, target2, stackable2),
{
}

/// Index of the first window whose spawn-origin title is `t`, looking
/// from index `i` on.
pub open spec fn spec_first_with_title(ws: Seq<WindowView>, t: Seq<u8>, i: int) -> Option<int>
    decreases ws.len() - i,
{
    if i < 0 || i >= ws.len() {
        None
    } else if ws[i].initial_title@ == t {
        Some(i)
    } else {
        spec_first_with_title(ws, t, i + 1)
    }
}

/// The steps that summon one scratchpad, resolved against the live
/// window list.
pub enum SummonAction {
    /// No live window carries the title: spawn the definition's command
    /// onto the active workspace, where it becomes immediately visible.
    Spawn { command: Vec<u8> },
    /// The window lives on the active workspace already: focus it and
    /// raise it above its siblings.
    FocusRaise { pid: u32 },
    /// The window lives elsewhere: relocate it silently onto the active
    /// workspace, then focus it, then raise it.
    RelocateFocusRaise { pid: u32 },
}

/// Resolve a summon: spawn when the title is not alive, otherwise focus
/// (and first relocate, when it sits on another workspace) the first
/// window carrying the title.
pub fn resolve_summon(
    windows: &Vec<WindowView>,
    target: &Vec<u8>,
    command: &Vec<u8>,
    active_workspace: i32,
) -> (r: SummonAction)
    ensures
        (match r {
            SummonAction::Spawn { command: c } => c@ == command@
                && spec_first_with_title(windows@, target@, 0) is None,
            SummonAction::FocusRaise { pid } => {
                &&& spec_first_with_title(windows@, target@, 0) is Some
                &&& {
                    let i = spec_first_with_title(windows@, target@, 0)->Some_0;
                    pid == windows@[i].pid && windows@[i].workspace == active_workspace
                }
            },
            SummonAction::RelocateFocusRaise { pid } => {
                &&& spec_first_with_title(windows@, target@, 0) is Some
                &&& {
                    let i = spec_first_with_title(windows@, target@, 0)->Some_0;
                    pid == windows@[i].pid && windows@[i].workspace != active_workspace
                }
            },
        }),
{
    let mut i: usize = 0;
    while i < windows.len()
        invariant
            i <= windows@.len(),
            spec_first_with_title(windows@, target@, 0)
                == spec_first_with_title(windows@, target@, i as int),
        decreases windows@.len() - i,
    {
        if crate::bytes_eq(&windows[i].initial_title, target) {
            if windows[i].workspace == active_workspace {
                return SummonAction::FocusRaise { pid: windows[i].pid };
            } else {
                return SummonAction::RelocateFocusRaise { pid: windows[i].pid };
            }
        }
        i += 1;
    }
    SummonAction::Spawn { command: command.clone() }
}

} // verus!
