use vstd::prelude::*;
use crate::config::{lemma_find_off, lemma_find_off_at, spec_find_off};
use crate::registry::{Registry, ScratchpadDefinition};

verus! {

/// The bytes "[workspace 42 silent": the opening of a rule block that
/// pins a spawned window to the hidden workspace without stealing focus.
pub open spec fn spec_pin_prefix() -> Seq<u8> {
    seq![
        91u8, 119u8, 111u8, 114u8, 107u8, 115u8, 112u8, 97u8, 99u8, 101u8, 32u8, 52u8, 50u8,
        32u8, 115u8, 105u8, 108u8, 101u8, 110u8, 116u8,
    ]
}

/// "[workspace 42 silent;": the pin spliced into an existing rule block.
pub open spec fn spec_spawn_rule() -> Seq<u8> {
    spec_pin_prefix() + seq![59u8]
}

/// "[workspace 42 silent] ": the pin as a rule block of its own, set
/// before a command that carries none.
pub open spec fn spec_standalone_rule() -> Seq<u8> {
    spec_pin_prefix() + seq![93u8, 32u8]
}

fn spawn_rule_bytes() -> (r: Vec<u8>)
    ensures
        r@ == spec_spawn_rule(),
{
    let v: Vec<u8> = vec![
        91u8, 119, 111, 114, 107, 115, 112, 97, 99, 101, 32, 52, 50, 32, 115, 105, 108, 101,
        110, 116, 59,
    ];
    proof {
        assert(v@ =~= spec_spawn_rule());
    }
    v
}

fn standalone_rule_bytes() -> (r: Vec<u8>)
    ensures
        r@ == spec_standalone_rule(),
{
    let v: Vec<u8> = vec![
        91u8, 119, 111, 114, 107, 115, 112, 97, 99, 101, 32, 52, 50, 32, 115, 105, 108, 101,
        110, 116, 93, 32,
    ];
    proof {
        assert(v@ =~= spec_standalone_rule());
    }
    v
}

/// A spawn command rewritten for a hidden start. A command that carries
/// a rule block has the hidden-workspace rule spliced in at its first
/// opening bracket; one that carries none gets the rule as a block of
/// its own in front. Either way the spawned window is pinned to the
/// hidden workspace, silently.
pub open spec fn spec_hidden_spawn(cmd: Seq<u8>) -> Seq<u8> {
    match spec_find_off(cmd, 91u8, 0) {
        Some(off) => cmd.subrange(0, off as int) + spec_spawn_rule()
            + cmd.subrange(off as int + 1, cmd.len() as int),
        None => spec_standalone_rule() + cmd,
    }
}

/// The command targets the hidden workspace silently: the bytes
/// "[workspace 42 silent" open the rule block at its first bracket.
pub open spec fn spec_pinned_hidden(c: Seq<u8>) -> bool {
    match spec_find_off(c, 91u8, 0) {
        Some(off) => off + 20 <= c.len()
            && c.subrange(off as int, off as int + 20) == spec_pin_prefix(),
        None => false,
    }
}

/// Every rewritten spawn command is pinned to the hidden workspace.
pub proof fn lemma_hidden_spawn_pinned(cmd: Seq<u8>)
    ensures
        spec_pinned_hidden(spec_hidden_spawn(cmd)),
{
    let r = spec_hidden_spawn(cmd);
    lemma_find_off(cmd, 91u8, 0);
    match spec_find_off(cmd, 91u8, 0) {
        Some(off) => {
            assert forall|q: int| 0 <= q < off implies r[q] != 91u8 by {
                assert(r[q] == cmd[q]);
            }
            assert(r[off as int] == spec_spawn_rule()[0]);
            lemma_find_off_at(r, 91u8, 0, off as int);
            assert(r.subrange(off as int, off as int + 20) =~= spec_pin_prefix());
        },
        None => {
            assert(r[0] == spec_standalone_rule()[0]);
            lemma_find_off_at(r, 91u8, 0, 0);
            assert(r.subrange(0, 20) =~= spec_pin_prefix());
        },
    }
}

/// Rewrite a spawn command as `spec_hidden_spawn` describes it.
pub fn hidden_spawn_command(cmd: &Vec<u8>) -> (r: Vec<u8>)
    ensures
        r@ == spec_hidden_spawn(cmd@),
{
    match crate::config::find_byte_from(cmd, 91u8, 0) {
        Some(j) => {
            let n: usize = cmd.len();
            proof {
                assert(j < n);
            }
            let mut out = crate::subvec(cmd, 0, j);
            let rule = spawn_rule_bytes();
            crate::append_bytes(&mut out, &rule);
            let tail = crate::subvec(cmd, j + 1, n);
            crate::append_bytes(&mut out, &tail);
            proof {
                assert(out@ =~= spec_hidden_spawn(cmd@));
            }
            out
        },
        None => {
            let mut out = standalone_rule_bytes();
            crate::append_bytes(&mut out, cmd);
            proof {
                assert(out@ =~= spec_hidden_spawn(cmd@));
            }
            out
        },
    }
}

/// The hidden spawn commands that an autospawn pass issues for the
/// definitions from index `i` on: one for each definition flagged
/// eager-start whose title no live window carries.
pub open spec fn spec_autospawn(
    defs: Seq<ScratchpadDefinition>,
    live: Seq<Seq<u8>>,
    i: int,
) -> Seq<Seq<u8>>
    decreases defs.len() - i,
{
    if i < 0 || i >= defs.len() {
        Seq::empty()
    } else if defs[i].options.eager_start && !crate::spec_has(live, defs[i].title@) {
        seq![spec_hidden_spawn(defs[i].command@)] + spec_autospawn(defs, live, i + 1)
    } else {
        spec_autospawn(defs, live, i + 1)
    }
}

/// The spawn commands an autospawn pass issues, given the spawn-origin
/// titles of the windows that are currently alive.
pub fn autospawn_plan(reg: &Registry, live_titles: &Vec<Vec<u8>>) -> (r: Vec<Vec<u8>>)
    ensures
        r.deep_view() == spec_autospawn(reg.defs@, live_titles.deep_view(), 0),
{
    let mut out: Vec<Vec<u8>> = Vec::new();
    let mut i: usize = 0;
    proof {
        assert(out.deep_view() + spec_autospawn(reg.defs@, live_titles.deep_view(), 0)
            =~~= spec_autospawn(reg.defs@, live_titles.deep_view(), 0));
    }
    while i < reg.defs.len()
        invariant
            i <= reg.defs@.len(),
            spec_autospawn(reg.defs@, live_titles.deep_view(), 0)
                == out.deep_view() + spec_autospawn(reg.defs@, live_titles.deep_view(), i as int),
        decreases reg.defs@.len() - i,
    {
        let ghost pre = out.deep_view();
        let d = &reg.defs[i];
        if d.options.eager_start && !crate::contains_bytes(live_titles, &d.title) {
            let c = hidden_spawn_command(&d.command);
            out.push(c);
            proof {
                assert(out.deep_view()
                    =~~= pre + seq![spec_hidden_spawn(reg.defs@[i as int].command@)]);
                assert(out.deep_view()
                    + spec_autospawn(reg.defs@, live_titles.deep_view(), i as int + 1)
                    =~~= pre + spec_autospawn(reg.defs@, live_titles.deep_view(), i as int));
            }
        }
        i += 1;
    }
    out
}

/// How many definitions from index `i` on are due an autospawn: flagged
/// eager-start, title not alive.
pub open spec fn spec_eligible_count(
    defs: Seq<ScratchpadDefinition>,
    live: Seq<Seq<u8>>,
    i: int,
) -> nat
    decreases defs.len() - i,
{
    if i < 0 || i >= defs.len() {
        0
    } else if defs[i].options.eager_start && !crate::spec_has(live, defs[i].title@) {
        1 + spec_eligible_count(defs, live, i + 1)
    } else {
        spec_eligible_count(defs, live, i + 1)
    }
}

proof fn lemma_autospawn_len(defs: Seq<ScratchpadDefinition>, live: Seq<Seq<u8>>, i: int)
    ensures
        spec_autospawn(defs, live, i).len() == spec_eligible_count(defs, live, i),
    decreases defs.len() - i,
{
    if 0 <= i < defs.len() {
        lemma_autospawn_len(defs, live, i + 1);
    }
}

proof fn lemma_autospawn_cover(defs: Seq<ScratchpadDefinition>, live: Seq<Seq<u8>>, i: int, j: int)
    requires
        0 <= i <= j < defs.len(),
        defs[j].options.eager_start,
        !crate::spec_has(live, defs[j].title@),
    ensures
        spec_autospawn(defs, live, i).contains(spec_hidden_spawn(defs[j].command@)),
    decreases j - i,
{
    if i == j {
        assert(spec_autospawn(defs, live, i)[0] == spec_hidden_spawn(defs[j].command@));
    } else {
        lemma_autospawn_cover(defs, live, i + 1, j);
        let cs = spec_autospawn(defs, live, i + 1);
        let k = choose|k: int| 0 <= k < cs.len() && cs[k] == spec_hidden_spawn(defs[j].command@);
        if defs[i].options.eager_start && !crate::spec_has(live, defs[i].title@) {
            assert(spec_autospawn(defs, live, i)[k + 1] == spec_hidden_spawn(defs[j].command@));
        }
    }
}

/// The plan holds only pinned commands, from index `i` on.
proof fn lemma_autospawn_pinned_from(defs: Seq<ScratchpadDefinition>, live: Seq<Seq<u8>>, i: int)
    ensures
        forall|k: int|
            0 <= k < spec_autospawn(defs, live, i).len()
                ==> spec_pinned_hidden(#[trigger] spec_autospawn(defs, live, i)[k]),
    decreases defs.len() - i,
{
    if 0 <= i < defs.len() {
        lemma_autospawn_pinned_from(defs, live, i + 1);
        if defs[i].options.eager_start && !crate::spec_has(live, defs[i].title@) {
            lemma_hidden_spawn_pinned(defs[i].command@);
            assert forall|k: int|
                0 <= k < spec_autospawn(defs, live, i).len()
                implies spec_pinned_hidden(spec_autospawn(defs, live, i)[k]) by {
                if k == 0 {
                    assert(spec_autospawn(defs, live, i)[0]
                        == spec_hidden_spawn(defs[i].command@));
                } else {
                    assert(spec_autospawn(defs, live, i)[k]
                        == spec_autospawn(defs, live, i + 1)[k - 1]);
                    assert(spec_pinned_hidden(spec_autospawn(defs, live, i + 1)[k - 1]));
                }
            }
        } else {
            assert(spec_autospawn(defs, live, i) == spec_autospawn(defs, live, i + 1));
        }
    }
}

/// Autospawn issues exactly one hidden spawn command for each definition
/// flagged eager-start whose title no live window carries — the plan is
/// exactly as long as the set of such definitions — and among the issued
/// commands stands each such definition's, rewritten for a hidden start.
/// Every issued command is pinned to the hidden workspace, silently. A
/// definition whose title is already alive, or which is not flagged
/// eager-start, contributes nothing.
pub proof fn lemma_autospawn_exact(defs: Seq<ScratchpadDefinition>, live: Seq<Seq<u8>>)
    ensures
        spec_autospawn(defs, live, 0).len() == spec_eligible_count(defs, live, 0),
        forall|j: int|
            (0 <= j < defs.len() && defs[j].options.eager_start
                && !crate::spec_has(live, #[trigger] defs[j].title@))
                ==> spec_autospawn(defs, live, 0).contains(spec_hidden_spawn(defs[j].command@)),
        forall|k: int|
            0 <= k < spec_autospawn(defs, live, 0).len()
                ==> spec_pinned_hidden(#[trigger] spec_autospawn(defs, live, 0)[k]),
{
    lemma_autospawn_len(defs, live, 0);
    lemma_autospawn_pinned_from(defs, live, 0);
    assert forall|j: int|
        (0 <= j < defs.len() && defs[j].options.eager_start
            && !crate::spec_has(live, #[trigger] defs[j].title@))
        implies spec_autospawn(defs, live, 0).contains(
            spec_hidden_spawn(defs[j].command@)) by {
        lemma_autospawn_cover(defs, live, 0, j);
    }
}

} // verus!
