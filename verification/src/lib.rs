use vstd::prelude::*;

/// Pre-launching eager scratchpads hidden at daemon start and on reload.
pub mod autospawn;
/// The config-line grammar and the registry a config source declares.
pub mod config;
/// The daemon's replace-only state and its reload and query steps.
pub mod daemon;
/// The one-byte request protocol and the titles codec.
pub mod ipc;
/// The event handlers' relocation plans and the hide-all sweep.
pub mod reconcile;
/// Scratchpad definitions and the registry with its unique titles.
pub mod registry;
/// The toggle resolver's decision table and summon resolution.
pub mod toggle;

verus! {

/// The reserved workspace that holds scratchpad windows while they are hidden.
pub const HIDDEN_WORKSPACE: i32 = 42;

/// True when the two byte strings hold the same bytes.
pub fn bytes_eq(a: &Vec<u8>, b: &Vec<u8>) -> (r: bool)
    ensures
        r == (a@ == b@),
{
    if a.len() != b.len() {
        assert(a@ != b@);
        return false;
    }
    let mut i: usize = 0;
    while i < a.len()
        invariant
            i <= a.len(),
            a.len() == b.len(),
            forall|j: int| 0 <= j < i ==> a@[j] == b@[j],
        decreases a.len() - i,
    {
        if a[i] != b[i] {
            assert(a@ != b@);
            return false;
        }
        i += 1;
    }
    assert(a@ =~= b@);
    true
}

/// Copy of the bytes of `s` from index `i` up to (excluding) index `j`.
pub fn subvec(s: &Vec<u8>, i: usize, j: usize) -> (r: Vec<u8>)
    requires
        i <= j <= s@.len(),
    ensures
        r@ == s@.subrange(i as int, j as int),
{
    let mut out: Vec<u8> = Vec::new();
    let mut k: usize = i;
    while k < j
        invariant
            i <= k <= j <= s@.len(),
            out@.len() == k - i,
            forall|m: int| 0 <= m < out@.len() ==> out@[m] == s@[i + m],
        decreases j - k,
    {
        out.push(s[k]);
        k += 1;
    }
    proof {
        assert(out@ =~= s@.subrange(i as int, j as int));
    }
    out
}

/// Append the bytes of `s` to `out`.
pub fn append_bytes(out: &mut Vec<u8>, s: &Vec<u8>)
    ensures
        final(out)@ == old(out)@ + s@,
{
    let mut i: usize = 0;
    proof {
        assert(out@ =~= old(out)@ + s@.take(0));
    }
    while i < s.len()
        invariant
            i <= s@.len(),
            out@ == old(out)@ + s@.take(i as int),
        decreases s@.len() - i,
    {
        out.push(s[i]);
        proof {
            assert(out@ =~= old(out)@ + s@.take(i as int + 1));
        }
        i += 1;
    }
    proof {
        assert(old(out)@ + s@.take(s@.len() as int) =~= old(out)@ + s@);
    }
}

/// Whether `t` occurs among the byte strings of `ts` at an index at least `from`.
pub open spec fn spec_has_from(ts: Seq<Seq<u8>>, t: Seq<u8>, from: int) -> bool {
    exists|i: int| from <= i < ts.len() && ts[i] == t
}

/// Whether `t` occurs among the byte strings of `ts`.
pub open spec fn spec_has(ts: Seq<Seq<u8>>, t: Seq<u8>) -> bool {
    spec_has_from(ts, t, 0)
}

/// True when `t` is one of the byte strings in `ts`.
pub fn contains_bytes(ts: &Vec<Vec<u8>>, t: &Vec<u8>) -> (r: bool)
    ensures
        r == spec_has(ts.deep_view(), t@),
{
    let mut i: usize = 0;
    while i < ts.len()
        invariant
            i <= ts@.len(),
            forall|j: int| 0 <= j < i ==> ts.deep_view()[j] != t@,
        decreases ts@.len() - i,
    {
        if bytes_eq(&ts[i], t) {
            proof {
                assert(ts.deep_view()[i as int] =~= t@);
            }
            return true;
        }
        proof {
            if ts.deep_view()[i as int] == t@ {
                assert(ts@[i as int]@ =~= t@);
            }
        }
        i += 1;
    }
    false
}

} // verus!
