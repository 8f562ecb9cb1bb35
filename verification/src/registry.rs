use vstd::prelude::*;

verus! {

/// Option flags a scratchpad definition can carry, drawn from the
/// config line's trailing option tokens.
#[derive(Clone, Copy, PartialEq, Eq, Structural, Debug)]
pub struct Options {
    /// Pre-launch the window hidden at daemon start and on reload.
    pub eager_start: bool,
    /// Exempt from focus-triggered auto-hide under spotless mode.
    pub shiny: bool,
    /// Summoning may leave another visible scratchpad in place.
    pub stackable: bool,
}

/// One scratchpad definition: a window title used as the unique key,
/// the shell command that spawns the window, and its option flags.
#[derive(Clone, Debug)]
pub struct ScratchpadDefinition {
    pub title: Vec<u8>,
    pub command: Vec<u8>,
    pub options: Options,
}

impl ScratchpadDefinition {
    /// Mathematical content of a definition: title bytes, command bytes, flags.
    pub open spec fn spec_triple(self) -> (Seq<u8>, Seq<u8>, Options) {
        (self.title@, self.command@, self.options)
    }
}

/// The in-memory table of scratchpad definitions, replaced wholesale
/// on each reload and never mutated entry by entry.
#[derive(Clone, Debug)]
pub struct Registry {
    pub defs: Vec<ScratchpadDefinition>,
}

impl Registry {
    /// Well-formedness: titles are unique within one registry snapshot.
    pub open spec fn wf(self) -> bool {
        forall|i: int, j: int|
            0 <= i < j < self.defs@.len() ==> self.defs@[i].title@ != self.defs@[j].title@
    }

    /// Whether some definition in the registry carries this title.
    pub open spec fn spec_tracks(self, t: Seq<u8>) -> bool {
        exists|i: int| 0 <= i < self.defs@.len() && self.defs@[i].title@ == t
    }

    /// An empty registry, tracking nothing.
    pub fn new() -> (r: Registry)
        ensures
            r.defs@.len() == 0,
            r.wf(),
    {
        Registry { defs: Vec::new() }
    }

    /// Index of the definition with this title, if one is tracked.
    pub fn lookup(&self, title: &Vec<u8>) -> (r: Option<usize>)
        ensures
            match r {
                Some(i) => i < self.defs@.len() && self.defs@[i as int].title@ == title@,
                None => !self.spec_tracks(title@),
            },
    {
        let mut i: usize = 0;
        while i < self.defs.len()
            invariant
                i <= self.defs@.len(),
                forall|j: int| 0 <= j < i ==> self.defs@[j].title@ != title@,
            decreases self.defs@.len() - i,
        {
            if crate::bytes_eq(&self.defs[i].title, title) {
                return Some(i);
            }
            i += 1;
        }
        None
    }

    /// The tracked titles, in registry order.
    pub fn titles(&self) -> (r: Vec<Vec<u8>>)
        ensures
            r@.len() == self.defs@.len(),
            forall|i: int| 0 <= i < r@.len() ==> r@[i]@ == self.defs@[i].title@,
    {
        let mut out: Vec<Vec<u8>> = Vec::new();
        let mut i: usize = 0;
        while i < self.defs.len()
            invariant
                i <= self.defs@.len(),
                out@.len() == i,
                forall|j: int| 0 <= j < i ==> out@[j]@ == self.defs@[j].title@,
            decreases self.defs@.len() - i,
        {
            out.push(self.defs[i].title.clone());
            i += 1;
        }
        out
    }

    /// Titles of the definitions that lack the shiny option, in order:
    /// the ones spotless mode is allowed to auto-hide.
    pub fn unshiny_titles(&self) -> (r: Vec<Vec<u8>>)
        ensures
            r.deep_view() == spec_unshiny_titles(self.defs@),
    {
        let mut out: Vec<Vec<u8>> = Vec::new();
        let mut i: usize = 0;
        proof {
            assert(self.defs@.skip(0) =~= self.defs@);
            assert(out.deep_view() + spec_unshiny_titles(self.defs@)
                =~~= spec_unshiny_titles(self.defs@));
        }
        while i < self.defs.len()
            invariant
                i <= self.defs@.len(),
                spec_unshiny_titles(self.defs@)
                    == out.deep_view() + spec_unshiny_titles(self.defs@.skip(i as int)),
            decreases self.defs@.len() - i,
        {
            let ghost pre = out.deep_view();
            proof {
                assert(self.defs@.skip(i as int).skip(1) =~= self.defs@.skip(i as int + 1));
                assert(self.defs@.skip(i as int)[0] == self.defs@[i as int]);
            }
            if !self.defs[i].options.shiny {
                out.push(self.defs[i].title.clone());
                proof {
                    assert(out.deep_view() =~~= pre + seq![self.defs@[i as int].title@]);
                    assert(out.deep_view() + spec_unshiny_titles(self.defs@.skip(i as int + 1))
                        =~~= pre + spec_unshiny_titles(self.defs@.skip(i as int)));
                }
            }
            i += 1;
        }
        proof {
            assert(self.defs@.skip(self.defs@.len() as int) =~= Seq::<ScratchpadDefinition>::empty());
            assert(out.deep_view() + spec_unshiny_titles(Seq::<ScratchpadDefinition>::empty())
                =~~= out.deep_view());
        }
        out
    }
}

/// The mathematical content of a definition table: the triples of its
/// definitions, in order.
pub open spec fn spec_triples(defs: Seq<ScratchpadDefinition>) -> Seq<(Seq<u8>, Seq<u8>, Options)> {
    defs.map_values(|d: ScratchpadDefinition| d.spec_triple())
}

/// Insert a definition triple: when its title is already present the new
/// triple replaces the old one in place (the later definition wins),
/// otherwise it is appended.
pub open spec fn spec_upsert(
    defs: Seq<(Seq<u8>, Seq<u8>, Options)>,
    e: (Seq<u8>, Seq<u8>, Options),
) -> Seq<(Seq<u8>, Seq<u8>, Options)> {
    if exists|i: int| 0 <= i < defs.len() && defs[i].0 == e.0 {
        defs.update(choose|i: int| 0 <= i < defs.len() && defs[i].0 == e.0, e)
    } else {
        defs.push(e)
    }
}

/// Fold a sequence of parsed definition triples into a table with unique
/// titles, processing them in order so that later duplicates win.
pub open spec fn spec_fold_entries(
    entries: Seq<(Seq<u8>, Seq<u8>, Options)>,
) -> Seq<(Seq<u8>, Seq<u8>, Options)>
    decreases entries.len(),
{
    if entries.len() == 0 {
        Seq::empty()
    } else {
        spec_upsert(spec_fold_entries(entries.drop_last()), entries.last())
    }
}

impl Registry {
    /// Add one definition as `spec_upsert` describes it, keeping titles unique.
    pub fn upsert(&mut self, d: ScratchpadDefinition)
        requires
            old(self).wf(),
        ensures
            final(self).wf(),
            spec_triples(final(self).defs@)
                == spec_upsert(spec_triples(old(self).defs@), d.spec_triple()),
    {
        let ghost olds = spec_triples(self.defs@);
        let ghost e = d.spec_triple();
        match self.lookup(&d.title) {
            Some(i) => {
                self.defs.remove(i);
                self.defs.insert(i, d);
                proof {
                    assert(self.defs@ =~= old(self).defs@.update(i as int, d));
                    assert(olds[i as int].0 == e.0);
                    let c = choose|k: int| 0 <= k < olds.len() && olds[k].0 == e.0;
                    assert(olds[c].0 == old(self).defs@[c].title@);
                    assert(c == i);
                    assert(spec_triples(self.defs@) =~= olds.update(i as int, e));
                }
            }
            None => {
                self.defs.push(d);
                proof {
                    assert(forall|k: int| 0 <= k < olds.len()
                        ==> olds[k].0 == old(self).defs@[k].title@);
                    assert(!(exists|k: int| 0 <= k < olds.len() && olds[k].0 == e.0));
                    assert(spec_triples(self.defs@) =~= olds.push(e));
                }
            }
        }
    }
}

/// The titles of the definitions without the shiny option, in registry order.
pub open spec fn spec_unshiny_titles(defs: Seq<ScratchpadDefinition>) -> Seq<Seq<u8>>
    decreases defs.len(),
{
    if defs.len() == 0 {
        Seq::empty()
    } else if !defs[0].options.shiny {
        seq![defs[0].title@] + spec_unshiny_titles(defs.skip(1))
    } else {
        spec_unshiny_titles(defs.skip(1))
    }
}

} // verus!
