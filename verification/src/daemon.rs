use vstd::prelude::*;
use crate::autospawn::{autospawn_plan, spec_autospawn};
use crate::config::{parse_config, spec_parse_config};
use crate::ipc::{classify_request, encode_titles, spec_classify, spec_titles_response, Request};
use crate::registry::{Options, Registry, ScratchpadDefinition, spec_triples};

verus! {

/// What one IPC connection led the daemon to do.
pub enum ServerStep {
    /// A query: write this response back on the connection; the state is
    /// untouched.
    Respond { response: Vec<u8> },
    /// A reload that read its source: the registry was replaced and
    /// these spawn commands are due; no response is written.
    Reloaded { spawns: Vec<Vec<u8>> },
    /// A reload whose source could not be read: the reload was aborted
    /// and the prior registry remains authoritative.
    KeptPrior,
    /// An unknown request: logged and ignored; the state is untouched.
    Ignored,
}

/// The titles of a definition table, in order.
pub open spec fn spec_titles_of(defs: Seq<ScratchpadDefinition>) -> Seq<Seq<u8>> {
    defs.map_values(|d: ScratchpadDefinition| d.title@)
}

/// The daemon's persistent state: the registry snapshot that the toggle
/// resolver, the reconciler and query connections read. A reload
/// replaces it wholesale; nothing mutates it field by field, so a
/// concurrent reader observes either the old or the new snapshot whole.
pub struct DaemonState {
    pub registry: Registry,
}

impl DaemonState {
    /// Well-formedness: the registry's titles are unique.
    pub open spec fn wf(self) -> bool {
        self.registry.wf()
    }

    /// The daemon as it stands after reading its config source at startup.
    pub fn startup(config_text: &Vec<u8>) -> (r: DaemonState)
        ensures
            r.wf(),
            spec_triples(r.registry.defs@) == spec_parse_config(config_text@),
    {
        DaemonState { registry: parse_config(config_text) }
    }

    /// Answer a query connection: the tracked titles, encoded.
    pub fn query_response(&self) -> (r: Vec<u8>)
        ensures
            r@ == spec_titles_response(spec_titles_of(self.registry.defs@)),
    {
        let ts = self.registry.titles();
        let r = encode_titles(&ts);
        proof {
            assert(ts.deep_view() =~~= spec_titles_of(self.registry.defs@));
        }
        r
    }

    /// Carry out a reload: replace the registry wholesale with the one
    /// the config source now declares, and hand back the autospawn plan
    /// due against the currently live titles. A reload whose source
    /// cannot be read never reaches this point — the caller keeps the
    /// prior state authoritative and aborts the reload.
    pub fn apply_reload(
        &mut self,
        config_text: &Vec<u8>,
        live_titles: &Vec<Vec<u8>>,
    ) -> (spawns: Vec<Vec<u8>>)
        ensures
            final(self).wf(),
            spec_triples(final(self).registry.defs@) == spec_parse_config(config_text@),
            spawns.deep_view() == spec_autospawn(
                final(self).registry.defs@,
                live_titles.deep_view(),
                0,
            ),
    {
        self.registry = parse_config(config_text);
        autospawn_plan(&self.registry, live_titles)
    }

    /// One step of the IPC server: key the connection's bytes to a
    /// request and carry it out. A query answers with the tracked titles
    /// and changes nothing; a reload replaces the registry from the
    /// config source where one could be read and keeps the prior
    /// registry where none could; anything else is ignored.
    pub fn handle_request(
        &mut self,
        buf: &Vec<u8>,
        config_text: &Option<Vec<u8>>,
        live_titles: &Vec<Vec<u8>>,
    ) -> (r: ServerStep)
        requires
            old(self).wf(),
        ensures
            final(self).wf(),
            match r {
                ServerStep::Respond { response } => spec_classify(buf@) == Request::QueryTitles
                    && spec_triples(final(self).registry.defs@)
                        == spec_triples(old(self).registry.defs@)
                    && response@ == spec_titles_response(spec_titles_of(old(self).registry.defs@)),
                ServerStep::Reloaded { spawns } => spec_classify(buf@) == Request::Reload
                    && config_text is Some
                    && spec_triples(final(self).registry.defs@)
                        == spec_parse_config(config_text->Some_0@)
                    && spawns.deep_view() == spec_autospawn(
                        final(self).registry.defs@,
                        live_titles.deep_view(),
                        0,
                    ),
                ServerStep::KeptPrior => spec_classify(buf@) == Request::Reload
                    && config_text is None
                    && spec_triples(final(self).registry.defs@)
                        == spec_triples(old(self).registry.defs@),
                ServerStep::Ignored => spec_classify(buf@) == Request::Unknown
                    && spec_triples(final(self).registry.defs@)
                        == spec_triples(old(self).registry.defs@),
            },
    {
        match classify_request(buf) {
            Request::QueryTitles => ServerStep::Respond { response: self.query_response() },
            Request::Reload => {
                match config_text {
                    Some(text) => ServerStep::Reloaded {
                        spawns: self.apply_reload(text, live_titles),
                    },
                    None => ServerStep::KeptPrior,
                }
            },
            Request::Unknown => ServerStep::Ignored,
        }
    }
}

/// Reloading is idempotent: a second reload from an unchanged config
/// source yields a registry equal, by title, command and options, to the
/// registry after a single reload — whatever state either reload found.
pub proof fn lemma_reload_idempotent(once: Registry, twice: Registry, config_text: Seq<u8>)
    requires
        spec_triples(once.defs@) == spec_parse_config(config_text),
        spec_triples(twice.defs@) == spec_parse_config(config_text),
    ensures
        spec_triples(once.defs@) == spec_triples(twice.defs@),
{
}

/// A query answered after a successful reload reports exactly the titles
/// the new config source declares — the pre-reload set is gone with the
/// registry it described.
pub proof fn lemma_query_after_reload(s: DaemonState, config_text: Seq<u8>)
    requires
        spec_triples(s.registry.defs@) == spec_parse_config(config_text),
    ensures
        spec_titles_response(spec_titles_of(s.registry.defs@)) == spec_titles_response(
            spec_parse_config(config_text).map_values(|e: (Seq<u8>, Seq<u8>, Options)| e.0),
        ),
{
    assert(spec_titles_of(s.registry.defs@) =~= spec_parse_config(config_text).map_values(
        |e: (Seq<u8>, Seq<u8>, Options)| e.0,
    ));
}

} // verus!
