//! A snapshot of what was learned and of what is being tried.

use vstd::prelude::*;

use crate::domain::{ConfigView, PrefixConfig};
use crate::ports::{PrefixStore, ProbeStore};
use crate::probe::{ProbeEntry, ProbeView};
use crate::records::copy_mappings;
use crate::table;
use crate::text;

verus! {

/// Snapshot of the state of the learning.
#[derive(Debug, Clone)]
pub struct AuditState {
    /// The confirmed mappings, in the order of their keys.
    pub mappings: Vec<(String, Vec<String>)>,
    /// The probes, in the order in which the store holds them.
    pub probes: Vec<ProbeEntry>,
}

/// What an [`AuditState`] holds.
#[verifier::ext_equal]
pub struct AuditView {
    pub mappings: Seq<(Seq<char>, Seq<Seq<char>>)>,
    pub probes: Seq<ProbeView>,
}

impl DeepView for AuditState {
    type V = AuditView;

    open spec fn deep_view(&self) -> AuditView {
        AuditView { mappings: self.mappings.deep_view(), probes: self.probes.deep_view() }
    }
}

impl Default for AuditState {
    fn default() -> (r: Self)
        ensures
            r.deep_view() == (AuditView { mappings: seq![], probes: seq![] }),
    {
        let r = AuditState { mappings: Vec::new(), probes: Vec::new() };
        assert(r.deep_view() =~= (AuditView { mappings: seq![], probes: seq![] }));
        r
    }
}

/// Whether `state` lists each mapping of `config` once, in the order of the keys, and the probes
/// as they are.
pub open spec fn is_snapshot(
    state: AuditView,
    config: ConfigView,
    probes: Seq<ProbeView>,
) -> bool {
    &&& table::increasing(state.mappings)
    &&& table::map_of(state.mappings) == config.mappings
    &&& state.probes == probes
}

/// There is one snapshot of a config and its probes.
pub proof fn law_snapshot_unique(
    a: AuditView,
    b: AuditView,
    config: ConfigView,
    probes: Seq<ProbeView>,
)
    requires
        is_snapshot(a, config, probes),
        is_snapshot(b, config, probes),
    ensures
        a == b,
{
    table::lemma_rows_unique(a.mappings, b.mappings);
}

impl AuditState {
    /// The snapshot of `config` and `probes`.
    pub fn of(config: &PrefixConfig, probes: Vec<ProbeEntry>) -> (r: Self)
        ensures
            is_snapshot(r.deep_view(), config.deep_view(), probes.deep_view()),
    {
        AuditState { mappings: copy_mappings(&config.mappings), probes }
    }
}

/// The snapshot of what the two stores hold.
pub fn audit_state<P: PrefixStore + ?Sized, Q: ProbeStore + ?Sized>(
    prefix_store: &P,
    probe_store: &Q,
) -> (r: AuditState)
    ensures
        exists|config: ConfigView, probes: Seq<ProbeView>| #[trigger]
            prefix_store.may_load(config) && #[trigger] probe_store.may_load(probes)
                && is_snapshot(r.deep_view(), config, probes),
{
    let config = prefix_store.load();
    let probes = probe_store.load();
    AuditState::of(&config, probes)
}

/// A snapshot lists the mappings in the order of their keys, each once with its prefix and none
/// besides, and the probes as they are.
pub proof fn law_snapshot_lists(
    state: AuditView,
    config: ConfigView,
    probes: Seq<ProbeView>,
    i: int,
)
    requires
        is_snapshot(state, config, probes),
    ensures
        forall|a: int, b: int|
            0 <= a < b < state.mappings.len() ==> text::text_lt(
                (#[trigger] state.mappings[a]).0,
                (#[trigger] state.mappings[b]).0,
            ),
        forall|key: Seq<char>| #[trigger]
            config.mappings.contains_key(key) <==> exists|a: int|
                0 <= a < state.mappings.len() && (#[trigger] state.mappings[a]).0 == key,
        0 <= i < state.mappings.len() ==> state.mappings[i].1
            == config.mappings[state.mappings[i].0],
        state.probes == probes,
{
    assert forall|key: Seq<char>| #[trigger]
        config.mappings.contains_key(key) <==> exists|a: int|
            0 <= a < state.mappings.len() && (#[trigger] state.mappings[a]).0 == key by {
        table::law_rows(state.mappings, key);
    }
    if 0 <= i < state.mappings.len() {
        table::law_rows(state.mappings, state.mappings[i].0);
    }
}

/// What contracts see of a snapshot is what it holds.
pub proof fn law_seen_as_held(state: AuditState)
    ensures
        state.deep_view().mappings == state.mappings.deep_view(),
        state.deep_view().probes == state.probes.deep_view(),
{
}

} // verus!
