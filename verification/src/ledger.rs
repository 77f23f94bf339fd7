//! A store together with a ledger of the changes that were asked of it, in their order.
//!
//! A function that is handed a ledger says in its contract which changes it asked for: those that
//! the ledger holds in the end and did not hold before, and no others.

use vstd::prelude::*;

use crate::domain::PrefixConfig;
use crate::error::Error;
use crate::ports::{PrefixStore, ProbeStore, StatsStore};
use crate::probe::{ProbeEntry, ProbeView};
use crate::stats::{PrefixStats, StatsView};

verus! {

/// A prefix store, and the mappings that it was asked to confirm.
pub struct PrefixLedger<'a, S: PrefixStore + ?Sized> {
    store: &'a S,
    confirmed: Ghost<Seq<(Seq<char>, Seq<Seq<char>>)>>,
}

impl<'a, S: PrefixStore + ?Sized> PrefixLedger<'a, S> {
    /// The store.
    pub closed spec fn of(&self) -> &'a S {
        self.store
    }

    /// The keys and prefixes that the store was asked to confirm.
    pub closed spec fn confirmed(&self) -> Seq<(Seq<char>, Seq<Seq<char>>)> {
        self.confirmed@
    }

    /// The empty ledger of `store`.
    pub fn new(store: &'a S) -> (r: Self)
        ensures
            r.of() == store,
            r.confirmed().len() == 0,
    {
        PrefixLedger { store, confirmed: Ghost(Seq::empty()) }
    }

    /// Reads the config.
    pub fn load(&self) -> (r: PrefixConfig)
        ensures
            self.of().may_load(r.deep_view()),
    {
        self.store.load()
    }

    /// Has the store confirm `prefix` for `key`.
    pub fn confirm_mapping(&mut self, key: &str, prefix: &[String]) -> (r: Result<(), Error>)
        requires
            old(self).of().grants_confirm(key@, prefix.deep_view()),
        ensures
            final(self).of() == old(self).of(),
            final(self).of().may_confirm(key@, prefix.deep_view(), r),
            final(self).confirmed() == old(self).confirmed().push((key@, prefix.deep_view())),
    {
        let r = self.store.confirm_mapping(key, prefix);
        self.confirmed = Ghost(self.confirmed@.push((key@, prefix.deep_view())));
        r
    }
}

/// A probe store, and the lists of probes that it was asked to write.
pub struct ProbeLedger<'a, S: ProbeStore + ?Sized> {
    store: &'a S,
    written: Ghost<Seq<Seq<ProbeView>>>,
}

impl<'a, S: ProbeStore + ?Sized> ProbeLedger<'a, S> {
    /// The store.
    pub closed spec fn of(&self) -> &'a S {
        self.store
    }

    /// The lists that the store was asked to write.
    pub closed spec fn written(&self) -> Seq<Seq<ProbeView>> {
        self.written@
    }

    /// The empty ledger of `store`.
    pub fn new(store: &'a S) -> (r: Self)
        ensures
            r.of() == store,
            r.written().len() == 0,
    {
        ProbeLedger { store, written: Ghost(Seq::empty()) }
    }

    /// Reads the probes.
    pub fn load(&self) -> (r: Vec<ProbeEntry>)
        ensures
            self.of().may_load(r.deep_view()),
    {
        self.store.load()
    }

    /// Has the store replace the probes by `entries`.
    pub fn write(&mut self, entries: &[ProbeEntry]) -> (r: Result<(), Error>)
        requires
            old(self).of().grants_write(entries.deep_view()),
        ensures
            final(self).of() == old(self).of(),
            final(self).of().may_write(entries.deep_view(), r),
            final(self).written() == old(self).written().push(entries.deep_view()),
    {
        let r = self.store.write(entries);
        self.written = Ghost(self.written@.push(entries.deep_view()));
        r
    }
}

/// A stats store, and the stats that it was asked to save.
pub struct StatsLedger<'a, S: StatsStore + ?Sized> {
    store: &'a S,
    saved: Ghost<Seq<StatsView>>,
}

impl<'a, S: StatsStore + ?Sized> StatsLedger<'a, S> {
    /// The store.
    pub closed spec fn of(&self) -> &'a S {
        self.store
    }

    /// The stats that the store was asked to save.
    pub closed spec fn saved(&self) -> Seq<StatsView> {
        self.saved@
    }

    /// The empty ledger of `store`.
    pub fn new(store: &'a S) -> (r: Self)
        ensures
            r.of() == store,
            r.saved().len() == 0,
    {
        StatsLedger { store, saved: Ghost(Seq::empty()) }
    }

    /// Reads the stats.
    pub fn load(&self) -> (r: PrefixStats)
        ensures
            self.of().may_load(r.deep_view()),
    {
        self.store.load()
    }

    /// Has the store replace the stats by `stats`.
    pub fn save(&mut self, stats: &PrefixStats) -> (r: Result<(), Error>)
        requires
            old(self).of().grants_save(stats.deep_view()),
        ensures
            final(self).of() == old(self).of(),
            final(self).of().may_save(stats.deep_view(), r),
            final(self).saved() == old(self).saved().push(stats.deep_view()),
    {
        let r = self.store.save(stats);
        self.saved = Ghost(self.saved@.push(stats.deep_view()));
        r
    }
}

} // verus!
