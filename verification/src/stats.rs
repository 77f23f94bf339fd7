//! Running counters of the learning of prefixes.

use vstd::prelude::*;

use crate::table::Table;

verus! {

/// Running counters for a specific candidate prefix.
#[derive(Debug, Clone, Copy, PartialEq, Eq, Structural)]
pub struct PrefixCounters {
    pub tried: u64,
    pub confirmed: u64,
    pub failed: u64,
}

impl DeepView for PrefixCounters {
    type V = PrefixCounters;

    open spec fn deep_view(&self) -> PrefixCounters {
        *self
    }
}

/// The counters of a prefix that was never tried.
pub open spec fn no_counts() -> PrefixCounters {
    PrefixCounters { tried: 0, confirmed: 0, failed: 0 }
}

impl Default for PrefixCounters {
    fn default() -> (r: Self)
        ensures
            r == no_counts(),
    {
        PrefixCounters { tried: 0, confirmed: 0, failed: 0 }
    }
}

/// Running counters for a specific command key.
#[derive(Debug, PartialEq)]
pub struct CommandStats {
    pub probes_initiated: u64,
    /// Prefix tokens joined by `" "` when a mapping was confirmed.
    pub confirmed_prefix: Option<String>,
    /// ISO 8601 timestamp of the confirmation.
    pub confirmed_at: Option<String>,
}

/// What a [`CommandStats`] holds.
pub struct CommandStatsView {
    pub probes_initiated: u64,
    pub confirmed_prefix: Option<Seq<char>>,
    pub confirmed_at: Option<Seq<char>>,
}

impl DeepView for CommandStats {
    type V = CommandStatsView;

    open spec fn deep_view(&self) -> CommandStatsView {
        CommandStatsView {
            probes_initiated: self.probes_initiated,
            confirmed_prefix: self.confirmed_prefix.deep_view(),
            confirmed_at: self.confirmed_at.deep_view(),
        }
    }
}

/// The stats of a command for which nothing was ever tried.
pub open spec fn no_command_stats() -> CommandStatsView {
    CommandStatsView { probes_initiated: 0, confirmed_prefix: None, confirmed_at: None }
}

impl Default for CommandStats {
    fn default() -> (r: Self)
        ensures
            r.deep_view() == no_command_stats(),
    {
        CommandStats { probes_initiated: 0, confirmed_prefix: None, confirmed_at: None }
    }
}

impl Clone for CommandStats {
    fn clone(&self) -> (r: Self)
        ensures
            r.deep_view() == self.deep_view(),
    {
        CommandStats {
            probes_initiated: self.probes_initiated,
            confirmed_prefix: self.confirmed_prefix.clone(),
            confirmed_at: self.confirmed_at.clone(),
        }
    }
}

/// Global running totals.
#[derive(Debug, Clone, Copy, PartialEq, Eq, Structural)]
pub struct GlobalStats {
    pub probes_initiated: u64,
    pub probes_confirmed: u64,
    pub probes_exhausted: u64,
}

/// The totals before anything was tried.
pub open spec fn no_totals() -> GlobalStats {
    GlobalStats { probes_initiated: 0, probes_confirmed: 0, probes_exhausted: 0 }
}

impl Default for GlobalStats {
    fn default() -> (r: Self)
        ensures
            r == no_totals(),
    {
        GlobalStats { probes_initiated: 0, probes_confirmed: 0, probes_exhausted: 0 }
    }
}

/// Full stats snapshot.
#[derive(Debug, Clone)]
pub struct PrefixStats {
    pub global: GlobalStats,
    /// By prefix tokens joined by `" "` (e.g. `"op plugin run --"`).
    pub by_prefix: Table<PrefixCounters>,
    /// By command word (e.g. `"gh"`).
    pub by_command: Table<CommandStats>,
}

/// What a [`PrefixStats`] holds.
#[verifier::ext_equal]
pub struct StatsView {
    pub global: GlobalStats,
    pub by_prefix: Map<Seq<char>, PrefixCounters>,
    pub by_command: Map<Seq<char>, CommandStatsView>,
}

impl DeepView for PrefixStats {
    type V = StatsView;

    open spec fn deep_view(&self) -> StatsView {
        StatsView {
            global: self.global,
            by_prefix: self.by_prefix.deep_view(),
            by_command: self.by_command.deep_view(),
        }
    }
}

/// The stats before anything was tried.
pub open spec fn no_stats() -> StatsView {
    StatsView { global: no_totals(), by_prefix: Map::empty(), by_command: Map::empty() }
}

impl Default for PrefixStats {
    fn default() -> (r: Self)
        ensures
            r.deep_view() == no_stats(),
    {
        let r = PrefixStats {
            global: GlobalStats::default(),
            by_prefix: Table::new(),
            by_command: Table::new(),
        };
        assert(r.deep_view() =~= no_stats());
        r
    }
}

/// The counters of a prefix.
pub open spec fn counters_of(stats: StatsView, prefix: Seq<char>) -> PrefixCounters {
    if stats.by_prefix.contains_key(prefix) {
        stats.by_prefix[prefix]
    } else {
        no_counts()
    }
}

/// The stats of a command key.
pub open spec fn command_stats_of(stats: StatsView, key: Seq<char>) -> CommandStatsView {
    if stats.by_command.contains_key(key) {
        stats.by_command[key]
    } else {
        no_command_stats()
    }
}

/// Whether the counters that a new probe for `key` raises are not at their maximum.
pub open spec fn room_for_initiated(stats: StatsView, key: Seq<char>) -> bool {
    &&& stats.global.probes_initiated < u64::MAX
    &&& command_stats_of(stats, key).probes_initiated < u64::MAX
}

/// The stats after a new probe for `key` was written.
pub open spec fn after_initiated(stats: StatsView, key: Seq<char>) -> StatsView {
    let command = command_stats_of(stats, key);
    StatsView {
        global: GlobalStats {
            probes_initiated: (stats.global.probes_initiated + 1) as u64,
            ..stats.global
        },
        by_command: stats.by_command.insert(
            key,
            CommandStatsView {
                probes_initiated: (command.probes_initiated + 1) as u64,
                ..command
            },
        ),
        ..stats
    }
}

/// Whether the counters that a success with `prefix` raises are not at their maximum.
pub open spec fn room_for_confirmed(stats: StatsView, prefix: Seq<char>) -> bool {
    &&& stats.global.probes_confirmed < u64::MAX
    &&& counters_of(stats, prefix).tried < u64::MAX
    &&& counters_of(stats, prefix).confirmed < u64::MAX
}

/// The stats after `prefix` succeeded for `key` at the time `at`.
pub open spec fn after_confirmed(
    stats: StatsView,
    key: Seq<char>,
    prefix: Seq<char>,
    at: Seq<char>,
) -> StatsView {
    let counters = counters_of(stats, prefix);
    let command = command_stats_of(stats, key);
    StatsView {
        global: GlobalStats {
            probes_confirmed: (stats.global.probes_confirmed + 1) as u64,
            ..stats.global
        },
        by_prefix: stats.by_prefix.insert(
            prefix,
            PrefixCounters {
                tried: (counters.tried + 1) as u64,
                confirmed: (counters.confirmed + 1) as u64,
                ..counters
            },
        ),
        by_command: stats.by_command.insert(
            key,
            CommandStatsView {
                confirmed_prefix: Some(prefix),
                confirmed_at: Some(at),
                ..command
            },
        ),
    }
}

/// Whether the counters that a failure with `prefix` raises are not at their maximum.
pub open spec fn room_for_failed(stats: StatsView, prefix: Seq<char>, exhausted: bool) -> bool {
    &&& exhausted ==> stats.global.probes_exhausted < u64::MAX
    &&& counters_of(stats, prefix).tried < u64::MAX
    &&& counters_of(stats, prefix).failed < u64::MAX
}

/// The stats after `prefix` failed; `exhausted` tells that it was the last candidate.
pub open spec fn after_failed(stats: StatsView, prefix: Seq<char>, exhausted: bool) -> StatsView {
    let counters = counters_of(stats, prefix);
    StatsView {
        global: GlobalStats {
            probes_exhausted: if exhausted {
                (stats.global.probes_exhausted + 1) as u64
            } else {
                stats.global.probes_exhausted
            },
            ..stats.global
        },
        by_prefix: stats.by_prefix.insert(
            prefix,
            PrefixCounters {
                tried: (counters.tried + 1) as u64,
                failed: (counters.failed + 1) as u64,
                ..counters
            },
        ),
        ..stats
    }
}

/// Whether every attempt with a prefix was counted as a success or as a failure.
pub open spec fn balanced(stats: StatsView) -> bool {
    forall|prefix: Seq<char>| #[trigger]
        stats.by_prefix.contains_key(prefix) ==> stats.by_prefix[prefix].tried
            == stats.by_prefix[prefix].confirmed + stats.by_prefix[prefix].failed
}

/// Whether no total, and no counter of the prefix or command `name`, is lower in `after` than in
/// `before`.
pub open spec fn grown(before: StatsView, after: StatsView, name: Seq<char>) -> bool {
    let a = counters_of(before, name);
    let b = counters_of(after, name);
    &&& before.global.probes_initiated <= after.global.probes_initiated
    &&& before.global.probes_confirmed <= after.global.probes_confirmed
    &&& before.global.probes_exhausted <= after.global.probes_exhausted
    &&& a.tried <= b.tried && a.confirmed <= b.confirmed && a.failed <= b.failed
    &&& command_stats_of(before, name).probes_initiated <= command_stats_of(
        after,
        name,
    ).probes_initiated
}

/// The stats before anything was tried are balanced, and recording keeps them so: each attempt
/// raises `tried` and exactly one of `confirmed` and `failed`.
pub proof fn law_balanced(
    stats: StatsView,
    key: Seq<char>,
    prefix: Seq<char>,
    at: Seq<char>,
    exhausted: bool,
)
    requires
        balanced(stats),
    ensures
        balanced(no_stats()),
        balanced(after_initiated(stats, key)),
        room_for_confirmed(stats, prefix) ==> balanced(after_confirmed(stats, key, prefix, at)),
        room_for_failed(stats, prefix, exhausted) ==> balanced(
            after_failed(stats, prefix, exhausted),
        ),
{
}

/// Counters only ever grow.
pub proof fn law_counters_grow(
    stats: StatsView,
    key: Seq<char>,
    prefix: Seq<char>,
    at: Seq<char>,
    exhausted: bool,
    other: Seq<char>,
)
    ensures
        room_for_initiated(stats, key) ==> grown(stats, after_initiated(stats, key), other),
        room_for_confirmed(stats, prefix) ==> grown(
            stats,
            after_confirmed(stats, key, prefix, at),
            other,
        ),
        room_for_failed(stats, prefix, exhausted) ==> grown(
            stats,
            after_failed(stats, prefix, exhausted),
            other,
        ),
{
}

/// Recording touches the counters of one prefix and of one command only.
pub proof fn law_others_untouched(
    stats: StatsView,
    key: Seq<char>,
    prefix: Seq<char>,
    at: Seq<char>,
    exhausted: bool,
    other: Seq<char>,
)
    ensures
        other != key ==> command_stats_of(after_initiated(stats, key), other) == command_stats_of(
            stats,
            other,
        ),
        other != key ==> command_stats_of(after_confirmed(stats, key, prefix, at), other)
            == command_stats_of(stats, other),
        other != prefix ==> counters_of(after_confirmed(stats, key, prefix, at), other)
            == counters_of(stats, other),
        other != prefix ==> counters_of(after_failed(stats, prefix, exhausted), other)
            == counters_of(stats, other),
        counters_of(after_initiated(stats, key), other) == counters_of(stats, other),
        command_stats_of(after_failed(stats, prefix, exhausted), other) == command_stats_of(
            stats,
            other,
        ),
{
}

impl PrefixStats {
    /// The counters of a prefix.
    pub fn counters(&self, prefix: &str) -> (r: PrefixCounters)
        ensures
            r == counters_of(self.deep_view(), prefix@),
    {
        match self.by_prefix.get(prefix) {
            Some(counters) => *counters,
            None => PrefixCounters::default(),
        }
    }

    /// The stats of a command key.
    pub fn command(&self, key: &str) -> (r: CommandStats)
        ensures
            r.deep_view() == command_stats_of(self.deep_view(), key@),
    {
        match self.by_command.get(key) {
            Some(command) => command.clone(),
            None => CommandStats::default(),
        }
    }

    /// Whether a new probe for `key` can still be counted.
    pub fn can_record_initiated(&self, key: &str) -> (r: bool)
        ensures
            r == room_for_initiated(self.deep_view(), key@),
    {
        self.global.probes_initiated < u64::MAX && self.command(key).probes_initiated < u64::MAX
    }

    /// Counts a new probe for `key`.
    pub fn record_initiated(&mut self, key: &str)
        requires
            room_for_initiated(old(self).deep_view(), key@),
        ensures
            final(self).deep_view() == after_initiated(old(self).deep_view(), key@),
    {
        let mut command = self.command(key);
        command.probes_initiated = command.probes_initiated + 1;
        self.global.probes_initiated = self.global.probes_initiated + 1;
        self.by_command.insert(key.to_owned(), command);
        assert(self.deep_view() =~= after_initiated(old(self).deep_view(), key@));
    }

    /// Whether a success with `prefix` can still be counted.
    pub fn can_record_confirmed(&self, prefix: &str) -> (r: bool)
        ensures
            r == room_for_confirmed(self.deep_view(), prefix@),
    {
        let counters = self.counters(prefix);
        self.global.probes_confirmed < u64::MAX && counters.tried < u64::MAX && counters.confirmed
            < u64::MAX
    }

    /// Counts a success with `prefix` for `key` at the time `at`.
    pub fn record_confirmed(&mut self, key: &str, prefix: &str, at: String)
        requires
            room_for_confirmed(old(self).deep_view(), prefix@),
        ensures
            final(self).deep_view() == after_confirmed(old(self).deep_view(), key@, prefix@, at@),
    {
        let mut counters = self.counters(prefix);
        let mut command = self.command(key);
        counters.tried = counters.tried + 1;
        counters.confirmed = counters.confirmed + 1;
        command.confirmed_prefix = Some(prefix.to_owned());
        command.confirmed_at = Some(at);
        self.global.probes_confirmed = self.global.probes_confirmed + 1;
        self.by_prefix.insert(prefix.to_owned(), counters);
        self.by_command.insert(key.to_owned(), command);
        assert(self.deep_view() =~= after_confirmed(old(self).deep_view(), key@, prefix@, at@));
    }

    /// Whether a failure with `prefix` can still be counted.
    pub fn can_record_failed(&self, prefix: &str, exhausted: bool) -> (r: bool)
        ensures
            r == room_for_failed(self.deep_view(), prefix@, exhausted),
    {
        let counters = self.counters(prefix);
        (!exhausted || self.global.probes_exhausted < u64::MAX) && counters.tried < u64::MAX
            && counters.failed < u64::MAX
    }

    /// Counts a failure with `prefix`; `exhausted` tells that it was the last candidate.
    pub fn record_failed(&mut self, prefix: &str, exhausted: bool)
        requires
            room_for_failed(old(self).deep_view(), prefix@, exhausted),
        ensures
            final(self).deep_view() == after_failed(old(self).deep_view(), prefix@, exhausted),
    {
        let mut counters = self.counters(prefix);
        counters.tried = counters.tried + 1;
        counters.failed = counters.failed + 1;
        if exhausted {
            self.global.probes_exhausted = self.global.probes_exhausted + 1;
        }
        self.by_prefix.insert(prefix.to_owned(), counters);
        assert(self.deep_view() =~= after_failed(old(self).deep_view(), prefix@, exhausted));
    }
}

/// A new probe raises the total of probes and the count of its command by one, and leaves
/// everything else as it is. It is refused only where one of the two is at its maximum. A command
/// that was never counted starts from nothing.
pub proof fn law_initiated(stats: StatsView, key: Seq<char>)
    ensures
        room_for_initiated(stats, key) <==> stats.global.probes_initiated < u64::MAX && (
        stats.by_command.contains_key(key) ==> stats.by_command[key].probes_initiated < u64::MAX),
        after_initiated(stats, key).global.probes_confirmed == stats.global.probes_confirmed,
        after_initiated(stats, key).global.probes_exhausted == stats.global.probes_exhausted,
        after_initiated(stats, key).by_prefix == stats.by_prefix,
        after_initiated(stats, key).by_command.dom() == stats.by_command.dom().insert(key),
        after_initiated(stats, key).by_command.remove(key) == stats.by_command.remove(key),
        room_for_initiated(stats, key) ==> {
            let after = after_initiated(stats, key).by_command[key];
            &&& after_initiated(stats, key).global.probes_initiated
                == stats.global.probes_initiated + 1
            &&& stats.by_command.contains_key(key) ==> {
                let before = stats.by_command[key];
                &&& after.probes_initiated == before.probes_initiated + 1
                &&& after.confirmed_prefix == before.confirmed_prefix
                &&& after.confirmed_at == before.confirmed_at
            }
            &&& !stats.by_command.contains_key(key) ==> after == (CommandStatsView {
                probes_initiated: 1,
                confirmed_prefix: None,
                confirmed_at: None,
            })
        },
{
    assert(after_initiated(stats, key).by_command.remove(key) =~= stats.by_command.remove(key));
    assert(after_initiated(stats, key).by_command.dom() =~= stats.by_command.dom().insert(key));
}

/// A success raises the total of confirmations by one, and the attempts and successes of its
/// prefix; it notes the prefix and the time with its command; and it leaves everything else as it
/// is. It is refused only where one of the three counters is at its maximum.
pub proof fn law_confirmed(stats: StatsView, key: Seq<char>, prefix: Seq<char>, at: Seq<char>)
    ensures
        room_for_confirmed(stats, prefix) <==> stats.global.probes_confirmed < u64::MAX && (
        stats.by_prefix.contains_key(prefix) ==> stats.by_prefix[prefix].tried < u64::MAX
            && stats.by_prefix[prefix].confirmed < u64::MAX),
        ({
            let done = after_confirmed(stats, key, prefix, at);
            &&& done.global.probes_initiated == stats.global.probes_initiated
            &&& done.global.probes_exhausted == stats.global.probes_exhausted
            &&& done.by_prefix.dom() == stats.by_prefix.dom().insert(prefix)
            &&& done.by_prefix.remove(prefix) == stats.by_prefix.remove(prefix)
            &&& done.by_command.dom() == stats.by_command.dom().insert(key)
            &&& done.by_command.remove(key) == stats.by_command.remove(key)
            &&& done.by_command[key].confirmed_prefix == Some(prefix)
            &&& done.by_command[key].confirmed_at == Some(at)
            &&& stats.by_command.contains_key(key) ==> done.by_command[key].probes_initiated
                == stats.by_command[key].probes_initiated
            &&& !stats.by_command.contains_key(key) ==> done.by_command[key].probes_initiated == 0
            &&& room_for_confirmed(stats, prefix) ==> {
                let after = done.by_prefix[prefix];
                &&& done.global.probes_confirmed == stats.global.probes_confirmed + 1
                &&& stats.by_prefix.contains_key(prefix) ==> {
                    let before = stats.by_prefix[prefix];
                    &&& after.tried == before.tried + 1
                    &&& after.confirmed == before.confirmed + 1
                    &&& after.failed == before.failed
                }
                &&& !stats.by_prefix.contains_key(prefix) ==> after == (PrefixCounters {
                    tried: 1,
                    confirmed: 1,
                    failed: 0,
                })
            }
        }),
{
    let done = after_confirmed(stats, key, prefix, at);
    assert(done.by_prefix.remove(prefix) =~= stats.by_prefix.remove(prefix));
    assert(done.by_command.remove(key) =~= stats.by_command.remove(key));
    assert(done.by_prefix.dom() =~= stats.by_prefix.dom().insert(prefix));
    assert(done.by_command.dom() =~= stats.by_command.dom().insert(key));
}

/// A failure raises the attempts and failures of its prefix by one; where it was the last
/// candidate, it raises the total of exhausted probes too; and it leaves everything else as it is.
/// It is refused only where one of these counters is at its maximum.
pub proof fn law_failed(stats: StatsView, prefix: Seq<char>, exhausted: bool)
    ensures
        room_for_failed(stats, prefix, exhausted) <==> (exhausted ==> stats.global.probes_exhausted
            < u64::MAX) && (stats.by_prefix.contains_key(prefix) ==> stats.by_prefix[prefix].tried
            < u64::MAX && stats.by_prefix[prefix].failed < u64::MAX),
        ({
            let done = after_failed(stats, prefix, exhausted);
            &&& done.global.probes_initiated == stats.global.probes_initiated
            &&& done.global.probes_confirmed == stats.global.probes_confirmed
            &&& !exhausted ==> done.global.probes_exhausted == stats.global.probes_exhausted
            &&& done.by_command == stats.by_command
            &&& done.by_prefix.dom() == stats.by_prefix.dom().insert(prefix)
            &&& done.by_prefix.remove(prefix) == stats.by_prefix.remove(prefix)
            &&& room_for_failed(stats, prefix, exhausted) ==> {
                let after = done.by_prefix[prefix];
                &&& exhausted ==> done.global.probes_exhausted == stats.global.probes_exhausted + 1
                &&& stats.by_prefix.contains_key(prefix) ==> {
                    let before = stats.by_prefix[prefix];
                    &&& after.tried == before.tried + 1
                    &&& after.confirmed == before.confirmed
                    &&& after.failed == before.failed + 1
                }
                &&& !stats.by_prefix.contains_key(prefix) ==> after == (PrefixCounters {
                    tried: 1,
                    confirmed: 0,
                    failed: 1,
                })
            }
        }),
{
    let done = after_failed(stats, prefix, exhausted);
    assert(done.by_prefix.remove(prefix) =~= stats.by_prefix.remove(prefix));
    assert(done.by_prefix.dom() =~= stats.by_prefix.dom().insert(prefix));
}

/// Reading gives what is held under the name, and zeros where nothing is. Before anything was
/// tried, nothing is held and the totals are zero.
pub proof fn law_read(stats: StatsView, name: Seq<char>)
    ensures
        stats.by_prefix.contains_key(name) ==> counters_of(stats, name) == stats.by_prefix[name],
        !stats.by_prefix.contains_key(name) ==> counters_of(stats, name) == (PrefixCounters {
            tried: 0,
            confirmed: 0,
            failed: 0,
        }),
        stats.by_command.contains_key(name) ==> command_stats_of(stats, name)
            == stats.by_command[name],
        !stats.by_command.contains_key(name) ==> command_stats_of(stats, name) == (
        CommandStatsView { probes_initiated: 0, confirmed_prefix: None, confirmed_at: None }),
        !no_stats().by_prefix.contains_key(name),
        !no_stats().by_command.contains_key(name),
        no_stats().global == (GlobalStats {
            probes_initiated: 0,
            probes_confirmed: 0,
            probes_exhausted: 0,
        }),
{
}

/// What contracts see of stats, of all and of a command, is what they hold, field by field.
pub proof fn law_seen_as_held(stats: PrefixStats, command: CommandStats)
    ensures
        stats.deep_view().global == stats.global,
        stats.deep_view().by_prefix == stats.by_prefix.deep_view(),
        stats.deep_view().by_command == stats.by_command.deep_view(),
        command.deep_view().probes_initiated == command.probes_initiated,
        command.deep_view().confirmed_prefix == command.confirmed_prefix.deep_view(),
        command.deep_view().confirmed_at == command.confirmed_at.deep_view(),
{
}

} // verus!
