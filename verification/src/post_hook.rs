//! After a command ran: starting, judging and ending probes.

use vstd::prelude::*;

use crate::clock::{self, now_iso8601};
use crate::domain::{copy_words, ConfigView, OriginalCommand, PrefixConfig};
use crate::error::Error;
use crate::ledger::{PrefixLedger, ProbeLedger, StatsLedger};
use crate::outside::{self, shell_split, Reading};
use crate::payload::{self, OutputView, PostHookOutput};
use crate::ports::{PrefixStore, ProbeStore, StatsStore};
use crate::predicate::{self, evaluate_predicate};
use crate::probe::{self, find_probe, prefixed_command, ProbeEntry, ProbeState, ProbeView};
use crate::stats::{self, PrefixStats, StatsView};
use crate::text::{self, join, same_text, trim};

verus! {

/// The key of a command whose words are `words`: the first word, or the whole command where it
/// has none.
pub open spec fn key_of(words: Option<Seq<Seq<char>>>, command: Seq<char>) -> Seq<char> {
    match words {
        Some(w) => if w.len() > 0 {
            w[0]
        } else {
            text::trimmed(command)
        },
        None => text::trimmed(command),
    }
}

/// The key of a command.
pub open spec fn key_of_command(command: Seq<char>) -> Seq<char> {
    key_of(outside::shell_words_of(text::trimmed(command)), command)
}

/// Whether no probe belongs to `command`.
pub open spec fn has_no_probe(command: Seq<char>, probes: Seq<ProbeView>) -> bool {
    forall|i: int| 0 <= i < probes.len() ==> (#[trigger] probes[i]).original_command != command
}

/// Whether the failure of `command` starts a probe: there is a candidate, and none is being
/// tried for this command.
pub open spec fn starts_probe(
    command: Seq<char>,
    config: ConfigView,
    probes: Seq<ProbeView>,
) -> bool {
    config.candidate_prefixes.len() > 0 && has_no_probe(command, probes)
}

/// The probe of the first candidate for `command`.
pub open spec fn first_probe(
    command: Seq<char>,
    key: Seq<char>,
    config: ConfigView,
) -> ProbeView {
    ProbeView {
        key,
        prefix: config.candidate_prefixes[0].prefix,
        success_when: config.candidate_prefixes[0].success_when,
        original_command: command,
        state: ProbeState::Pending,
        candidate_index: 0,
    }
}

/// The probes after `command` failed bare.
pub open spec fn after_failure(
    command: Seq<char>,
    key: Seq<char>,
    config: ConfigView,
    probes: Seq<ProbeView>,
) -> Seq<ProbeView> {
    if starts_probe(command, config, probes) {
        probes.push(first_probe(command, key, config))
    } else {
        probes
    }
}

/// The answer to a bare failure of `command`.
pub open spec fn failure_output(
    command: Seq<char>,
    config: ConfigView,
    probes: Seq<ProbeView>,
) -> OutputView {
    if starts_probe(command, config, probes) {
        payload::says(
            "Command failed. Retry with: "@ + probe::prefixed(
                config.candidate_prefixes[0].prefix,
                command,
            ),
        )
    } else {
        payload::says_nothing()
    }
}

/// Where the probe stands whose retry `command` is; the end of `probes` where none does.
pub open spec fn probing_at(probes: Seq<ProbeView>, command: Seq<char>) -> int {
    probe::seek(probes, ProbeState::Probing, command, 0)
}

/// Whether a candidate comes after the one that `probe` tries.
pub open spec fn has_next(probe: ProbeView, config: ConfigView) -> bool {
    probe.candidate_index + 1 < config.candidate_prefixes.len()
}

/// The probe of the next candidate for the command of `probe`.
pub open spec fn next_probe(probe: ProbeView, config: ConfigView) -> ProbeView {
    let next = config.candidate_prefixes[(probe.candidate_index + 1) as int];
    ProbeView {
        key: probe.key,
        prefix: next.prefix,
        success_when: next.success_when,
        original_command: probe.original_command,
        state: ProbeState::Pending,
        candidate_index: probe.candidate_index + 1,
    }
}

/// The probes after the attempt of the probe at `i` passed or failed: it is gone, and where it
/// failed and a candidate is left, that one's probe is the last.
pub open spec fn after_result(
    probes: Seq<ProbeView>,
    i: int,
    passed: bool,
    config: ConfigView,
) -> Seq<ProbeView> {
    if !passed && has_next(probes[i], config) {
        probes.remove(i).push(next_probe(probes[i], config))
    } else {
        probes.remove(i)
    }
}

/// The answer to the result of an attempt of `probe`.
pub open spec fn result_output(probe: ProbeView, passed: bool, config: ConfigView) -> OutputView {
    payload::says(
        if passed {
            "Candidate `"@ + text::joined(probe.prefix) + "` succeeded for `"@
                + probe.original_command + "` — mapping confirmed."@
        } else if has_next(probe, config) {
            "Candidate failed. Retry with: "@ + probe::prefixed(
                next_probe(probe, config).prefix,
                probe.original_command,
            )
        } else {
            "All candidates failed for `"@ + probe.original_command
                + "`. Add a confirmed mapping manually or specify a prefix to try."@
        },
    )
}

/// Whether the counters that the result of `probe` raises are not at their maximum.
pub open spec fn room_for_result(
    stats: StatsView,
    probe: ProbeView,
    passed: bool,
    config: ConfigView,
) -> bool {
    if passed {
        stats::room_for_confirmed(stats, text::joined(probe.prefix))
    } else {
        stats::room_for_failed(stats, text::joined(probe.prefix), !has_next(probe, config))
    }
}

/// The stats after the result of `probe`; `at` is the time of a confirmation.
pub open spec fn stats_after_result(
    stats: StatsView,
    probe: ProbeView,
    passed: bool,
    config: ConfigView,
    at: Seq<char>,
) -> StatsView {
    if passed {
        stats::after_confirmed(stats, probe.key, text::joined(probe.prefix), at)
    } else {
        stats::after_failed(stats, text::joined(probe.prefix), !has_next(probe, config))
    }
}

/// The key of a command whose words are `words`.
pub fn key_from_words(words: &Option<Vec<String>>, command: &str) -> (r: String)
    ensures
        r@ == key_of(words.deep_view(), command@),
{
    if let Some(words) = words {
        if words.len() > 0 {
            return words[0].clone();
        }
    }
    trim(command).to_owned()
}

/// The leading command word of a shell command; the command itself, trimmed, where it cannot be
/// split into words or has none.
pub fn command_key(cmd: &str) -> (r: String)
    ensures
        r@ == key_of_command(cmd@),
{
    let words = shell_split(trim(cmd));
    key_from_words(&words, cmd)
}

/// Starts a probe of the first candidate for `command`, unless there is no candidate or the
/// command has a probe already. Returns what is to be answered.
pub fn begin_probe(
    command: &str,
    key: &str,
    config: &PrefixConfig,
    probes: &mut Vec<ProbeEntry>,
) -> (r: PostHookOutput)
    ensures
        final(probes).deep_view() == after_failure(
            command@,
            key@,
            config.deep_view(),
            old(probes).deep_view(),
        ),
        r.deep_view() == failure_output(command@, config.deep_view(), old(probes).deep_view()),
{
    let ghost before = probes.deep_view();
    if config.candidate_prefixes.len() == 0 {
        return PostHookOutput::silent();
    }
    let mut i: usize = 0;
    while i < probes.len()
        invariant
            before == probes.deep_view(),
            before == old(probes).deep_view(),
            config.candidate_prefixes@.len() > 0,
            i <= probes.len(),
            forall|k: int| 0 <= k < i ==> (#[trigger] before[k]).original_command != command@,
        decreases probes.len() - i,
    {
        assert(before[i as int] == probes@[i as int].deep_view());
        if same_text(probes[i].original_command.as_str(), command) {
            return PostHookOutput::silent();
        }
        i += 1;
    }
    let candidate = &config.candidate_prefixes[0];
    let mut message = "Command failed. Retry with: ".to_owned();
    message.append(prefixed_command(candidate.prefix.as_slice(), command).as_str());
    let probe = ProbeEntry {
        key: key.to_owned(),
        prefix: copy_words(candidate.prefix.as_slice()),
        success_when: candidate.success_when.clone(),
        original_command: OriginalCommand::from(command),
        state: ProbeState::Pending,
        candidate_index: 0,
    };
    proof {
        assert(config.deep_view().candidate_prefixes[0] == candidate.deep_view());
        assert(probe.deep_view() == first_probe(command@, key@, config.deep_view()));
    }
    probes.push(probe);
    assert(probes.deep_view() =~= before.push(first_probe(command@, key@, config.deep_view())));
    PostHookOutput::allow_with_message(message)
}

/// Ends the attempt of the probe at `i`: takes it out, and where it failed and a candidate is
/// left, puts that one's probe last. Returns what is to be answered.
pub fn end_attempt(
    probes: &mut Vec<ProbeEntry>,
    i: usize,
    passed: bool,
    config: &PrefixConfig,
) -> (r: PostHookOutput)
    requires
        i < old(probes)@.len(),
    ensures
        final(probes).deep_view() == after_result(
            old(probes).deep_view(),
            i as int,
            passed,
            config.deep_view(),
        ),
        r.deep_view() == result_output(
            old(probes).deep_view()[i as int],
            passed,
            config.deep_view(),
        ),
{
    let ghost before = probes.deep_view();
    let ghost v = before[i as int];
    let probe = probes.remove(i);
    assert(probe.deep_view() == v);
    assert(probes.deep_view() =~= before.remove(i as int));
    if passed {
        let mut message = "Candidate `".to_owned();
        message.append(join(probe.prefix.as_slice()).as_str());
        message.append("` succeeded for `");
        message.append(probe.original_command.as_str());
        message.append("` — mapping confirmed.");
        return PostHookOutput::allow_with_message(message);
    }
    let count = config.candidate_prefixes.len();
    if probe.candidate_index < count && probe.candidate_index + 1 < count {
        let next_index: usize = probe.candidate_index + 1;
        let next = &config.candidate_prefixes[next_index];
        assert(config.deep_view().candidate_prefixes[next_index as int] == next.deep_view());
        let mut message = "Candidate failed. Retry with: ".to_owned();
        message.append(
            prefixed_command(next.prefix.as_slice(), probe.original_command.as_str()).as_str(),
        );
        let retry = ProbeEntry {
            key: probe.key,
            prefix: copy_words(next.prefix.as_slice()),
            success_when: next.success_when.clone(),
            original_command: probe.original_command,
            state: ProbeState::Pending,
            candidate_index: next_index,
        };
        assert(retry.deep_view() == next_probe(v, config.deep_view()));
        probes.push(retry);
        assert(probes.deep_view() =~= after_result(before, i as int, passed, config.deep_view()));
        PostHookOutput::allow_with_message(message)
    } else {
        let mut message = "All candidates failed for `".to_owned();
        message.append(probe.original_command.as_str());
        message.append("`. Add a confirmed mapping manually or specify a prefix to try.");
        PostHookOutput::allow_with_message(message)
    }
}

/// Counts the result of `probe` in `stats`; `at` is the time of a confirmation. Returns `false`,
/// with nothing counted, where a counter is at its maximum.
pub fn count_result(
    stats: &mut PrefixStats,
    probe: &ProbeEntry,
    passed: bool,
    config: &PrefixConfig,
    at: String,
) -> (r: bool)
    ensures
        r == room_for_result(
            old(stats).deep_view(),
            probe.deep_view(),
            passed,
            config.deep_view(),
        ),
        r ==> final(stats).deep_view() == stats_after_result(
            old(stats).deep_view(),
            probe.deep_view(),
            passed,
            config.deep_view(),
            at@,
        ),
        !r ==> final(stats).deep_view() == old(stats).deep_view(),
{
    let prefix = join(probe.prefix.as_slice());
    if passed {
        if !stats.can_record_confirmed(prefix.as_str()) {
            return false;
        }
        stats.record_confirmed(probe.key.as_str(), prefix.as_str(), at);
    } else {
        let count = config.candidate_prefixes.len();
        let exhausted = !(probe.candidate_index < count && probe.candidate_index + 1 < count);
        if !stats.can_record_failed(prefix.as_str(), exhausted) {
            return false;
        }
        stats.record_failed(prefix.as_str(), exhausted);
    }
    true
}

/// Whether the stores grant what a bare failure of `command`, whose key is `key`, may change:
/// where it starts a probe, that probe may be written behind those held, and be counted. Nothing
/// is to be confirmed.
pub open spec fn grants_failure<
    P: PrefixStore + ?Sized,
    Q: ProbeStore + ?Sized,
    R: StatsStore + ?Sized,
>(
    command: Seq<char>,
    key: Seq<char>,
    prefix_store: &P,
    probe_store: &Q,
    stats_store: &R,
) -> bool {
    &&& forall|config: ConfigView, probes: Seq<ProbeView>| #[trigger]
        prefix_store.may_load(config) && #[trigger] probe_store.may_load(probes) && starts_probe(
            command,
            config,
            probes,
        ) ==> probe_store.grants_write(after_failure(command, key, config, probes))
    &&& forall|config: ConfigView, probes: Seq<ProbeView>, stats: StatsView| #[trigger]
        prefix_store.may_load(config) && #[trigger] probe_store.may_load(probes) && #[trigger]
        stats_store.may_load(stats) && starts_probe(command, config, probes)
            && stats::room_for_initiated(stats, key) ==> stats_store.grants_save(
            stats::after_initiated(stats, key),
        )
}

/// Handles a bare command failure: writes a pending probe of the first candidate, once, and
/// answers with the retry to make.
///
/// Does nothing, and says nothing, if no candidates are configured or the command has a probe
/// already. A new probe is counted in the stats, once, unless a counter is at its maximum: then
/// the stats are left as they are. No mapping is ever confirmed.
pub fn handle_failure<
    P: PrefixStore + ?Sized,
    Q: ProbeStore + ?Sized,
    R: StatsStore + ?Sized,
>(
    command: &str,
    prefix_store: &P,
    probe_store: &mut ProbeLedger<Q>,
    stats_store: &mut StatsLedger<R>,
) -> (r: PostHookOutput)
    requires
        grants_failure(
            command@,
            key_of_command(command@),
            prefix_store,
            old(probe_store).of(),
            old(stats_store).of(),
        ),
    ensures
        final(probe_store).of() == old(probe_store).of(),
        final(stats_store).of() == old(stats_store).of(),
        exists|config: ConfigView| #[trigger]
            prefix_store.may_load(config) && if config.candidate_prefixes.len() == 0 {
                &&& r.deep_view() == payload::says_nothing()
                &&& final(probe_store).written() == old(probe_store).written()
                &&& final(stats_store).saved() == old(stats_store).saved()
            } else {
                exists|probes: Seq<ProbeView>| #[trigger]
                    old(probe_store).of().may_load(probes) && r.deep_view() == failure_output(
                        command@,
                        config,
                        probes,
                    ) && if starts_probe(command@, config, probes) {
                        let key = key_of_command(command@);
                        let list = after_failure(command@, key, config, probes);
                        &&& final(probe_store).written() == old(probe_store).written().push(list)
                        &&& exists|result: Result<(), Error>| #[trigger]
                            old(probe_store).of().may_write(list, result)
                        &&& exists|stats: StatsView| #[trigger]
                            old(stats_store).of().may_load(stats) && if stats::room_for_initiated(
                                stats,
                                key,
                            ) {
                                let counted = stats::after_initiated(stats, key);
                                &&& final(stats_store).saved() == old(stats_store).saved().push(
                                    counted,
                                )
                                &&& exists|result: Result<(), Error>| #[trigger]
                                    old(stats_store).of().may_save(counted, result)
                            } else {
                                final(stats_store).saved() == old(stats_store).saved()
                            }
                    } else {
                        &&& final(probe_store).written() == old(probe_store).written()
                        &&& final(stats_store).saved() == old(stats_store).saved()
                    }
            },
{
    let config = prefix_store.load();
    if config.candidate_prefixes.len() == 0 {
        return PostHookOutput::silent();
    }
    let key = command_key(command);
    let mut probes = probe_store.load();
    let ghost loaded = probes.deep_view();
    let out = begin_probe(command, key.as_str(), &config, &mut probes);
    if out.system_message.is_none() {
        return out;
    }
    assert(starts_probe(command@, config.deep_view(), loaded));
    let _written = probe_store.write(probes.as_slice());
    let mut stats = stats_store.load();
    if stats.can_record_initiated(key.as_str()) {
        stats.record_initiated(key.as_str());
        let _saved = stats_store.save(&stats);
    }
    out
}

/// Settles the attempt of the probe at `i` of `probes`, which passed or failed: has the mapping
/// confirmed, once, where it passed, and only there; has the probes written, once; and has the
/// stats saved with the result counted, once, unless a counter is at its maximum. `at` is the time
/// of a confirmation.
pub fn settle<
    P: PrefixStore + ?Sized,
    Q: ProbeStore + ?Sized,
    R: StatsStore + ?Sized,
>(
    probes: Vec<ProbeEntry>,
    i: usize,
    passed: bool,
    config: &PrefixConfig,
    stats: PrefixStats,
    at: String,
    prefix_store: &mut PrefixLedger<P>,
    probe_store: &mut ProbeLedger<Q>,
    stats_store: &mut StatsLedger<R>,
) -> (r: PostHookOutput)
    requires
        i < probes@.len(),
        grants_result(
            probes.deep_view(),
            i as int,
            passed,
            config.deep_view(),
            old(prefix_store).of(),
            old(probe_store).of(),
        ),
        room_for_result(
            stats.deep_view(),
            probes.deep_view()[i as int],
            passed,
            config.deep_view(),
        ) ==> old(stats_store).of().grants_save(
            stats_after_result(
                stats.deep_view(),
                probes.deep_view()[i as int],
                passed,
                config.deep_view(),
                at@,
            ),
        ),
    ensures
        r.deep_view() == result_output(
            probes.deep_view()[i as int],
            passed,
            config.deep_view(),
        ),
        final(prefix_store).of() == old(prefix_store).of(),
        final(probe_store).of() == old(probe_store).of(),
        final(stats_store).of() == old(stats_store).of(),
        settled(
            probes.deep_view(),
            i as int,
            passed,
            config.deep_view(),
            stats.deep_view(),
            at@,
            *old(prefix_store),
            *final(prefix_store),
            *old(probe_store),
            *final(probe_store),
            *old(stats_store),
            *final(stats_store),
        ),
{
    let mut probes = probes;
    let mut stats = stats;
    let ghost held = probes.deep_view();
    assert(held[i as int] == probes@[i as int].deep_view());
    if passed {
        let _confirmed = prefix_store.confirm_mapping(
            probes[i].key.as_str(),
            probes[i].prefix.as_slice(),
        );
    }
    let counted = count_result(&mut stats, &probes[i], passed, config, at);
    let out = end_attempt(&mut probes, i, passed, config);
    let _written = probe_store.write(probes.as_slice());
    if counted {
        let _saved = stats_store.save(&stats);
    }
    out
}

/// Whether the stores grant what the result of the probe at `i` changes: the probes after it may
/// be written, and, where it passed, its mapping may be confirmed.
pub open spec fn grants_result<P: PrefixStore + ?Sized, Q: ProbeStore + ?Sized>(
    probes: Seq<ProbeView>,
    i: int,
    passed: bool,
    config: ConfigView,
    prefix_store: &P,
    probe_store: &Q,
) -> bool {
    &&& probe_store.grants_write(after_result(probes, i, passed, config))
    &&& passed ==> prefix_store.grants_confirm(probes[i].key, probes[i].prefix)
}

/// Whether the three ledgers hold, behind what they held before, exactly the changes that the
/// result of the probe at `i` makes.
pub open spec fn settled<
    P: PrefixStore + ?Sized,
    Q: ProbeStore + ?Sized,
    R: StatsStore + ?Sized,
>(
    probes: Seq<ProbeView>,
    i: int,
    passed: bool,
    config: ConfigView,
    stats: StatsView,
    at: Seq<char>,
    prefixes_before: PrefixLedger<P>,
    prefixes_after: PrefixLedger<P>,
    probes_before: ProbeLedger<Q>,
    probes_after: ProbeLedger<Q>,
    stats_before: StatsLedger<R>,
    stats_after: StatsLedger<R>,
) -> bool {
    let probe = probes[i];
    let list = after_result(probes, i, passed, config);
    let counted = stats_after_result(stats, probe, passed, config, at);
    &&& probes_after.written() == probes_before.written().push(list)
    &&& exists|result: Result<(), Error>| #[trigger] probes_before.of().may_write(list, result)
    &&& if passed {
        &&& prefixes_after.confirmed() == prefixes_before.confirmed().push(
            (probe.key, probe.prefix),
        )
        &&& exists|result: Result<(), Error>| #[trigger]
            prefixes_before.of().may_confirm(probe.key, probe.prefix, result)
    } else {
        prefixes_after.confirmed() == prefixes_before.confirmed()
    }
    &&& if room_for_result(stats, probe, passed, config) {
        &&& stats_after.saved() == stats_before.saved().push(counted)
        &&& exists|result: Result<(), Error>| #[trigger]
            stats_before.of().may_save(counted, result)
    } else {
        stats_after.saved() == stats_before.saved()
    }
}

/// Whether the attempt that the probe at `i` waited for passed.
pub open spec fn attempt_passed(
    probes: Seq<ProbeView>,
    i: int,
    exit_code: i64,
    stdout: Seq<char>,
    stderr: Seq<char>,
) -> bool {
    predicate::succeeded(probes[i].success_when, exit_code, stdout, stderr)
}

/// Whether the stores grant what the result of running `command` may change: where a probe waits
/// for it, the probes after the result may be written and the result be counted; and, where the
/// attempt passed, and only there, the mapping may be confirmed.
pub open spec fn grants_attempt<
    P: PrefixStore + ?Sized,
    Q: ProbeStore + ?Sized,
    R: StatsStore + ?Sized,
>(
    command: Seq<char>,
    exit_code: i64,
    stdout: Seq<char>,
    stderr: Seq<char>,
    prefix_store: &P,
    probe_store: &Q,
    stats_store: &R,
) -> bool {
    &&& forall|probes: Seq<ProbeView>, config: ConfigView| #[trigger]
        probe_store.may_load(probes) && #[trigger] prefix_store.may_load(config) && probing_at(
            probes,
            command,
        ) < probes.len() ==> grants_result(
            probes,
            probing_at(probes, command),
            attempt_passed(probes, probing_at(probes, command), exit_code, stdout, stderr),
            config,
            prefix_store,
            probe_store,
        )
    &&& forall|
        probes: Seq<ProbeView>,
        config: ConfigView,
        stats: StatsView,
        secs: u64,
        at: Seq<char>,
    | #[trigger]
        probe_store.may_load(probes) && #[trigger] prefix_store.may_load(config) && #[trigger]
        stats_store.may_load(stats) && #[trigger] clock::is_stamp(secs, at) && probing_at(
            probes,
            command,
        ) < probes.len() && room_for_result(
            stats,
            probes[probing_at(probes, command)],
            attempt_passed(probes, probing_at(probes, command), exit_code, stdout, stderr),
            config,
        ) ==> stats_store.grants_save(
            stats_after_result(
                stats,
                probes[probing_at(probes, command)],
                attempt_passed(probes, probing_at(probes, command), exit_code, stdout, stderr),
                config,
                at,
            ),
        )
}

/// Handles the result of a retry.
///
/// Finds the probe in state `Probing` that waits for `command`, and judges the attempt. Where it
/// succeeded, and only there, the mapping is confirmed; where it failed, the next candidate is
/// tried, or, after the last, the probe ends. Says nothing, and changes nothing, where no probe
/// waits for `command`.
///
/// The result is counted in the stats, unless a counter is at its maximum: then the stats are
/// left as they are.
pub fn handle_probe_result<
    P: PrefixStore + ?Sized,
    Q: ProbeStore + ?Sized,
    R: StatsStore + ?Sized,
>(
    command: &str,
    exit_code: i64,
    stdout: &str,
    stderr: &str,
    prefix_store: &mut PrefixLedger<P>,
    probe_store: &mut ProbeLedger<Q>,
    stats_store: &mut StatsLedger<R>,
) -> (r: PostHookOutput)
    requires
        grants_attempt(
            command@,
            exit_code,
            stdout@,
            stderr@,
            old(prefix_store).of(),
            old(probe_store).of(),
            old(stats_store).of(),
        ),
    ensures
        final(prefix_store).of() == old(prefix_store).of(),
        final(probe_store).of() == old(probe_store).of(),
        final(stats_store).of() == old(stats_store).of(),
        exists|probes: Seq<ProbeView>| #[trigger]
            old(probe_store).of().may_load(probes) && if probing_at(probes, command@)
                >= probes.len() {
                &&& r.deep_view() == payload::says_nothing()
                &&& final(prefix_store).confirmed() == old(prefix_store).confirmed()
                &&& final(probe_store).written() == old(probe_store).written()
                &&& final(stats_store).saved() == old(stats_store).saved()
            } else {
                let i = probing_at(probes, command@);
                let passed = attempt_passed(probes, i, exit_code, stdout@, stderr@);
                exists|config: ConfigView, stats: StatsView, reading: Reading, at: Seq<char>|
                    {
                        &&& #[trigger] old(prefix_store).of().may_load(config)
                        &&& #[trigger] old(stats_store).of().may_load(stats)
                        &&& #[trigger] clock::is_stamp_of(reading, at)
                        &&& r.deep_view() == result_output(probes[i], passed, config)
                        &&& settled(
                            probes,
                            i,
                            passed,
                            config,
                            stats,
                            at,
                            *old(prefix_store),
                            *final(prefix_store),
                            *old(probe_store),
                            *final(probe_store),
                            *old(stats_store),
                            *final(stats_store),
                        )
                    }
            },
{
    let probes = probe_store.load();
    let i = match find_probe(probes.as_slice(), ProbeState::Probing, command) {
        Some(i) => i,
        None => {
            return PostHookOutput::silent();
        },
    };
    let config = prefix_store.load();
    let stats = stats_store.load();
    let passed = evaluate_predicate(&probes[i].success_when, exit_code, stdout, stderr);
    let at = now_iso8601();
    assert(probes.deep_view()[i as int] == probes@[i as int].deep_view());
    settle(probes, i, passed, &config, stats, at, prefix_store, probe_store, stats_store)
}

/// The key of a command is its first word; where it cannot be split into words, or has none, it is
/// the command without the white space around it.
pub proof fn law_key(words: Option<Seq<Seq<char>>>, command: Seq<char>)
    ensures
        words is Some && words->0.len() > 0 ==> key_of(words, command) == words->0[0],
        words is None || words->0.len() == 0 ==> key_of(words, command) == text::trimmed(command),
        key_of_command(command) == key_of(
            outside::shell_words_of(text::trimmed(command)),
            command,
        ),
{
}

/// The failure of a command starts a probe wherever there is a candidate and no probe of that very
/// command: behind the probes held, for the first candidate, waiting for a retry; and the answer
/// names the retry. Nothing else matters: neither the mappings, nor probes of other commands.
pub proof fn law_failure_starts_probe(
    command: Seq<char>,
    key: Seq<char>,
    config: ConfigView,
    probes: Seq<ProbeView>,
)
    requires
        config.candidate_prefixes.len() > 0,
        forall|i: int| 0 <= i < probes.len() ==> (#[trigger] probes[i]).original_command != command,
    ensures
        starts_probe(command, config, probes),
        after_failure(command, key, config, probes) == probes.push(
            ProbeView {
                key,
                prefix: config.candidate_prefixes[0].prefix,
                success_when: config.candidate_prefixes[0].success_when,
                original_command: command,
                state: ProbeState::Pending,
                candidate_index: 0,
            },
        ),
        failure_output(command, config, probes) == (OutputView {
            decision: Some("allow"@),
            system_message: Some(
                "Command failed. Retry with: "@ + (text::joined(config.candidate_prefixes[0].prefix)
                    + seq![' '] + command),
            ),
        }),
{
}

/// Without a candidate, and where the command has a probe already, in whatever state, its failure
/// changes nothing and nothing is said.
pub proof fn law_failure_ignored(
    command: Seq<char>,
    key: Seq<char>,
    config: ConfigView,
    probes: Seq<ProbeView>,
)
    requires
        config.candidate_prefixes.len() == 0 || exists|i: int|
            0 <= i < probes.len() && (#[trigger] probes[i]).original_command == command,
    ensures
        !starts_probe(command, config, probes),
        after_failure(command, key, config, probes) == probes,
        failure_output(command, config, probes) == (OutputView {
            decision: Some("allow"@),
            system_message: None,
        }),
{
}

/// A result belongs to the first probing probe whose prefix, a space and its command are, up to
/// white space around them, the command that ran. Where there is none, it belongs to no probe.
pub proof fn law_result_of(probes: Seq<ProbeView>, command: Seq<char>, i: int)
    ensures
        0 <= i < probes.len() && probes[i].state == ProbeState::Probing && text::trimmed(
            text::joined(probes[i].prefix) + seq![' '] + probes[i].original_command,
        ) == text::trimmed(command) && (forall|j: int|
            0 <= j < i && (#[trigger] probes[j]).state == ProbeState::Probing ==> text::trimmed(
                text::joined(probes[j].prefix) + seq![' '] + probes[j].original_command,
            ) != text::trimmed(command)) ==> probing_at(probes, command) == i,
        (forall|j: int|
            0 <= j < probes.len() && (#[trigger] probes[j]).state == ProbeState::Probing
                ==> text::trimmed(
                text::joined(probes[j].prefix) + seq![' '] + probes[j].original_command,
            ) != text::trimmed(command)) ==> probing_at(probes, command) == probes.len(),
{
    probe::law_first_found(probes, ProbeState::Probing, command, i);
}

/// A failed attempt, with whichever candidate it was, is followed by one with the candidate behind
/// it in the list, where there is one: its probe takes the place of the failed one at the end,
/// waiting for a retry of the same command, and the answer names that retry. The totals stay as
/// they are: the candidates are not exhausted.
pub proof fn law_failed_tries_next(
    probes: Seq<ProbeView>,
    i: int,
    next: int,
    config: ConfigView,
    stats: StatsView,
    at: Seq<char>,
)
    requires
        0 <= i < probes.len(),
        next == probes[i].candidate_index + 1,
        next < config.candidate_prefixes.len(),
    ensures
        after_result(probes, i, false, config) == probes.remove(i).push(
            ProbeView {
                key: probes[i].key,
                prefix: config.candidate_prefixes[next].prefix,
                success_when: config.candidate_prefixes[next].success_when,
                original_command: probes[i].original_command,
                state: ProbeState::Pending,
                candidate_index: next as nat,
            },
        ),
        result_output(probes[i], false, config) == (OutputView {
            decision: Some("allow"@),
            system_message: Some(
                "Candidate failed. Retry with: "@ + (text::joined(
                    config.candidate_prefixes[next].prefix,
                ) + seq![' '] + probes[i].original_command),
            ),
        }),
        stats_after_result(stats, probes[i], false, config, at).global == stats.global,
        stats_after_result(stats, probes[i], false, config, at) == stats::after_failed(
            stats,
            text::joined(probes[i].prefix),
            false,
        ),
        room_for_result(stats, probes[i], false, config) == stats::room_for_failed(
            stats,
            text::joined(probes[i].prefix),
            false,
        ),
{
}

/// A failed attempt with the last candidate, or with one behind it in a list that has grown
/// shorter, ends the probe, and the answer says so. The end is counted.
pub proof fn law_failed_last_ends(
    probes: Seq<ProbeView>,
    i: int,
    config: ConfigView,
    stats: StatsView,
    at: Seq<char>,
)
    requires
        0 <= i < probes.len(),
        probes[i].candidate_index + 1 >= config.candidate_prefixes.len(),
    ensures
        after_result(probes, i, false, config) == probes.remove(i),
        result_output(probes[i], false, config) == (OutputView {
            decision: Some("allow"@),
            system_message: Some(
                "All candidates failed for `"@ + probes[i].original_command
                    + "`. Add a confirmed mapping manually or specify a prefix to try."@,
            ),
        }),
        stats_after_result(stats, probes[i], false, config, at) == stats::after_failed(
            stats,
            text::joined(probes[i].prefix),
            true,
        ),
        room_for_result(stats, probes[i], false, config) == stats::room_for_failed(
            stats,
            text::joined(probes[i].prefix),
            true,
        ),
{
}

/// An attempt that passed ends the probe, whatever candidates are left, and the answer names the
/// prefix and the command. It is counted for that prefix and for the key of the probe.
pub proof fn law_passed_ends(
    probes: Seq<ProbeView>,
    i: int,
    config: ConfigView,
    stats: StatsView,
    at: Seq<char>,
)
    requires
        0 <= i < probes.len(),
    ensures
        after_result(probes, i, true, config) == probes.remove(i),
        result_output(probes[i], true, config) == (OutputView {
            decision: Some("allow"@),
            system_message: Some(
                "Candidate `"@ + text::joined(probes[i].prefix) + "` succeeded for `"@
                    + probes[i].original_command + "` — mapping confirmed."@,
            ),
        }),
        stats_after_result(stats, probes[i], true, config, at) == stats::after_confirmed(
            stats,
            probes[i].key,
            text::joined(probes[i].prefix),
            at,
        ),
        room_for_result(stats, probes[i], true, config) == stats::room_for_confirmed(
            stats,
            text::joined(probes[i].prefix),
        ),
{
}

/// An attempt is judged by what its own probe asks for.
pub proof fn law_attempt_judged(
    probes: Seq<ProbeView>,
    i: int,
    exit_code: i64,
    stdout: Seq<char>,
    stderr: Seq<char>,
)
    ensures
        attempt_passed(probes, i, exit_code, stdout, stderr) == predicate::succeeded(
            probes[i].success_when,
            exit_code,
            stdout,
            stderr,
        ),
{
}

/// Settling a result changes each store at most once: the probes after the result are written; the
/// probe's own key and prefix are confirmed where the attempt passed, and nothing is where it
/// failed; and the result is counted where no counter is at its maximum.
pub proof fn law_settled<
    P: PrefixStore + ?Sized,
    Q: ProbeStore + ?Sized,
    R: StatsStore + ?Sized,
>(
    probes: Seq<ProbeView>,
    i: int,
    passed: bool,
    config: ConfigView,
    stats: StatsView,
    at: Seq<char>,
    prefixes_before: PrefixLedger<P>,
    prefixes_after: PrefixLedger<P>,
    probes_before: ProbeLedger<Q>,
    probes_after: ProbeLedger<Q>,
    stats_before: StatsLedger<R>,
    stats_after: StatsLedger<R>,
)
    requires
        settled(
            probes,
            i,
            passed,
            config,
            stats,
            at,
            prefixes_before,
            prefixes_after,
            probes_before,
            probes_after,
            stats_before,
            stats_after,
        ),
    ensures
        probes_after.written() == probes_before.written().push(
            after_result(probes, i, passed, config),
        ),
        passed ==> prefixes_after.confirmed() == prefixes_before.confirmed().push(
            (probes[i].key, probes[i].prefix),
        ),
        !passed ==> prefixes_after.confirmed() == prefixes_before.confirmed(),
        room_for_result(stats, probes[i], passed, config) ==> stats_after.saved()
            == stats_before.saved().push(
            stats_after_result(stats, probes[i], passed, config, at),
        ),
        !room_for_result(stats, probes[i], passed, config) ==> stats_after.saved()
            == stats_before.saved(),
        exists|result: Result<(), Error>| #[trigger]
            probes_before.of().may_write(after_result(probes, i, passed, config), result),
        passed ==> exists|result: Result<(), Error>| #[trigger]
            prefixes_before.of().may_confirm(probes[i].key, probes[i].prefix, result),
        room_for_result(stats, probes[i], passed, config) ==> exists|result: Result<(), Error>|
         #[trigger]
            stats_before.of().may_save(
                stats_after_result(stats, probes[i], passed, config, at),
                result,
            ),
{
}

} // verus!
