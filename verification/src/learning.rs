//! What holds of the learning of prefixes from one hook to the next.

use vstd::prelude::*;

use crate::domain::{self, ConfigView};
use crate::outside;
use crate::payload;
use crate::post_hook;
use crate::pre_hook;
use crate::probe::{self, ProbeState, ProbeView};
use crate::rewrite::{self, MatchView};
use crate::segment;
use crate::text;

verus! {

/// Whether `probe` tries the candidate of `config` that it counts as its own.
pub open spec fn tracks(probe: ProbeView, config: ConfigView) -> bool {
    &&& probe.candidate_index < config.candidate_prefixes.len()
    &&& probe.prefix == config.candidate_prefixes[probe.candidate_index as int].prefix
    &&& probe.success_when == config.candidate_prefixes[probe.candidate_index as int].success_when
}

/// Whether each probe tries the candidate that it counts as its own.
pub open spec fn all_track(probes: Seq<ProbeView>, config: ConfigView) -> bool {
    forall|i: int| 0 <= i < probes.len() ==> tracks(#[trigger] probes[i], config)
}

/// Whether no probe, pending or probing, waits for `command`.
pub open spec fn none_awaits(probes: Seq<ProbeView>, command: Seq<char>) -> bool {
    forall|i: int|
        0 <= i < probes.len() ==> !probe::awaits(#[trigger] probes[i], ProbeState::Pending, command)
            && !probe::awaits(probes[i], ProbeState::Probing, command)
}

/// The retry that a failure of `command` asks for.
pub open spec fn first_retry(command: Seq<char>, config: ConfigView) -> Seq<char> {
    probe::prefixed(config.candidate_prefixes[0].prefix, command)
}

/// A command never has two probes: whatever happens to it, it has at most one if it had at most
/// one before.
pub proof fn law_one_probe_per_command(
    command: Seq<char>,
    key: Seq<char>,
    config: ConfigView,
    probes: Seq<ProbeView>,
    i: int,
    passed: bool,
)
    requires
        probe::one_per_command(probes),
    ensures
        probe::one_per_command(post_hook::after_failure(command, key, config, probes)),
        probe::one_per_command(pre_hook::after_seen(probes, command)),
        0 <= i < probes.len() ==> probe::one_per_command(
            post_hook::after_result(probes, i, passed, config),
        ),
        probe::one_per_command(probe::probes_of_others(probes, command)),
{
    probe::lemma_seek(probes, ProbeState::Pending, command, 0);
    lemma_others_one_per_command(probes, command);
    if 0 <= i < probes.len() {
        let rest = probes.remove(i);
        let after = post_hook::after_result(probes, i, passed, config);
        assert forall|a: int, b: int| 0 <= a < b < after.len() implies (
        #[trigger] after[a]).original_command != (#[trigger] after[b]).original_command by {
            let pa = if a < i { a } else { a + 1 };
            assert(after[a] == probes[pa]);
            if b < rest.len() {
                let pb = if b < i { b } else { b + 1 };
                assert(after[b] == probes[pb]);
            } else {
                assert(after[b].original_command == probes[i].original_command);
                assert(pa != i);
            }
        }
    }
}

proof fn lemma_others_one_per_command(probes: Seq<ProbeView>, cmd: Seq<char>)
    requires
        probe::one_per_command(probes),
    ensures
        probe::one_per_command(probe::probes_of_others(probes, cmd)),
        forall|k: int|
            0 <= k < probe::probes_of_others(probes, cmd).len() ==> probes.contains(
                #[trigger] probe::probes_of_others(probes, cmd)[k],
            ),
    decreases probes.len(),
{
    if probes.len() > 0 {
        let front = probes.drop_last();
        let rest = probe::probes_of_others(front, cmd);
        let all = probe::probes_of_others(probes, cmd);
        lemma_others_one_per_command(front, cmd);
        assert forall|k: int| 0 <= k < all.len() implies probes.contains(#[trigger] all[k]) by {
            if k < rest.len() {
                assert(front.contains(rest[k]));
                let j = choose|j: int| 0 <= j < front.len() && front[j] == rest[k];
                assert(probes[j] == all[k]);
            } else {
                assert(probes[probes.len() - 1] == all[k]);
            }
        }
        assert forall|a: int, b: int| 0 <= a < b < all.len() implies (
        #[trigger] all[a]).original_command != (#[trigger] all[b]).original_command by {
            if b == rest.len() {
                assert(front.contains(rest[a]));
                let j = choose|j: int| 0 <= j < front.len() && front[j] == rest[a];
                assert(probes[j] == all[a]);
                assert(probes[probes.len() - 1] == all[b]);
            } else {
                assert(rest[a] == all[a] && rest[b] == all[b]);
            }
        }
    }
}

/// Each probe tries the candidate that it counts as its own, whatever happens to it.
pub proof fn law_probes_track_candidates(
    command: Seq<char>,
    key: Seq<char>,
    config: ConfigView,
    probes: Seq<ProbeView>,
    i: int,
    passed: bool,
)
    requires
        all_track(probes, config),
    ensures
        all_track(post_hook::after_failure(command, key, config, probes), config),
        all_track(pre_hook::after_seen(probes, command), config),
        0 <= i < probes.len() ==> all_track(
            post_hook::after_result(probes, i, passed, config),
            config,
        ),
{
    probe::lemma_seek(probes, ProbeState::Pending, command, 0);
    if 0 <= i < probes.len() {
        let after = post_hook::after_result(probes, i, passed, config);
        assert forall|a: int| 0 <= a < after.len() implies tracks(#[trigger] after[a], config) by {
            if a < probes.len() - 1 {
                assert(after[a] == probes[if a < i { a } else { a + 1 }]);
            }
        }
    }
}

/// A command that failed and has a probe fails again without effect.
pub proof fn law_second_failure_silent(
    command: Seq<char>,
    key: Seq<char>,
    config: ConfigView,
    probes: Seq<ProbeView>,
)
    ensures
        post_hook::after_failure(
            command,
            key,
            config,
            post_hook::after_failure(command, key, config, probes),
        ) == post_hook::after_failure(command, key, config, probes),
        post_hook::failure_output(
            command,
            config,
            post_hook::after_failure(command, key, config, probes),
        ) == payload::says_nothing(),
{
    let after = post_hook::after_failure(command, key, config, probes);
    if post_hook::starts_probe(command, config, probes) {
        assert(after[probes.len() as int].original_command == command);
    }
}

/// The retry that a failure asks for is recognised when it comes, and the probe is then probing.
pub proof fn law_retry_recognised(
    command: Seq<char>,
    key: Seq<char>,
    config: ConfigView,
    probes: Seq<ProbeView>,
)
    requires
        post_hook::starts_probe(command, config, probes),
    ensures
        post_hook::failure_output(command, config, probes) == payload::says(
            "Command failed. Retry with: "@ + first_retry(command, config),
        ),
        pre_hook::is_retry(
            post_hook::after_failure(command, key, config, probes),
            first_retry(command, config),
        ),
        none_awaits(probes, first_retry(command, config)) ==> pre_hook::after_seen(
            post_hook::after_failure(command, key, config, probes),
            first_retry(command, config),
        ) == probes.push(
            ProbeView {
                state: ProbeState::Probing,
                ..post_hook::first_probe(command, key, config)
            },
        ),
{
    let retry = first_retry(command, config);
    let failed = post_hook::after_failure(command, key, config, probes);
    probe::lemma_seek(failed, ProbeState::Pending, retry, 0);
    let n = probes.len() as int;
    assert(probe::awaits(failed[n], ProbeState::Pending, retry));
    if none_awaits(probes, retry) {
        let at = pre_hook::pending_at(failed, retry);
        if at < n {
            assert(failed[at] == probes[at]);
        }
        assert(pre_hook::after_seen(failed, retry) =~= probes.push(
            ProbeView {
                state: ProbeState::Probing,
                ..post_hook::first_probe(command, key, config)
            },
        ));
    }
}

/// The retry that the next candidate is tried with after `probe` failed.
pub open spec fn next_retry(probe: ProbeView, config: ConfigView) -> Seq<char> {
    probe::prefixed(post_hook::next_probe(probe, config).prefix, probe.original_command)
}

/// The retry that a failed attempt asks for next is recognised when it comes, and the probe of
/// the next candidate is then probing.
pub proof fn law_next_retry_recognised(probes: Seq<ProbeView>, i: int, config: ConfigView)
    requires
        0 <= i < probes.len(),
        post_hook::has_next(probes[i], config),
    ensures
        post_hook::result_output(probes[i], false, config) == payload::says(
            "Candidate failed. Retry with: "@ + next_retry(probes[i], config),
        ),
        pre_hook::is_retry(
            post_hook::after_result(probes, i, false, config),
            next_retry(probes[i], config),
        ),
        none_awaits(probes.remove(i), next_retry(probes[i], config)) ==> pre_hook::after_seen(
            post_hook::after_result(probes, i, false, config),
            next_retry(probes[i], config),
        ) == probes.remove(i).push(
            ProbeView {
                state: ProbeState::Probing,
                ..post_hook::next_probe(probes[i], config)
            },
        ),
{
    let retry = next_retry(probes[i], config);
    let rest = probes.remove(i);
    let after = post_hook::after_result(probes, i, false, config);
    probe::lemma_seek(after, ProbeState::Pending, retry, 0);
    let n = rest.len() as int;
    assert(probe::awaits(after[n], ProbeState::Pending, retry));
    if none_awaits(rest, retry) {
        let at = pre_hook::pending_at(after, retry);
        if at < n {
            assert(after[at] == rest[at]);
        }
        assert(pre_hook::after_seen(after, retry) =~= rest.push(
            ProbeView {
                state: ProbeState::Probing,
                ..post_hook::next_probe(probes[i], config)
            },
        ));
    }
}

/// From the failure of a command over its retry to the result: where no other probe waits for
/// the retry, the result is that of the first candidate. A success ends the probe and leaves the
/// others as they were; a failure moves on to the second candidate, or ends the probe where there
/// is none.
pub proof fn law_learning_cycle(
    command: Seq<char>,
    key: Seq<char>,
    config: ConfigView,
    probes: Seq<ProbeView>,
)
    requires
        post_hook::starts_probe(command, config, probes),
        none_awaits(probes, first_retry(command, config)),
    ensures
        ({
            let retry = first_retry(command, config);
            let failed = post_hook::after_failure(command, key, config, probes);
            let seen = pre_hook::after_seen(failed, retry);
            let at = post_hook::probing_at(seen, retry);
            &&& at == probes.len()
            &&& seen[at] == (ProbeView {
                state: ProbeState::Probing,
                ..post_hook::first_probe(command, key, config)
            })
            &&& post_hook::after_result(seen, at, true, config) == probes
            &&& config.candidate_prefixes.len() >= 2 ==> post_hook::after_result(
                seen,
                at,
                false,
                config,
            ) == probes.push(
                ProbeView {
                    key,
                    prefix: config.candidate_prefixes[1].prefix,
                    success_when: config.candidate_prefixes[1].success_when,
                    original_command: command,
                    state: ProbeState::Pending,
                    candidate_index: 1,
                },
            )
            &&& config.candidate_prefixes.len() == 1 ==> post_hook::after_result(
                seen,
                at,
                false,
                config,
            ) == probes
        }),
{
    let retry = first_retry(command, config);
    let failed = post_hook::after_failure(command, key, config, probes);
    let seen = pre_hook::after_seen(failed, retry);
    let n = probes.len() as int;
    law_retry_recognised(command, key, config, probes);
    assert(probe::awaits(seen[n], ProbeState::Probing, retry));
    probe::lemma_seek(seen, ProbeState::Probing, retry, 0);
    let at = post_hook::probing_at(seen, retry);
    if at < n {
        assert(seen[at] == probes[at]);
    }
    assert(seen.remove(n) =~= probes);
}

/// The candidates of a command are tried one after another, and the trying ends: a failed
/// attempt gives way to the next candidate, and after the last no probe of the command is left.
pub proof fn law_candidates_end(probes: Seq<ProbeView>, i: int, config: ConfigView)
    requires
        0 <= i < probes.len(),
        probe::one_per_command(probes),
        all_track(probes, config),
    ensures
        ({
            let after = post_hook::after_result(probes, i, false, config);
            let left = config.candidate_prefixes.len() - probes[i].candidate_index;
            if post_hook::has_next(probes[i], config) {
                &&& after.last().original_command == probes[i].original_command
                &&& after.last().state == ProbeState::Pending
                &&& 0 < config.candidate_prefixes.len() - after.last().candidate_index < left
            } else {
                post_hook::has_no_probe(probes[i].original_command, after)
            }
        }),
{
    let after = post_hook::after_result(probes, i, false, config);
    if !post_hook::has_next(probes[i], config) {
        assert forall|a: int| 0 <= a < after.len() implies (#[trigger] after[a]).original_command
            != probes[i].original_command by {
            assert(after[a] == probes[if a < i { a } else { a + 1 }]);
        }
    }
}

/// A success ends the probing of a command: no probe of it is left.
pub proof fn law_success_ends(probes: Seq<ProbeView>, i: int, config: ConfigView)
    requires
        0 <= i < probes.len(),
        probe::one_per_command(probes),
    ensures
        post_hook::has_no_probe(
            probes[i].original_command,
            post_hook::after_result(probes, i, true, config),
        ),
{
    let after = post_hook::after_result(probes, i, true, config);
    assert forall|a: int| 0 <= a < after.len() implies (#[trigger] after[a]).original_command
        != probes[i].original_command by {
        assert(after[a] == probes[if a < i { a } else { a + 1 }]);
    }
}

/// Only a pending probe is moved by a retry: one that is probing already stays as it is.
pub proof fn law_probing_not_matched_again(probes: Seq<ProbeView>, command: Seq<char>)
    requires
        forall|i: int|
            0 <= i < probes.len() ==> (#[trigger] probes[i]).state == ProbeState::Probing,
    ensures
        !pre_hook::is_retry(probes, command),
        pre_hook::after_seen(probes, command) == probes,
{
    probe::lemma_seek(probes, ProbeState::Pending, command, 0);
}

/// Seeing a command changes nothing of a probe but the state of the one it is the retry of, and
/// that from `Pending` to `Probing`.
pub proof fn law_seen_changes_one_state(probes: Seq<ProbeView>, command: Seq<char>)
    ensures
        pre_hook::after_seen(probes, command).len() == probes.len(),
        forall|i: int|
            0 <= i < probes.len() ==> {
                ||| (#[trigger] pre_hook::after_seen(probes, command)[i]) == probes[i]
                ||| probe::awaits(probes[i], ProbeState::Pending, command) && pre_hook::after_seen(
                    probes,
                    command,
                )[i] == ProbeView { state: ProbeState::Probing, ..probes[i] }
            },
{
    probe::lemma_seek(probes, ProbeState::Pending, command, 0);
}

/// A confirmed mapping is found again, and confirming one key leaves the others alone.
pub proof fn law_confirm(config: ConfigView, key: Seq<char>, prefix: Seq<Seq<char>>)
    ensures
        domain::with_mapping(config, key, prefix).mappings.contains_key(key),
        domain::with_mapping(config, key, prefix).mappings[key] == prefix,
        domain::with_mapping(config, key, prefix).candidate_prefixes == config.candidate_prefixes,
        forall|other: Seq<char>|
            other != key ==> (#[trigger] domain::with_mapping(
                config,
                key,
                prefix,
            ).mappings.contains_key(other) == config.mappings.contains_key(other))
                && domain::with_mapping(config, key, prefix).mappings[other]
                == config.mappings[other],
{
}

/// A removed mapping is gone, and removing one key leaves the others alone. Removing what was
/// just added gives back what was there, and removing twice is removing once.
pub proof fn law_remove(config: ConfigView, key: Seq<char>, prefix: Seq<Seq<char>>)
    ensures
        !domain::without_mapping(config, key).mappings.contains_key(key),
        domain::without_mapping(config, key).candidate_prefixes == config.candidate_prefixes,
        forall|other: Seq<char>|
            other != key ==> (#[trigger] domain::without_mapping(config, key).mappings.contains_key(
                other,
            ) == config.mappings.contains_key(other)) && domain::without_mapping(
                config,
                key,
            ).mappings[other] == config.mappings[other],
        !config.mappings.contains_key(key) ==> domain::without_mapping(config, key) == config,
        !config.mappings.contains_key(key) ==> domain::without_mapping(
            domain::with_mapping(config, key, prefix),
            key,
        ) == config,
        domain::without_mapping(domain::without_mapping(config, key), key)
            == domain::without_mapping(config, key),
{
    assert(config.mappings.insert(key, prefix).remove(key) =~= config.mappings.remove(key));
    assert(config.mappings.remove(key).remove(key) =~= config.mappings.remove(key));
    if !config.mappings.contains_key(key) {
        assert(config.mappings.remove(key) =~= config.mappings);
    }
}

/// What is learned is used: once `prefix` is confirmed for the first word of a command, the
/// command is rewritten with it, unless its first two words have a mapping of their own.
pub proof fn law_confirmed_is_used(
    command: Seq<char>,
    words: Seq<Seq<char>>,
    prefix: Seq<Seq<char>>,
    config: ConfigView,
)
    requires
        words.len() > 0,
        !rewrite::left_alone(command),
        words.len() >= 2 ==> !config.mappings.contains_key(rewrite::two_word_key(words)),
    ensures
        ({
            let key = post_hook::key_of(Some(words), command);
            let learned = domain::with_mapping(config, key, prefix);
            &&& rewrite::match_words(Some(words), learned.mappings) == Some(
                MatchView { key, prefix },
            )
            &&& rewrite::rewritten_as(command, Some(words), learned.mappings)
                == rewrite::with_prefix(command, prefix)
        }),
{
    if words.len() >= 2 {
        assert(rewrite::two_word_key(words).len() > words[0].len());
    }
}

/// The learning pays off: a simple command for which a retry succeeded is from then on rewritten
/// to that retry, unless its first two words have a mapping of their own.
pub proof fn law_learned_rewrites_to_retry(
    command: Seq<char>,
    prefix: Seq<Seq<char>>,
    config: ConfigView,
)
    requires
        segment::separator_free(command),
        !rewrite::left_alone(command),
        text::lead(command) == 0,
        outside::shell_words_of(text::trimmed(command)) matches Some(words) && words.len() > 0 && (
        words.len() >= 2 ==> !config.mappings.contains_key(rewrite::two_word_key(words))),
    ensures
        rewrite::rewritten(
            command,
            domain::with_mapping(config, post_hook::key_of_command(command), prefix).mappings,
        ) == probe::prefixed(prefix, command),
{
    let words = outside::shell_words_of(text::trimmed(command))->0;
    let key = post_hook::key_of_command(command);
    let learned = domain::with_mapping(config, key, prefix);
    law_confirmed_is_used(command, words, prefix, config);
    rewrite::law_simple(command, learned.mappings);
    text::lemma_trimmed(command);
    assert(text::leading(command) =~= seq![]);
    assert(rewrite::with_prefix(command, prefix) =~= probe::prefixed(prefix, command));
}

/// Confirming a mapping changes the rewriting of no command that its key does not fit.
pub proof fn law_confirm_spares_others(
    s: Seq<char>,
    words: Seq<Seq<char>>,
    key: Seq<char>,
    prefix: Seq<Seq<char>>,
    config: ConfigView,
)
    requires
        words.len() >= 1 ==> key != words[0],
        words.len() >= 2 ==> key != rewrite::two_word_key(words),
    ensures
        rewrite::rewritten_as(
            s,
            Some(words),
            domain::with_mapping(config, key, prefix).mappings,
        ) == rewrite::rewritten_as(s, Some(words), config.mappings),
{
}

/// The probes after `n` failed attempts one after another, each of the probe that is then the
/// last.
pub open spec fn failing(probes: Seq<ProbeView>, config: ConfigView, n: nat) -> Seq<ProbeView>
    decreases n,
{
    if n == 0 {
        probes
    } else {
        let before = failing(probes, config, (n - 1) as nat);
        post_hook::after_result(before, before.len() - 1, false, config)
    }
}

/// Failing in turn tries every candidate once, in the order of the config: after `n` failures
/// candidate `n` is being tried, for the same command, and once every one has failed the probe is
/// gone. The other probes stay as they are.
pub proof fn law_every_candidate_tried(
    others: Seq<ProbeView>,
    key: Seq<char>,
    command: Seq<char>,
    config: ConfigView,
    n: nat,
)
    requires
        0 < config.candidate_prefixes.len(),
        n <= config.candidate_prefixes.len(),
        forall|i: int| 0 <= i < others.len() ==> (#[trigger] others[i]).original_command != command,
    ensures
        n < config.candidate_prefixes.len() ==> failing(
            post_hook::after_failure(command, key, config, others),
            config,
            n,
        ) == others.push(
            ProbeView {
                key,
                prefix: config.candidate_prefixes[n as int].prefix,
                success_when: config.candidate_prefixes[n as int].success_when,
                original_command: command,
                state: ProbeState::Pending,
                candidate_index: n,
            },
        ),
        n == config.candidate_prefixes.len() ==> failing(
            post_hook::after_failure(command, key, config, others),
            config,
            n,
        ) == others,
    decreases n,
{
    let start = post_hook::after_failure(command, key, config, others);
    post_hook::law_failure_starts_probe(command, key, config, others);
    if n > 0 {
        let m = (n - 1) as nat;
        law_every_candidate_tried(others, key, command, config, m);
        let before = failing(start, config, m);
        let last = before.len() - 1;
        assert(before.remove(last) =~= others);
    }
}

} // verus!
