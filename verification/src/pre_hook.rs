//! Before a command runs: recognising the retry that a probe waits for.

use vstd::prelude::*;

use crate::error::Error;
use crate::ledger::ProbeLedger;
use crate::ports::ProbeStore;
use crate::probe::{self, find_probe, ProbeEntry, ProbeState, ProbeView};
use crate::text;

verus! {

/// Where the pending probe that waits for `command` stands; the end of `probes` where none does.
pub open spec fn pending_at(probes: Seq<ProbeView>, command: Seq<char>) -> int {
    probe::seek(probes, ProbeState::Pending, command, 0)
}

/// Whether a pending probe waits for `command`.
pub open spec fn is_retry(probes: Seq<ProbeView>, command: Seq<char>) -> bool {
    pending_at(probes, command) < probes.len()
}

/// The probes after `command` was seen: the first pending probe that waits for it is probing.
pub open spec fn after_seen(probes: Seq<ProbeView>, command: Seq<char>) -> Seq<ProbeView> {
    let i = pending_at(probes, command);
    if is_retry(probes, command) {
        probes.update(i, ProbeView { state: ProbeState::Probing, ..probes[i] })
    } else {
        probes
    }
}

/// Moves the first pending probe that waits for `command` to `Probing`. Returns whether there
/// was one.
pub fn mark_retry(command: &str, probes: &mut Vec<ProbeEntry>) -> (r: bool)
    ensures
        r == is_retry(old(probes).deep_view(), command@),
        final(probes).deep_view() == after_seen(old(probes).deep_view(), command@),
{
    let ghost before = probes.deep_view();
    match find_probe(probes.as_slice(), ProbeState::Pending, command) {
        Some(i) => {
            let ghost held = probes@[i as int];
            let mut probe = probes.remove(i);
            probe.state = ProbeState::Probing;
            probes.insert(i, probe);
            proof {
                assert(before[i as int] == held.deep_view());
                assert(probes.deep_view() =~= after_seen(before, command@));
            }
            true
        },
        None => false,
    }
}

/// Whether `store` grants what a sight of `command` may write: the probes that it holds, with the
/// first pending one that waits for `command` moved to `Probing`.
pub open spec fn grants_seen<S: ProbeStore + ?Sized>(store: &S, command: Seq<char>) -> bool {
    forall|probes: Seq<ProbeView>| #[trigger]
        store.may_load(probes) && is_retry(probes, command) ==> store.grants_write(
            after_seen(probes, command),
        )
}

/// Checks whether `command` is the retry that a pending probe waits for. If it is, the probe is
/// moved to `Probing`, the probes are written back, once, and the result is `true`. If it is not,
/// nothing is written.
pub fn check_probe_match<S: ProbeStore + ?Sized>(
    command: &str,
    probe_store: &mut ProbeLedger<S>,
) -> (r: bool)
    requires
        grants_seen(old(probe_store).of(), command@),
    ensures
        final(probe_store).of() == old(probe_store).of(),
        exists|probes: Seq<ProbeView>| #[trigger]
            old(probe_store).of().may_load(probes) && r == is_retry(probes, command@) && if r {
                &&& final(probe_store).written() == old(probe_store).written().push(
                    after_seen(probes, command@),
                )
                &&& exists|result: Result<(), Error>| #[trigger]
                    old(probe_store).of().may_write(after_seen(probes, command@), result)
            } else {
                final(probe_store).written() == old(probe_store).written()
            },
{
    let mut probes = probe_store.load();
    let ghost loaded = probes.deep_view();
    if mark_retry(command, &mut probes) {
        assert(probe_store.of().grants_write(after_seen(loaded, command@)));
        let _written = probe_store.write(probes.as_slice());
        return true;
    }
    false
}

/// A command is a retry exactly where, up to white space around it, it is the prefix of a pending
/// probe, a space and that probe's command.
pub proof fn law_is_retry(probes: Seq<ProbeView>, command: Seq<char>)
    ensures
        is_retry(probes, command) <==> exists|i: int|
            0 <= i < probes.len() && (#[trigger] probes[i]).state == ProbeState::Pending
                && text::trimmed(
                text::joined(probes[i].prefix) + seq![' '] + probes[i].original_command,
            ) == text::trimmed(command),
{
    probe::lemma_seek(probes, ProbeState::Pending, command, 0);
    let n = pending_at(probes, command);
    if n < probes.len() {
        assert(probe::awaits(probes[n], ProbeState::Pending, command));
    }
    assert forall|i: int|
        0 <= i < probes.len() && (#[trigger] probes[i]).state == ProbeState::Pending
            && text::trimmed(
            text::joined(probes[i].prefix) + seq![' '] + probes[i].original_command,
        ) == text::trimmed(command) implies n < probes.len() by {
        assert(probe::awaits(probes[i], ProbeState::Pending, command));
    }
}

/// Where no pending probe's prefix, a space and its command are, up to white space around them,
/// the command that was seen, it is no retry and the probes stay as they are: a command that only
/// begins with such a retry, or ends with one, is another command.
pub proof fn law_other_command_ignored(probes: Seq<ProbeView>, command: Seq<char>)
    requires
        forall|i: int|
            0 <= i < probes.len() && (#[trigger] probes[i]).state == ProbeState::Pending
                ==> text::trimmed(
                text::joined(probes[i].prefix) + seq![' '] + probes[i].original_command,
            ) != text::trimmed(command),
    ensures
        !is_retry(probes, command),
        after_seen(probes, command) == probes,
{
    law_is_retry(probes, command);
}

/// The first pending probe whose retry was seen is probing; everything else of it, and every other
/// probe, stays as it is.
pub proof fn law_retry_seen(probes: Seq<ProbeView>, command: Seq<char>, i: int)
    requires
        0 <= i < probes.len(),
        probes[i].state == ProbeState::Pending,
        text::trimmed(text::joined(probes[i].prefix) + seq![' '] + probes[i].original_command)
            == text::trimmed(command),
        forall|j: int|
            0 <= j < i && (#[trigger] probes[j]).state == ProbeState::Pending ==> text::trimmed(
                text::joined(probes[j].prefix) + seq![' '] + probes[j].original_command,
            ) != text::trimmed(command),
    ensures
        is_retry(probes, command),
        after_seen(probes, command) == probes.update(
            i,
            ProbeView {
                key: probes[i].key,
                prefix: probes[i].prefix,
                success_when: probes[i].success_when,
                original_command: probes[i].original_command,
                state: ProbeState::Probing,
                candidate_index: probes[i].candidate_index,
            },
        ),
{
    probe::law_first_found(probes, ProbeState::Pending, command, i);
}

} // verus!
