//! Candidate probes: what is being tried for which command.

use vstd::prelude::*;

use crate::domain::{OriginalCommand, PredicateView, SuccessPredicate};
use crate::text::{self, join, same_text, trim};

verus! {

/// Lifecycle state of a candidate probe.
#[derive(Debug, Clone, Copy, PartialEq, Eq, Structural)]
pub enum ProbeState {
    /// The command failed bare; a retry with the candidate is awaited.
    Pending,
    /// The retry was seen; its result is awaited.
    Probing,
}

/// The name of a state in a probe file.
pub open spec fn state_name(state: ProbeState) -> Seq<char> {
    match state {
        ProbeState::Pending => "Pending"@,
        ProbeState::Probing => "Probing"@,
    }
}

/// The state that a name in a probe file stands for. A name that is not known stands for
/// `Pending`.
pub open spec fn named_state(name: Seq<char>) -> ProbeState {
    if name == "Probing"@ {
        ProbeState::Probing
    } else {
        ProbeState::Pending
    }
}

/// A state is read back from its name.
pub proof fn law_state_name_round_trip(state: ProbeState)
    ensures
        named_state(state_name(state)) == state,
{
    reveal_strlit("Pending");
    reveal_strlit("Probing");
    assert("Pending"@[1] != "Probing"@[1]);
}

impl ProbeState {
    /// The name of this state in a probe file.
    pub fn name(&self) -> (r: &'static str)
        ensures
            r@ == state_name(*self),
    {
        match self {
            ProbeState::Pending => "Pending",
            ProbeState::Probing => "Probing",
        }
    }

    /// The state that `name` stands for in a probe file.
    pub fn from_name(name: &str) -> (r: Self)
        ensures
            r == named_state(name@),
    {
        if same_text(name, "Probing") {
            ProbeState::Probing
        } else {
            ProbeState::Pending
        }
    }
}

/// A pending or active candidate probe.
#[derive(Debug, Clone, PartialEq)]
pub struct ProbeEntry {
    /// Leading command word (e.g. `"gh"`).
    pub key: String,
    /// Candidate prefix tokens being tried.
    pub prefix: Vec<String>,
    /// Predicate used to judge whether the attempt succeeded.
    pub success_when: SuccessPredicate,
    /// Original command that failed bare.
    pub original_command: OriginalCommand,
    /// Current lifecycle state.
    pub state: ProbeState,
    /// Index into the config's candidates of the one being tried.
    pub candidate_index: usize,
}

/// What a [`ProbeEntry`] holds.
#[verifier::ext_equal]
pub struct ProbeView {
    pub key: Seq<char>,
    pub prefix: Seq<Seq<char>>,
    pub success_when: PredicateView,
    pub original_command: Seq<char>,
    pub state: ProbeState,
    pub candidate_index: nat,
}

impl DeepView for ProbeEntry {
    type V = ProbeView;

    open spec fn deep_view(&self) -> ProbeView {
        ProbeView {
            key: self.key@,
            prefix: self.prefix.deep_view(),
            success_when: self.success_when.deep_view(),
            original_command: self.original_command@,
            state: self.state,
            candidate_index: self.candidate_index as nat,
        }
    }
}

/// `command` with `prefix` and a space before it.
pub open spec fn prefixed(prefix: Seq<Seq<char>>, command: Seq<char>) -> Seq<char> {
    text::joined(prefix) + seq![' '] + command
}

/// The retry that a probe waits for: its command with its candidate's prefix.
pub open spec fn expected(probe: ProbeView) -> Seq<char> {
    prefixed(probe.prefix, probe.original_command)
}

/// Whether `probe` is in `state` and `command` is, up to white space around it, the retry that
/// it waits for.
pub open spec fn awaits(probe: ProbeView, state: ProbeState, command: Seq<char>) -> bool {
    probe.state == state && text::trimmed(expected(probe)) == text::trimmed(command)
}

/// The first probe in `state`, from `i` on, that waits for `command`; the end of `probes` where
/// there is none.
pub open spec fn seek(
    probes: Seq<ProbeView>,
    state: ProbeState,
    command: Seq<char>,
    i: int,
) -> int
    decreases probes.len() - i,
{
    if i >= probes.len() {
        probes.len() as int
    } else if awaits(probes[i], state, command) {
        i
    } else {
        seek(probes, state, command, i + 1)
    }
}

/// What [`seek`] finds is the first that waits, and where it finds none there is none.
pub proof fn lemma_seek(probes: Seq<ProbeView>, state: ProbeState, command: Seq<char>, i: int)
    requires
        0 <= i <= probes.len(),
    ensures
        i <= seek(probes, state, command, i) <= probes.len(),
        seek(probes, state, command, i) < probes.len() ==> awaits(
            probes[seek(probes, state, command, i)],
            state,
            command,
        ),
        forall|j: int|
            i <= j < seek(probes, state, command, i) ==> !awaits(
                #[trigger] probes[j],
                state,
                command,
            ),
    decreases probes.len() - i,
{
    if i < probes.len() && !awaits(probes[i], state, command) {
        lemma_seek(probes, state, command, i + 1);
    }
}

/// Whether each command has at most one probe.
pub open spec fn one_per_command(probes: Seq<ProbeView>) -> bool {
    forall|i: int, j: int|
        0 <= i < j < probes.len() ==> (#[trigger] probes[i]).original_command != (
        #[trigger] probes[j]).original_command
}

/// The probes of other commands than `cmd`, in their order.
pub open spec fn probes_of_others(probes: Seq<ProbeView>, cmd: Seq<char>) -> Seq<ProbeView>
    decreases probes.len(),
{
    if probes.len() == 0 {
        seq![]
    } else {
        let rest = probes_of_others(probes.drop_last(), cmd);
        if probes.last().original_command == cmd {
            rest
        } else {
            rest.push(probes.last())
        }
    }
}

/// What is left are the probes of other commands, in their order: none of `cmd`, and every other.
/// Where there was none of `cmd`, everything is left; so removing twice is removing once.
pub proof fn law_removed(probes: Seq<ProbeView>, cmd: Seq<char>)
    ensures
        forall|i: int|
            0 <= i < probes_of_others(probes, cmd).len() ==> (#[trigger] probes_of_others(
                probes,
                cmd,
            )[i]).original_command != cmd,
        forall|p: ProbeView|
            p.original_command != cmd ==> (#[trigger] probes.contains(p) == probes_of_others(
                probes,
                cmd,
            ).contains(p)),
        probes_of_others(probes, cmd) == probes.filter(
            |p: ProbeView| p.original_command != cmd,
        ),
        probes_of_others(probes_of_others(probes, cmd), cmd) == probes_of_others(probes, cmd),
        probes_of_others(probes, cmd).len() <= probes.len(),
        probes_of_others(probes, cmd).len() == probes.len() ==> probes_of_others(probes, cmd)
            == probes,
    decreases probes.len(),
{
    reveal(Seq::filter);
    if probes.len() == 0 {
        assert(probes_of_others(probes, cmd) =~= probes);
    } else {
        let front = probes.drop_last();
        let rest = probes_of_others(front, cmd);
        let all = probes_of_others(probes, cmd);
        law_removed(front, cmd);
        if probes.last().original_command != cmd {
            assert(all.drop_last() =~= rest);
        }
        assert(probes =~= front.push(probes.last()));
        assert forall|p: ProbeView| p.original_command != cmd implies (#[trigger] probes.contains(
            p,
        ) == all.contains(p)) by {
            assert(front.contains(p) == rest.contains(p));
            if probes.contains(p) {
                let k = choose|k: int| 0 <= k < probes.len() && probes[k] == p;
                if k < front.len() {
                    assert(front[k] == p);
                    let j = choose|j: int| 0 <= j < rest.len() && rest[j] == p;
                    assert(all[j] == p);
                } else {
                    assert(all[all.len() - 1] == p);
                }
            }
            if all.contains(p) {
                let j = choose|j: int| 0 <= j < all.len() && all[j] == p;
                if j < rest.len() {
                    assert(rest[j] == p);
                    let k = choose|k: int| 0 <= k < front.len() && front[k] == p;
                    assert(probes[k] == p);
                } else {
                    assert(probes[probes.len() - 1] == p);
                }
            }
        }
    }
}

/// Fewer probes are left exactly where there was one of `cmd`.
pub proof fn lemma_fewer(probes: Seq<ProbeView>, cmd: Seq<char>)
    ensures
        probes_of_others(probes, cmd).len() < probes.len() <==> exists|i: int|
            0 <= i < probes.len() && (#[trigger] probes[i]).original_command == cmd,
    decreases probes.len(),
{
    if probes.len() > 0 {
        let front = probes.drop_last();
        law_removed(front, cmd);
        lemma_fewer(front, cmd);
        if exists|i: int| 0 <= i < probes.len() && (#[trigger] probes[i]).original_command == cmd {
            let i = choose|i: int|
                0 <= i < probes.len() && (#[trigger] probes[i]).original_command == cmd;
            if i < front.len() {
                assert(front[i].original_command == cmd);
            }
        }
        if probes_of_others(front, cmd).len() < front.len() {
            let i = choose|i: int|
                0 <= i < front.len() && (#[trigger] front[i]).original_command == cmd;
            assert(probes[i].original_command == cmd);
        }
    }
}

impl ProbeEntry {
    /// The retry that this probe waits for.
    pub fn expected_command(&self) -> (r: String)
        ensures
            r@ == expected(self.deep_view()),
    {
        prefixed_command(self.prefix.as_slice(), self.original_command.as_str())
    }
}

/// `command` with `prefix` and a space before it.
pub fn prefixed_command(prefix: &[String], command: &str) -> (r: String)
    ensures
        r@ == prefixed(prefix.deep_view(), command@),
{
    let mut r = join(prefix);
    proof {
        reveal_strlit(" ");
        assert(" "@ =~= seq![' ']);
    }
    r.append(" ");
    r.append(command);
    r
}

/// The index of the first probe in `state` that waits for `command`.
pub fn find_probe(probes: &[ProbeEntry], state: ProbeState, command: &str) -> (r: Option<usize>)
    ensures
        match r {
            Some(i) => i < probes@.len() && i == seek(probes.deep_view(), state, command@, 0),
            None => seek(probes.deep_view(), state, command@, 0) == probes@.len(),
        },
{
    let ghost all = probes.deep_view();
    let cmd = trim(command);
    let mut i: usize = 0;
    while i < probes.len()
        invariant
            all == probes.deep_view(),
            cmd@ == text::trimmed(command@),
            i <= probes.len(),
            seek(all, state, command@, 0) == seek(all, state, command@, i as int),
        decreases probes.len() - i,
    {
        assert(all[i as int] == probes@[i as int].deep_view());
        if probes[i].state == state {
            let wanted = probes[i].expected_command();
            if same_text(trim(wanted.as_str()), cmd) {
                return Some(i);
            }
        }
        i += 1;
    }
    None
}

/// Takes the probes of `cmd` out. Returns whether there were any.
pub fn remove_probes_of(probes: &mut Vec<ProbeEntry>, cmd: &OriginalCommand) -> (r: bool)
    ensures
        final(probes).deep_view() == probes_of_others(old(probes).deep_view(), cmd@),
        r == (final(probes)@.len() < old(probes)@.len()),
{
    let ghost all = probes.deep_view();
    let before = probes.len();
    let mut seen: usize = 0;
    let mut i: usize = 0;
    while seen < before
        invariant
            all.len() == before,
            seen <= before,
            i <= seen,
            probes@.len() == i + (before - seen),
            probes.deep_view().take(i as int) == probes_of_others(all.take(seen as int), cmd@),
            probes.deep_view().skip(i as int) == all.skip(seen as int),
        decreases before - seen,
    {
        let ghost now = probes.deep_view();
        proof {
            assert(now.skip(i as int)[0] == all[seen as int]);
            assert(now[i as int] == probes@[i as int].deep_view());
            assert(all.take(seen + 1).drop_last() =~= all.take(seen as int));
        }
        if same_text(probes[i].original_command.as_str(), cmd.as_str()) {
            let _gone = probes.remove(i);
            proof {
                assert(probes.deep_view() =~= now.remove(i as int));
                assert(probes.deep_view().take(i as int) =~= now.take(i as int));
                assert(probes.deep_view().skip(i as int) =~= all.skip(seen + 1)) by {
                    assert forall|k: int| 0 <= k < all.len() - seen - 1 implies #[trigger]
                    probes.deep_view().skip(i as int)[k] == all.skip(seen + 1)[k] by {
                        assert(now.skip(i as int)[k + 1] == all.skip(seen as int)[k + 1]);
                    }
                }
            }
        } else {
            proof {
                assert(now.take(i + 1) =~= now.take(i as int).push(now[i as int]));
                assert(now.skip(i + 1) =~= all.skip(seen + 1)) by {
                    assert forall|k: int| 0 <= k < all.len() - seen - 1 implies #[trigger]
                    now.skip(i + 1)[k] == all.skip(seen + 1)[k] by {
                        assert(now.skip(i as int)[k + 1] == all.skip(seen as int)[k + 1]);
                    }
                }
            }
            i += 1;
        }
        seen += 1;
    }
    proof {
        assert(all.take(before as int) =~= all);
        assert(probes.deep_view().take(i as int) =~= probes.deep_view());
    }
    probes.len() < before
}

/// A probe waits in one state for one command: its candidate's prefix, a space and its own
/// command, up to white space around it. Nothing that only begins or ends so is that command.
pub proof fn law_awaits(probe: ProbeView, state: ProbeState, command: Seq<char>)
    ensures
        expected(probe) == text::joined(probe.prefix) + seq![' '] + probe.original_command,
        awaits(probe, state, command) <==> probe.state == state && text::trimmed(
            text::joined(probe.prefix) + seq![' '] + probe.original_command,
        ) == text::trimmed(command),
{
}

/// Of the probes that wait in a state for a command, the first is found; where none waits, the
/// end of the list is.
pub proof fn law_first_found(
    probes: Seq<ProbeView>,
    state: ProbeState,
    command: Seq<char>,
    i: int,
)
    ensures
        0 <= i < probes.len() && probes[i].state == state && text::trimmed(
            text::joined(probes[i].prefix) + seq![' '] + probes[i].original_command,
        ) == text::trimmed(command) && (forall|j: int|
            0 <= j < i ==> !((#[trigger] probes[j]).state == state && text::trimmed(
                text::joined(probes[j].prefix) + seq![' '] + probes[j].original_command,
            ) == text::trimmed(command))) ==> seek(probes, state, command, 0) == i,
        (forall|j: int|
            0 <= j < probes.len() ==> !((#[trigger] probes[j]).state == state && text::trimmed(
                text::joined(probes[j].prefix) + seq![' '] + probes[j].original_command,
            ) == text::trimmed(command))) ==> seek(probes, state, command, 0) == probes.len(),
{
    lemma_seek(probes, state, command, 0);
    let n = seek(probes, state, command, 0);
    if n < probes.len() {
        assert(awaits(probes[n], state, command));
    }
    if 0 <= i < n {
        assert(!awaits(probes[i], state, command));
    }
}

/// The names of the states in a probe file; every other name stands for `Pending`.
pub proof fn law_state_names(name: Seq<char>)
    ensures
        state_name(ProbeState::Pending) == seq!['P', 'e', 'n', 'd', 'i', 'n', 'g'],
        state_name(ProbeState::Probing) == seq!['P', 'r', 'o', 'b', 'i', 'n', 'g'],
        named_state(name) == ProbeState::Probing <==> name == seq![
            'P',
            'r',
            'o',
            'b',
            'i',
            'n',
            'g',
        ],
{
    reveal_strlit("Pending");
    reveal_strlit("Probing");
    assert("Pending"@ =~= seq!['P', 'e', 'n', 'd', 'i', 'n', 'g']);
    assert("Probing"@ =~= seq!['P', 'r', 'o', 'b', 'i', 'n', 'g']);
}

/// What contracts see of a probe is what it holds, field by field.
pub proof fn law_seen_as_held(entry: ProbeEntry)
    ensures
        entry.deep_view().key == entry.key@,
        entry.deep_view().prefix == entry.prefix.deep_view(),
        entry.deep_view().success_when == entry.success_when.deep_view(),
        entry.deep_view().original_command == entry.original_command.0@,
        entry.deep_view().state == entry.state,
        entry.deep_view().candidate_index == entry.candidate_index,
{
}

} // verus!
