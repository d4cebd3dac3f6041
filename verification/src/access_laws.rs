//! What holds of the access rules as a whole: how checks, replies and approvals work together.

use vstd::prelude::*;

use crate::access;
use crate::access::{AccessConfig, AccessControl, AccessDenied, AccessModel, DmPolicy, GroupModel, PairingError, PendingModel, Refusal};
use crate::ids;

verus! {

/// No two pairings share a code.
pub open spec fn codes_distinct(pending: Seq<(Seq<char>, PendingModel)>) -> bool {
    forall|i: int, j: int|
        0 <= i < j < pending.len() ==> (#[trigger] pending[i]).0 != (#[trigger] pending[j]).0
}

/// No sender has two pairings.
pub open spec fn senders_distinct(pending: Seq<(Seq<char>, PendingModel)>) -> bool {
    forall|i: int, j: int|
        0 <= i < j < pending.len() ==> (#[trigger] pending[i]).1.sender != (
        #[trigger] pending[j]).1.sender
}

/// No room has two groups of settings.
pub open spec fn rooms_distinct(groups: Seq<(Seq<char>, GroupModel)>) -> bool {
    forall|i: int, j: int|
        0 <= i < j < groups.len() ==> (#[trigger] groups[i]).0 != (#[trigger] groups[j]).0
}

/// The configuration is in order: of the pending pairings no code and no sender occurs twice, and
/// of the groups no room.
pub open spec fn well_formed(model: AccessModel) -> bool {
    codes_distinct(model.pending) && senders_distinct(model.pending) && rooms_distinct(model.groups)
}

/// The configuration that holds without a file is in order.
pub proof fn lemma_default_is_well_formed()
    ensures
        well_formed(access::default_access()),
{
}

/// The settings of a room are those that are kept under its id, wherever they stand.
pub proof fn lemma_group_is_the_one_of_its_room(model: AccessModel, at: int)
    requires
        well_formed(model),
        0 <= at < model.groups.len(),
    ensures
        model.group(model.groups[at].0) == Some(model.groups[at].1),
{
    let room = model.groups[at].0;
    access::lemma_key_index_first(model.groups, room);
    let found = access::key_index(model.groups, room) as int;
    if found < at {
        assert(model.groups[found].0 != model.groups[at].0);
    }
}

/// What is left after expired pairings are gone.
proof fn lemma_live(pending: Seq<(Seq<char>, PendingModel)>, now: u64)
    ensures
        forall|i: int|
            0 <= i < access::live_at(pending, now).len() ==> (#[trigger] access::live_at(
                pending,
                now,
            )[i]).1.expires_at > now && pending.contains(access::live_at(pending, now)[i]),
        forall|j: int|
            0 <= j < pending.len() && (#[trigger] pending[j]).1.expires_at > now
                ==> access::live_at(pending, now).contains(pending[j]),
        access::live_at(pending, now).len() <= pending.len(),
        codes_distinct(pending) ==> codes_distinct(access::live_at(pending, now)),
        senders_distinct(pending) ==> senders_distinct(access::live_at(pending, now)),
    decreases pending.len(),
{
    let alive = |item: (Seq<char>, PendingModel)| item.1.expires_at > now;
    let live = pending.filter(alive);
    reveal(Seq::filter);
    if pending.len() != 0 {
        let rest = pending.drop_last();
        let last = pending.last();
        let kept = access::live_at(rest, now);
        lemma_live(rest, now);
        assert forall|i: int| 0 <= i < live.len() implies (#[trigger] live[i]).1.expires_at > now
            && pending.contains(live[i]) by {
            if i < kept.len() {
                let j = choose|j: int| 0 <= j < rest.len() && rest[j] == kept[i];
                assert(pending[j] == live[i]);
            } else {
                assert(pending[pending.len() - 1] == live[i]);
            }
        }
        assert forall|j: int|
            0 <= j < pending.len() && (#[trigger] pending[j]).1.expires_at > now implies live.contains(
            pending[j],
        ) by {
            if j < rest.len() {
                assert(rest[j] == pending[j]);
                let i = choose|i: int| 0 <= i < kept.len() && kept[i] == pending[j];
                assert(live[i] == pending[j]);
            } else {
                assert(live[live.len() - 1] == pending[j]);
            }
        }
        if codes_distinct(pending) {
            assert(codes_distinct(rest));
            assert forall|i: int, j: int| 0 <= i < j < live.len() implies (#[trigger] live[i]).0
                != (#[trigger] live[j]).0 by {
                assert(live[i] == kept[i]);
                if j < kept.len() {
                    assert(live[j] == kept[j]);
                } else {
                    let k = choose|k: int| 0 <= k < rest.len() && rest[k] == kept[i];
                    assert(pending[k] == live[i]);
                    assert(pending[pending.len() - 1] == live[j]);
                }
            }
        }
        if senders_distinct(pending) {
            assert(senders_distinct(rest));
            assert forall|i: int, j: int|
                0 <= i < j < live.len() implies (#[trigger] live[i]).1.sender != (
            #[trigger] live[j]).1.sender by {
                assert(live[i] == kept[i]);
                if j < kept.len() {
                    assert(live[j] == kept[j]);
                } else {
                    let k = choose|k: int| 0 <= k < rest.len() && rest[k] == kept[i];
                    assert(pending[k] == live[i]);
                    assert(pending[pending.len() - 1] == live[j]);
                }
            }
        }
    }
}

/// A pairing that is still alive is the one found under its code and under its sender.
proof fn lemma_found_alive(pending: Seq<(Seq<char>, PendingModel)>, at: int, now: u64)
    requires
        0 <= at < pending.len(),
        pending[at].1.expires_at > now,
        codes_distinct(pending),
        senders_distinct(pending),
    ensures
        ({
            let live = access::live_at(pending, now);
            let by_code = access::key_index(live, pending[at].0);
            let by_sender = access::sender_index(live, pending[at].1.sender);
            &&& by_code < live.len() && live[by_code as int] == pending[at]
            &&& by_sender < live.len() && live[by_sender as int] == pending[at]
        }),
{
    let live = access::live_at(pending, now);
    lemma_live(pending, now);
    let i = choose|i: int| 0 <= i < live.len() && live[i] == pending[at];
    access::lemma_key_index_first(live, pending[at].0);
    access::lemma_sender_index_first(live, pending[at].1.sender);
    let by_code = access::key_index(live, pending[at].0) as int;
    let by_sender = access::sender_index(live, pending[at].1.sender) as int;
    if by_code < i {
        assert(live[by_code].0 == live[i].0);
    }
    if i < by_code {
        assert(live[i].0 != pending[at].0);
    }
    if by_sender < i {
        assert(live[by_sender].1.sender == live[i].1.sender);
    }
    if i < by_sender {
        assert(live[i].1.sender != pending[at].1.sender);
    }
}

/// With the disabled policy everybody gets through, and nothing changes.
pub proof fn lemma_disabled_lets_everybody_through(
    model: AccessModel,
    user: Seq<char>,
    room: Seq<char>,
    now: u64,
    code: Seq<char>,
)
    requires
        model.dm_policy == DmPolicy::Disabled,
    ensures
        model.checked(user, room, now, code) == (model, Ok::<(), Refusal>(())),
{
}

/// A list with a star in it lets everybody through, and one with a user's name that user: the
/// general list in every room, the list of a room in that room.
pub proof fn lemma_listed_gets_through(
    model: AccessModel,
    user: Seq<char>,
    room: Seq<char>,
    now: u64,
    code: Seq<char>,
)
    requires
        access::listed(model.allow_from, user) || (model.group(room) matches Some(g)
            && access::listed(g.allow_from, user)),
    ensures
        model.checked(user, room, now, code) == (model, Ok::<(), Refusal>(())),
{
}

/// With the allowlist policy whoever is not listed is refused, without a pairing.
pub proof fn lemma_allowlist_refuses_the_rest(
    model: AccessModel,
    user: Seq<char>,
    room: Seq<char>,
    now: u64,
    code: Seq<char>,
)
    requires
        model.dm_policy == DmPolicy::Allowlist,
        !model.admits(user, room),
    ensures
        model.checked(user, room, now, code) == (model, Err::<(), Refusal>(Refusal::Denied)),
{
}

/// A check never changes who is allowed, nor any other setting but the pending pairings.
pub proof fn lemma_check_keeps_settings(
    model: AccessModel,
    user: Seq<char>,
    room: Seq<char>,
    now: u64,
    code: Seq<char>,
)
    ensures
        model.checked(user, room, now, code).0.with_pending(model.pending) == model,
        model.marked(user).with_pending(model.pending) == model,
{
}

/// Checks, replies and approvals keep the configuration in order, a check where the code that it
/// draws is not taken, and the groups in any case: none of them touches a group.
pub proof fn lemma_well_formed_kept(
    model: AccessModel,
    user: Seq<char>,
    room: Seq<char>,
    now: u64,
    code: Seq<char>,
)
    requires
        well_formed(model),
    ensures
        well_formed(model.marked(user)),
        well_formed(model.approved(user, code, now).0),
        codes_distinct(model.checked(user, room, now, code).0.pending),
        model.checked(user, room, now, code).0.groups == model.groups,
        model.marked(user).groups == model.groups,
        model.approved(user, code, now).0.groups == model.groups,
        access::key_index(access::live_at(model.pending, now), code) >= access::live_at(
            model.pending,
            now,
        ).len() ==> well_formed(model.checked(user, room, now, code).0),
{
    let live = access::live_at(model.pending, now);
    lemma_live(model.pending, now);
    access::lemma_key_index_first(live, code);
    access::lemma_sender_index_first(live, user);
    access::lemma_sender_index_first(model.pending, user);
    let next = access::with_code(live, code, access::new_pairing(user, room, now));
    let at = access::key_index(live, code) as int;
    assert(codes_distinct(next)) by {
        assert forall|i: int, j: int| 0 <= i < j < next.len() implies (#[trigger] next[i]).0 != (
        #[trigger] next[j]).0 by {
            if at < live.len() {
                assert(live[at].0 == code);
                assert(live[i].0 != live[j].0);
            } else if j < live.len() {
                assert(live[i].0 != live[j].0);
            } else {
                assert(live[i].0 != code);
            }
        }
    }
    if at >= live.len() && access::sender_index(live, user) >= live.len() {
        assert forall|i: int, j: int| 0 <= i < j < next.len() implies (
        #[trigger] next[i]).1.sender != (#[trigger] next[j]).1.sender by {
            if j < live.len() {
                assert(live[i].1.sender != live[j].1.sender);
            } else {
                assert(live[i].1.sender != user);
            }
        }
    }
    let rest = live.remove(at);
    if at < live.len() {
        assert forall|i: int, j: int| 0 <= i < j < rest.len() implies (#[trigger] rest[i]).0 != (
        #[trigger] rest[j]).0 && rest[i].1.sender != rest[j].1.sender by {
            let i2 = if i < at {
                i
            } else {
                i + 1
            };
            let j2 = if j < at {
                j
            } else {
                j + 1
            };
            assert(rest[i] == live[i2] && rest[j] == live[j2]);
        }
    }
    let after = model.marked(user).pending;
    assert forall|i: int, j: int| 0 <= i < j < after.len() implies (#[trigger] after[i]).0 != (
    #[trigger] after[j]).0 && after[i].1.sender != after[j].1.sender by {
        assert(model.pending[i].0 != model.pending[j].0);
        assert(model.pending[i].1.sender != model.pending[j].1.sender);
    }
}

/// A configuration that is in order stays so where a file is read over it, if what the file holds
/// is in order too.
pub proof fn lemma_reading_keeps_order(read: Option<AccessConfig>, otherwise: AccessModel)
    requires
        well_formed(otherwise),
        read is Some ==> well_formed(read->0@),
    ensures
        well_formed(access::read_or(read, otherwise)),
{
}

/// A check never lets the pending pairings grow beyond their bound.
pub proof fn lemma_pending_bounded(
    model: AccessModel,
    user: Seq<char>,
    room: Seq<char>,
    now: u64,
    code: Seq<char>,
)
    ensures
        ({
            let after = model.checked(user, room, now, code).0.pending.len();
            after <= model.pending.len() || after <= access::MAX_PENDING
        }),
{
    lemma_live(model.pending, now);
}

/// With as many live pairings pending as there may be, a sender without one is turned away.
pub proof fn lemma_too_many_pending(
    model: AccessModel,
    user: Seq<char>,
    room: Seq<char>,
    now: u64,
    code: Seq<char>,
)
    requires
        model.pairs(user, room),
        access::live_at(model.pending, now).len() >= access::MAX_PENDING,
        forall|i: int|
            0 <= i < model.pending.len() ==> (#[trigger] model.pending[i]).1.sender != user,
    ensures
        model.checked(user, room, now, code).1 == Err::<(), Refusal>(Refusal::TooManyPending),
{
    let live = access::live_at(model.pending, now);
    lemma_live(model.pending, now);
    access::lemma_sender_index_first(live, user);
    let at = access::sender_index(live, user) as int;
    if at < live.len() {
        assert(model.pending.contains(live[at]));
        let j = choose|j: int| 0 <= j < model.pending.len() && model.pending[j] == live[at];
        assert(model.pending[j].1.sender != user);
    }
}

/// The whole pairing: a new sender is asked to pair and gets a code; approving that code for that
/// sender before it expires gives back the room of the request; from then on the sender gets
/// through everywhere.
pub proof fn lemma_pairing_flow(
    model: AccessModel,
    user: Seq<char>,
    room: Seq<char>,
    now: u64,
    code: Seq<char>,
    later: u64,
    elsewhere: Seq<char>,
    other_code: Seq<char>,
)
    requires
        model.pairs(user, room),
        ids::is_room_id(room),
        access::live_at(model.pending, now).len() < access::MAX_PENDING,
        access::sender_index(access::live_at(model.pending, now), user) >= access::live_at(
            model.pending,
            now,
        ).len(),
        later < now + access::PAIRING_LIFETIME <= u64::MAX,
    ensures
        ({
            let (asked, answer) = model.checked(user, room, now, code);
            let (paired, outcome) = asked.approved(user, code, later);
            &&& answer == Err::<(), Refusal>(Refusal::PairingRequired(code))
            &&& outcome == Ok::<Seq<char>, PairingError>(room)
            &&& paired.checked(user, elsewhere, later, other_code) == (paired, Ok::<(), Refusal>(()))
        }),
{
    let live = access::live_at(model.pending, now);
    let entry = access::new_pairing(user, room, now);
    let (asked, answer) = model.checked(user, room, now, code);
    access::lemma_key_index_first(live, code);
    let at = access::key_index(live, code) as int;
    assert(asked.pending == access::with_code(live, code, entry));
    assert(asked.pending[at] == (code, entry));
    assert forall|i: int| 0 <= i < at implies (#[trigger] asked.pending[i]).0 != code by {
        assert(asked.pending[i] == live[i]);
    }
    lemma_first_stays_first(asked.pending, code, at, later);
    let (paired, outcome) = asked.approved(user, code, later);
    assert(paired.allow_from.contains(user)) by {
        if !asked.allow_from.contains(user) {
            assert(paired.allow_from[asked.allow_from.len() as int] == user);
        }
    }
}

/// The first pairing under a code is, while it lives, the first live one under that code.
proof fn lemma_first_stays_first(
    pending: Seq<(Seq<char>, PendingModel)>,
    code: Seq<char>,
    at: int,
    now: u64,
)
    requires
        0 <= at < pending.len(),
        pending[at].0 == code,
        pending[at].1.expires_at > now,
        forall|i: int| 0 <= i < at ==> (#[trigger] pending[i]).0 != code,
    ensures
        ({
            let live = access::live_at(pending, now);
            let found = access::key_index(live, code);
            found < live.len() && live[found as int] == pending[at]
        }),
    decreases pending.len(),
{
    let live = access::live_at(pending, now);
    let rest = pending.drop_last();
    let kept = access::live_at(rest, now);
    reveal(Seq::filter);
    access::lemma_key_index_first(live, code);
    access::lemma_key_index_first(kept, code);
    let found = access::key_index(live, code) as int;
    if at < rest.len() {
        lemma_first_stays_first(rest, code, at, now);
        let before = access::key_index(kept, code) as int;
        assert(live[before] == kept[before]);
        if found < before {
            assert(kept[found].0 != code);
            assert(live[found] == kept[found]);
        }
        if before < found {
            assert(live[before].0 != code);
        }
    } else {
        lemma_live(rest, now);
        assert(live == kept.push(pending[at]));
        if found < kept.len() {
            let j = choose|j: int| 0 <= j < rest.len() && rest[j] == kept[found];
            assert(pending[j].0 != code);
            assert(live[found] == kept[found]);
        }
        assert(live[kept.len() as int].0 == code);
        if kept.len() < found {
            assert(live[kept.len() as int].0 != code);
        }
    }
}

/// Asking again before the code expires, while replies are left, gets the same code again, and the
/// pairings that have not expired stay as they are.
pub proof fn lemma_same_code_again(
    model: AccessModel,
    user: Seq<char>,
    room: Seq<char>,
    code: Seq<char>,
    at: int,
    now: u64,
)
    requires
        well_formed(model),
        model.pairs(user, room),
        0 <= at < model.pending.len(),
        model.pending[at].1.sender == user,
        model.pending[at].1.expires_at > now,
    ensures
        model.pending[at].1.replies < access::MAX_REPLIES_PER_SENDER ==> model.checked(
            user,
            room,
            now,
            code,
        ).1 == Err::<(), Refusal>(Refusal::PairingRequired(model.pending[at].0)),
        model.pending[at].1.replies >= access::MAX_REPLIES_PER_SENDER ==> model.checked(
            user,
            room,
            now,
            code,
        ).1 == Err::<(), Refusal>(Refusal::PairingPending(model.pending[at].0)),
        model.checked(user, room, now, code).0 == model.with_pending(
            access::live_at(model.pending, now),
        ),
{
    lemma_found_alive(model.pending, at, now);
}

/// The first pairing of a sender, where it is still alive, is the first of theirs that is.
proof fn lemma_first_of_sender_alive(
    pending: Seq<(Seq<char>, PendingModel)>,
    user: Seq<char>,
    now: u64,
)
    requires
        access::sender_index(pending, user) < pending.len(),
        pending[access::sender_index(pending, user) as int].1.expires_at > now,
    ensures
        ({
            let live = access::live_at(pending, now);
            let found = access::sender_index(live, user);
            &&& found < live.len()
            &&& live[found as int] == pending[access::sender_index(pending, user) as int]
        }),
    decreases pending.len(),
{
    let live = access::live_at(pending, now);
    let rest = pending.drop_last();
    let kept = access::live_at(rest, now);
    let at = access::sender_index(pending, user) as int;
    reveal(Seq::filter);
    access::lemma_sender_index_first(pending, user);
    access::lemma_sender_index_first(rest, user);
    access::lemma_sender_index_first(live, user);
    access::lemma_sender_index_first(kept, user);
    lemma_live(rest, now);
    if at < rest.len() {
        let in_rest = access::sender_index(rest, user) as int;
        if in_rest < at {
            assert(pending[in_rest] == rest[in_rest]);
        } else if at < in_rest {
            assert(rest[at] == pending[at]);
        }
        lemma_first_of_sender_alive(rest, user, now);
        let k = access::sender_index(kept, user) as int;
        assert(live[k] == kept[k]);
        let found = access::sender_index(live, user) as int;
        if found < k {
            assert(live[found] == kept[found]);
        }
    } else {
        let found = access::sender_index(live, user) as int;
        assert(live[kept.len() as int] == pending[at]);
        if found < kept.len() {
            assert(live[found] == kept[found]);
            let j = choose|j: int| 0 <= j < rest.len() && rest[j] == kept[found];
            assert(pending[j] == rest[j]);
        }
    }
}

/// A request that was answered with a code, repeated before the code expires, is answered with the
/// same code: the second request starts no second pairing, and whatever pairing has not expired
/// stays as it is.
pub proof fn lemma_repeated_request_gets_the_same_code(
    model: AccessModel,
    user: Seq<char>,
    room: Seq<char>,
    first: Seq<char>,
    second: Seq<char>,
    now: u64,
    later: u64,
)
    requires
        model.checked(user, room, now, first).1 matches Err(Refusal::PairingRequired(_)),
        ({
            let after = model.checked(user, room, now, first).0.pending;
            after[access::sender_index(after, user) as int].1.expires_at > later
        }),
    ensures
        ({
            let (after, answer) = model.checked(user, room, now, first);
            let (again, repeated) = after.checked(user, room, later, second);
            &&& repeated == answer
            &&& again == after.with_pending(access::live_at(after.pending, later))
            &&& forall|i: int|
                0 <= i < after.pending.len() && (#[trigger] after.pending[i]).1.expires_at > later
                    ==> again.pending.contains(after.pending[i])
        }),
{
    let (after, answer) = model.checked(user, room, now, first);
    let live = access::live_at(model.pending, now);
    access::lemma_sender_index_first(live, user);
    access::lemma_sender_index_first(after.pending, user);
    access::lemma_key_index_first(live, first);
    let at = access::sender_index(after.pending, user) as int;
    if access::sender_index(live, user) >= live.len() {
        let place = access::key_index(live, first) as int;
        assert(after.pending[place].1.sender == user);
        if at < place {
            assert(after.pending[at] == live[at]);
        }
    }
    assert(after.pairs(user, room));
    lemma_first_of_sender_alive(after.pending, user, later);
    lemma_live(after.pending, later);
}

/// The code that is drawn for a message makes a difference only where the message starts a pairing.
pub proof fn lemma_code_counts_only_for_a_new_pairing(
    model: AccessModel,
    user: Seq<char>,
    room: Seq<char>,
    now: u64,
    one: Seq<char>,
    other: Seq<char>,
)
    requires
        !model.starts_pairing(user, room, now),
    ensures
        model.checked(user, room, now, one) == model.checked(user, room, now, other),
{
}

/// After as many replies as a sender gets, asking again only says that the pairing is pending.
pub proof fn lemma_replies_are_limited(
    model: AccessModel,
    user: Seq<char>,
    room: Seq<char>,
    code: Seq<char>,
    at: int,
    now: u64,
)
    requires
        well_formed(model),
        model.pairs(user, room),
        0 <= at < model.pending.len(),
        model.pending[at].1.sender == user,
        model.pending[at].1.expires_at > now,
    ensures
        model.marked(user).marked(user).checked(user, room, now, code).1 == Err::<(), Refusal>(
            Refusal::PairingPending(model.pending[at].0),
        ),
{
    let once = model.marked(user);
    let twice = once.marked(user);
    lemma_well_formed_kept(model, user, room, now, code);
    lemma_well_formed_kept(once, user, room, now, code);
    lemma_marked_counts(model, user, at);
    lemma_marked_counts(once, user, at);
    assert(twice.pairs(user, room));
    lemma_same_code_again(twice, user, room, code, at, now);
}

/// A reply is counted on the pairing of its sender, and nowhere else.
pub proof fn lemma_marked_counts(model: AccessModel, user: Seq<char>, at: int)
    requires
        senders_distinct(model.pending),
        0 <= at < model.pending.len(),
        model.pending[at].1.sender == user,
    ensures
        ({
            let entry = model.pending[at].1;
            let counted = if entry.replies < 255 {
                (entry.replies + 1) as u8
            } else {
                255
            };
            model.marked(user).pending == model.pending.update(
                at,
                (model.pending[at].0, PendingModel { replies: counted, ..entry }),
            )
        }),
{
    access::lemma_sender_index_first(model.pending, user);
    let first = access::sender_index(model.pending, user) as int;
    if first < at {
        assert(model.pending[first].1.sender == model.pending[at].1.sender);
    }
    if at < first {
        assert(model.pending[at].1.sender != user);
    }
}

/// An approval adds nobody to the allow list but the user it is for, and it takes that user's own,
/// unexpired code: another user's code, a wrong one or an expired one changes nothing.
pub proof fn lemma_approval_needs_the_code(
    model: AccessModel,
    user: Seq<char>,
    code: Seq<char>,
    now: u64,
)
    ensures
        ({
            let (after, outcome) = model.approved(user, code, now);
            &&& outcome is Err ==> after == model
            &&& outcome is Ok ==> exists|i: int|
                0 <= i < model.pending.len() && (#[trigger] model.pending[i]).0 == code
                    && model.pending[i].1.sender == user && model.pending[i].1.expires_at > now
            &&& outcome is Ok ==> forall|other: Seq<char>| #[trigger]
                after.allow_from.contains(other) ==> other == user || model.allow_from.contains(
                    other,
                )
            &&& forall|other: Seq<char>| #[trigger]
                model.allow_from.contains(other) ==> after.allow_from.contains(other)
        }),
{
    let live = access::live_at(model.pending, now);
    let (after, outcome) = model.approved(user, code, now);
    lemma_live(model.pending, now);
    access::lemma_key_index_first(live, code);
    if outcome is Ok {
        let at = access::key_index(live, code) as int;
        assert(model.pending.contains(live[at]));
        let i = choose|i: int| 0 <= i < model.pending.len() && model.pending[i] == live[at];
        assert(model.pending[i].0 == code);
        assert forall|other: Seq<char>| #[trigger]
            after.allow_from.contains(other) implies other == user || model.allow_from.contains(
            other,
        ) by {
            let k = choose|k: int| 0 <= k < after.allow_from.len() && after.allow_from[k] == other;
            if k < model.allow_from.len() {
                assert(model.allow_from[k] == other);
            }
        }
        assert forall|other: Seq<char>| #[trigger]
            model.allow_from.contains(other) implies after.allow_from.contains(other) by {
            let k = choose|k: int| 0 <= k < model.allow_from.len() && model.allow_from[k] == other;
            assert(after.allow_from[k] == other);
        }
    }
}

/// A code can be approved once.
pub proof fn lemma_code_is_used_up(
    model: AccessModel,
    user: Seq<char>,
    code: Seq<char>,
    now: u64,
    later: u64,
)
    requires
        well_formed(model),
        model.approved(user, code, now).1 is Ok,
    ensures
        model.approved(user, code, now).0.approved(user, code, later).1 is Err,
{
    let live = access::live_at(model.pending, now);
    let after = model.approved(user, code, now).0;
    lemma_live(model.pending, now);
    access::lemma_key_index_first(live, code);
    let at = access::key_index(live, code) as int;
    let again = access::live_at(after.pending, later);
    lemma_live(after.pending, later);
    access::lemma_key_index_first(again, code);
    let found = access::key_index(again, code) as int;
    if found < again.len() {
        assert(after.pending.contains(again[found]));
        let i = choose|i: int| 0 <= i < after.pending.len() && after.pending[i] == again[found];
        let j = if i < at {
            i
        } else {
            i + 1
        };
        assert(live[j] == after.pending[i]);
        assert(live[j].0 == live[at].0);
        assert(j != at);
        if j < at {
            assert(live[j].0 != live[at].0);
        } else {
            assert(live[at].0 != live[j].0);
        }
    }
}

/// Whether a list holds a star or the user.
pub open spec fn named(list: Seq<Seq<char>>, user: Seq<char>) -> bool {
    exists|i: int| 0 <= i < list.len() && (#[trigger] list[i] == "*"@ || list[i] == user)
}

/// Whether the settings at `at` are those of `room`: the first that are kept under its id.
pub open spec fn settings_at(groups: Seq<(Seq<char>, GroupModel)>, room: Seq<char>, at: int) -> bool {
    &&& 0 <= at < groups.len()
    &&& groups[at].0 == room
    &&& forall|i: int| 0 <= i < at ==> (#[trigger] groups[i]).0 != room
}

/// Whether the list of `room`, if it has settings, holds a star or the user.
pub open spec fn named_in_room(
    groups: Seq<(Seq<char>, GroupModel)>,
    user: Seq<char>,
    room: Seq<char>,
) -> bool {
    exists|at: int| #[trigger]
        settings_at(groups, room, at) && named(groups[at].1.allow_from, user)
}

/// Whether access control is off, or the general list or the list of the room holds a star or the
/// user.
pub open spec fn may_talk(model: AccessModel, user: Seq<char>, room: Seq<char>) -> bool {
    ||| model.dm_policy == DmPolicy::Disabled
    ||| named(model.allow_from, user)
    ||| named_in_room(model.groups, user, room)
}

/// Whether two configurations differ in their pending pairings at most.
pub open spec fn same_settings(a: AccessModel, b: AccessModel) -> bool {
    &&& a.dm_policy == b.dm_policy
    &&& a.allow_from == b.allow_from
    &&& a.groups == b.groups
    &&& a.ack_reaction == b.ack_reaction
    &&& a.text_chunk_limit == b.text_chunk_limit
    &&& a.chunk_mode == b.chunk_mode
    &&& a.reply_to_mode == b.reply_to_mode
}

/// The pairings whose time has not come at `now`, in their order.
pub open spec fn unexpired(pending: Seq<(Seq<char>, PendingModel)>, now: u64) -> Seq<
    (Seq<char>, PendingModel),
> {
    pending.filter(|item: (Seq<char>, PendingModel)| now < item.1.expires_at)
}

/// Whether the pairing at `at` is the first of `user`.
pub open spec fn pairing_at(
    pending: Seq<(Seq<char>, PendingModel)>,
    user: Seq<char>,
    at: int,
) -> bool {
    &&& 0 <= at < pending.len()
    &&& pending[at].1.sender == user
    &&& forall|i: int| 0 <= i < at ==> (#[trigger] pending[i]).1.sender != user
}

/// Whether the pairing at `at` is the first under `code`.
pub open spec fn code_at(
    pending: Seq<(Seq<char>, PendingModel)>,
    code: Seq<char>,
    at: int,
) -> bool {
    &&& 0 <= at < pending.len()
    &&& pending[at].0 == code
    &&& forall|i: int| 0 <= i < at ==> (#[trigger] pending[i]).0 != code
}

proof fn lemma_named(list: Seq<Seq<char>>, user: Seq<char>)
    ensures
        access::listed(list, user) <==> named(list, user),
{
    if list.contains("*"@) {
        let i = choose|i: int| 0 <= i < list.len() && list[i] == "*"@;
        assert(list[i] == "*"@);
    }
    if list.contains(user) {
        let i = choose|i: int| 0 <= i < list.len() && list[i] == user;
        assert(list[i] == user);
    }
    if named(list, user) {
        let i = choose|i: int|
            0 <= i < list.len() && (#[trigger] list[i] == "*"@ || list[i] == user);
        assert(list.contains(list[i]));
    }
}

proof fn lemma_settings(model: AccessModel, room: Seq<char>)
    ensures
        match model.group(room) {
            Some(g) => exists|at: int| #[trigger]
                settings_at(model.groups, room, at) && g == model.groups[at].1,
            None => forall|at: int| !#[trigger] settings_at(model.groups, room, at),
        },
        forall|at: int| #[trigger]
            settings_at(model.groups, room, at) ==> model.group(room) == Some(model.groups[at].1),
{
    access::lemma_key_index_first(model.groups, room);
    let found = access::key_index(model.groups, room) as int;
    if found < model.groups.len() {
        assert(settings_at(model.groups, room, found));
    }
    assert forall|at: int| #[trigger] settings_at(model.groups, room, at) implies model.group(room)
        == Some(model.groups[at].1) by {
        if found < at {
            assert(model.groups[found].0 != room);
        } else if at < found {
            assert(model.groups[at].0 != room);
        }
    }
}

proof fn lemma_may_talk(model: AccessModel, user: Seq<char>, room: Seq<char>)
    ensures
        model.admits(user, room) <==> may_talk(model, user, room),
{
    lemma_named(model.allow_from, user);
    lemma_settings(model, room);
    if let Some(g) = model.group(room) {
        lemma_named(g.allow_from, user);
        let at = choose|at: int| #[trigger]
            settings_at(model.groups, room, at) && g == model.groups[at].1;
        assert(settings_at(model.groups, room, at));
    }
    if named_in_room(model.groups, user, room) {
        let at = choose|at: int| #[trigger]
            settings_at(model.groups, room, at) && named(model.groups[at].1.allow_from, user);
        assert(settings_at(model.groups, room, at));
    }
}

/// A sender gets through exactly if access control is off, or the general list holds a star or the
/// sender, or the list of that room does; then nothing changes. Where the policy is the allow list,
/// everybody else is denied, and nothing changes either.
pub proof fn lemma_who_gets_through(
    model: AccessModel,
    user: Seq<char>,
    room: Seq<char>,
    now: u64,
    code: Seq<char>,
)
    ensures
        ({
            let (after, answer) = model.checked(user, room, now, code);
            &&& answer is Ok <==> may_talk(model, user, room)
            &&& may_talk(model, user, room) ==> after == model
            &&& !may_talk(model, user, room) && model.dm_policy == DmPolicy::Allowlist ==> after
                == model && answer == Err::<(), Refusal>(Refusal::Denied)
            &&& same_settings(after, model)
        }),
{
    lemma_may_talk(model, user, room);
}

/// With the pairing policy, whoever does not get through is asked to pair. The pairings that have
/// expired are dropped. A sender who has one that has not is told its code again, or, after two
/// replies, only that it is pending. Any other is turned away where three are pending, and else
/// given the code, under which a pairing for that room waits for an hour; the others stay.
pub proof fn lemma_how_strangers_pair(
    model: AccessModel,
    user: Seq<char>,
    room: Seq<char>,
    now: u64,
    code: Seq<char>,
)
    requires
        model.dm_policy == DmPolicy::Pairing,
        !may_talk(model, user, room),
        now + 3_600_000 <= u64::MAX,
    ensures
        ({
            let live = unexpired(model.pending, now);
            let (after, answer) = model.checked(user, room, now, code);
            let new = (
                code,
                PendingModel {
                    sender: user,
                    chat: room,
                    created_at: now,
                    expires_at: (now + 3_600_000) as u64,
                    replies: 0,
                },
            );
            &&& forall|at: int| #[trigger]
                pairing_at(live, user, at) ==> after.pending == live && answer == Err::<
                    (),
                    Refusal,
                >(
                    if live[at].1.replies < 2 {
                        Refusal::PairingRequired(live[at].0)
                    } else {
                        Refusal::PairingPending(live[at].0)
                    },
                )
            &&& (forall|at: int| !#[trigger] pairing_at(live, user, at)) ==> if live.len() >= 3 {
                after.pending == live && answer == Err::<(), Refusal>(Refusal::TooManyPending)
            } else {
                &&& answer == Err::<(), Refusal>(Refusal::PairingRequired(code))
                &&& after.pending.contains(new)
                &&& forall|i: int|
                    0 <= i < live.len() && (#[trigger] live[i]).0 != code
                        ==> after.pending.contains(live[i])
                &&& forall|i: int|
                    0 <= i < after.pending.len() ==> (#[trigger] after.pending[i]) == new
                        || live.contains(after.pending[i])
                &&& (forall|i: int| 0 <= i < live.len() ==> (#[trigger] live[i]).0 != code)
                    ==> after.pending == live.push(new)
            }
        }),
{
    lemma_may_talk(model, user, room);
    let live = unexpired(model.pending, now);
    assert(live == access::live_at(model.pending, now)) by {
        lemma_unexpired(model.pending, now);
    }
    access::lemma_sender_index_first(live, user);
    access::lemma_key_index_first(live, code);
    let found = access::sender_index(live, user) as int;
    if found < live.len() {
        assert(pairing_at(live, user, found));
        assert forall|at: int| #[trigger] pairing_at(live, user, at) implies at == found by {
            if at < found {
                assert(live[at].1.sender != user);
            } else if found < at {
                assert(live[found].1.sender != user);
            }
        }
    } else {
        assert forall|at: int| !#[trigger] pairing_at(live, user, at) by {
            if pairing_at(live, user, at) {
                assert(live[at].1.sender != user);
            }
        }
        if live.len() < 3 {
            let after = model.checked(user, room, now, code).0.pending;
            let place = access::key_index(live, code) as int;
            assert(after[place].0 == code);
            assert(after.contains(after[place]));
            assert forall|i: int| 0 <= i < live.len() && (#[trigger] live[i]).0
                != code implies after.contains(live[i]) by {
                assert(after[i] == live[i]);
            }
            assert forall|i: int| 0 <= i < after.len() && i != place implies live.contains(
                #[trigger] after[i],
            ) by {
                assert(after[i] == live[i]);
            }
        }
    }
}

proof fn lemma_unexpired(pending: Seq<(Seq<char>, PendingModel)>, now: u64)
    ensures
        unexpired(pending, now) == access::live_at(pending, now),
    decreases pending.len(),
{
    reveal(Seq::filter);
    if pending.len() > 0 {
        lemma_unexpired(pending.drop_last(), now);
    }
}

/// A reply counts on the first pairing of its sender, up to 255 of them, and changes nothing else.
pub proof fn lemma_replies_count(model: AccessModel, user: Seq<char>)
    ensures
        ({
            let after = model.marked(user);
            &&& same_settings(after, model)
            &&& (forall|at: int| !#[trigger] pairing_at(model.pending, user, at)) ==> after.pending
                == model.pending
            &&& forall|at: int| #[trigger]
                pairing_at(model.pending, user, at) ==> {
                    let (code, entry) = model.pending[at];
                    &&& after.pending.len() == model.pending.len()
                    &&& forall|i: int|
                        0 <= i < model.pending.len() && i != at ==> #[trigger] after.pending[i]
                            == model.pending[i]
                    &&& after.pending[at].0 == code
                    &&& after.pending[at].1.sender == entry.sender
                    &&& after.pending[at].1.chat == entry.chat
                    &&& after.pending[at].1.created_at == entry.created_at
                    &&& after.pending[at].1.expires_at == entry.expires_at
                    &&& after.pending[at].1.replies == if entry.replies == 255 {
                        255
                    } else {
                        entry.replies + 1
                    }
                }
        }),
{
    access::lemma_sender_index_first(model.pending, user);
    let found = access::sender_index(model.pending, user) as int;
    if found < model.pending.len() {
        assert(pairing_at(model.pending, user, found));
    }
    assert forall|at: int| #[trigger] pairing_at(model.pending, user, at) implies at == found by {
        if at < found {
            assert(model.pending[at].1.sender != user);
        } else if found < at {
            assert(model.pending[found].1.sender != user);
        }
    }
}

/// An approval goes through exactly if the code is that of an unexpired pairing of that user, asked
/// for in a room with a room id. Then that room is given back, the user is on the general list, the
/// pairing is gone, and with it those that have expired. Otherwise nothing changes.
pub proof fn lemma_what_an_approval_does(
    model: AccessModel,
    user: Seq<char>,
    code: Seq<char>,
    now: u64,
)
    ensures
        ({
            let live = unexpired(model.pending, now);
            let (after, outcome) = model.approved(user, code, now);
            let good = |at: int|
                code_at(live, code, at) && live[at].1.sender == user && live[at].1.chat.len() > 0
                    && live[at].1.chat[0] == '!';
            &&& outcome is Ok <==> exists|at: int| #[trigger] code_at(live, code, at) && good(at)
            &&& outcome is Err ==> after == model && outcome == Err::<Seq<char>, PairingError>(
                PairingError::NoPendingPairing,
            )
            &&& forall|at: int| #[trigger]
                code_at(live, code, at) && good(at) ==> {
                    &&& outcome == Ok::<Seq<char>, PairingError>(live[at].1.chat)
                    &&& after.pending == live.take(at) + live.skip(at + 1)
                    &&& after.allow_from == if model.allow_from.contains(user) {
                        model.allow_from
                    } else {
                        model.allow_from.push(user)
                    }
                    &&& same_settings(
                        AccessModel { allow_from: model.allow_from, ..after },
                        model,
                    )
                }
        }),
{
    let live = unexpired(model.pending, now);
    lemma_unexpired(model.pending, now);
    access::lemma_key_index_first(live, code);
    let found = access::key_index(live, code) as int;
    if found < live.len() {
        assert(code_at(live, code, found));
        assert(live.remove(found) =~= live.take(found) + live.skip(found + 1));
    }
    assert forall|at: int| #[trigger] code_at(live, code, at) implies at == found by {
        if at < found {
            assert(live[at].0 != code);
        } else if found < at {
            assert(live[found].0 != code);
        }
    }
}

/// Messages have to mention the bridge exactly in the rooms whose settings say so, and what counts
/// as a mention there is what those settings list.
pub proof fn lemma_mention_settings(model: AccessModel, room: Seq<char>)
    ensures
        model.mention_required(room) <==> exists|at: int| #[trigger]
            settings_at(model.groups, room, at) && model.groups[at].1.require_mention,
        forall|at: int| #[trigger]
            settings_at(model.groups, room, at) ==> model.patterns_in(room)
                == model.groups[at].1.mention_patterns,
        (forall|at: int| !#[trigger] settings_at(model.groups, room, at)) ==> model.patterns_in(
            room,
        ).len() == 0,
{
    lemma_settings(model, room);
    if let Some(g) = model.group(room) {
        let at = choose|at: int| #[trigger]
            settings_at(model.groups, room, at) && g == model.groups[at].1;
        assert(settings_at(model.groups, room, at));
    }
}

/// What a file holds takes the place of what held before; an attempt to read that came to nothing
/// changes nothing.
pub proof fn lemma_what_was_read_holds(read: AccessConfig, otherwise: AccessModel)
    ensures
        access::read_or(Some(read), otherwise) == read@,
        access::read_or(None, otherwise) == otherwise,
{
}

/// Pairing codes are six characters long, and made of the letters from A to Z without I and O and
/// the digits from 2 to 9.
pub proof fn lemma_what_codes_are_made_of(code: Seq<char>)
    ensures
        access::is_code(code) <==> code.len() == 6 && forall|i: int|
            0 <= i < code.len() ==> ('A' <= #[trigger] code[i] <= 'Z' && code[i] != 'I' && code[i]
                != 'O') || '2' <= code[i] <= '9',
{
    reveal_strlit("ABCDEFGHJKLMNPQRSTUVWXYZ23456789");
    let all = access::charset();
    assert(all.len() == 32);
    assert forall|c: char| #[trigger]
        all.contains(c) <==> ('A' <= c <= 'Z' && c != 'I' && c != 'O') || '2' <= c <= '9' by {
        if ('A' <= c <= 'Z' && c != 'I' && c != 'O') || '2' <= c <= '9' {
            let i = if c <= '9' {
                c as int - 50 + 24
            } else if c as int <= 72 {
                c as int - 65
            } else if c as int <= 78 {
                c as int - 66
            } else {
                c as int - 67
            };
            assert(all[i] == c);
        }
        if all.contains(c) {
            let i = choose|i: int| 0 <= i < all.len() && all[i] == c;
            assert(0 <= i < 32);
        }
    }
}

/// The characters of pairing codes in their order: the letters from A on, and then the digits from 2
/// on.
pub proof fn lemma_order_of_the_code_characters(i: int)
    requires
        0 <= i < 32,
    ensures
        access::charset().len() == 32,
        access::charset()[i] as int == if i < 8 {
            65 + i
        } else if i < 13 {
            66 + i
        } else if i < 24 {
            67 + i
        } else {
            26 + i
        },
{
    reveal_strlit("ABCDEFGHJKLMNPQRSTUVWXYZ23456789");
}

/// A file has to be read unless it is known when it was modified, and that is when the file that was
/// read or written last was: a change takes effect at once.
pub proof fn lemma_changes_are_noticed(control: AccessControl, mtime: Option<i128>)
    ensures
        control.stale(mtime) <==> !(mtime matches Some(now) && control.last_mtime matches Some(last)
            && now == last),
{
}

/// What is said of a configuration is what it holds, field by field and entry by entry.
pub proof fn lemma_what_a_configuration_says(config: AccessConfig)
    ensures
        config@.dm_policy == config.dm_policy,
        config@.ack_reaction == config.ack_reaction@,
        config@.text_chunk_limit == config.text_chunk_limit,
        config@.chunk_mode == config.chunk_mode,
        config@.reply_to_mode == config.reply_to_mode,
        config@.allow_from.len() == config.allow_from@.len(),
        forall|i: int|
            0 <= i < config.allow_from@.len() ==> #[trigger] config@.allow_from[i]
                == config.allow_from@[i]@,
        config@.groups.len() == config.groups@.len(),
        forall|i: int|
            0 <= i < config.groups@.len() ==> {
                let (room, group) = #[trigger] config@.groups[i];
                let held = config.groups@[i].1;
                &&& room == config.groups@[i].0@
                &&& group.require_mention == held.require_mention
                &&& group.allow_from.len() == held.allow_from@.len()
                &&& forall|j: int|
                    0 <= j < held.allow_from@.len() ==> #[trigger] group.allow_from[j]
                        == held.allow_from@[j]@
                &&& group.mention_patterns.len() == held.mention_patterns@.len()
                &&& forall|j: int|
                    0 <= j < held.mention_patterns@.len() ==> #[trigger] group.mention_patterns[j]
                        == held.mention_patterns@[j]@
            },
        config@.pending.len() == config.pending@.len(),
        forall|i: int|
            0 <= i < config.pending@.len() ==> {
                let (code, entry) = #[trigger] config@.pending[i];
                let held = config.pending@[i].1;
                &&& code == config.pending@[i].0@
                &&& entry.sender == held.sender_id@
                &&& entry.chat == held.chat_id@
                &&& entry.created_at == held.created_at
                &&& entry.expires_at == held.expires_at
                &&& entry.replies == held.replies
            },
{
}

/// What holds without a file: pairing, with nobody listed and nothing pending, the eyes as the
/// reaction, and replies of at most 4096 characters, cut at line breaks, of which the first shows
/// what it answers.
pub proof fn lemma_what_holds_without_a_file()
    ensures
        ({
            let model = access::default_access();
            &&& model.dm_policy == DmPolicy::Pairing
            &&& model.allow_from.len() == 0 && model.groups.len() == 0 && model.pending.len() == 0
            &&& model.ack_reaction == "\u{1F440}"@
            &&& model.text_chunk_limit == 4096
            &&& model.chunk_mode == access::ChunkMode::Newline
            &&& model.reply_to_mode == access::ReplyToMode::First
        }),
{
}

/// What is said of the rules at work is what the configuration in force says, and an answer says what
/// it is, with its code.
pub proof fn lemma_what_answers_say(control: AccessControl, code: String)
    ensures
        control@ == control.config@,
        access::answer_model(Ok(())) == Ok::<(), Refusal>(()),
        access::answer_model(Err(AccessDenied::PairingRequired(code))) == Err::<(), Refusal>(
            Refusal::PairingRequired(code@),
        ),
        access::answer_model(Err(AccessDenied::PairingPending(code))) == Err::<(), Refusal>(
            Refusal::PairingPending(code@),
        ),
        access::answer_model(Err(AccessDenied::TooManyPending)) == Err::<(), Refusal>(
            Refusal::TooManyPending,
        ),
        access::answer_model(Err(AccessDenied::Denied)) == Err::<(), Refusal>(Refusal::Denied),
{
}

} // verus!
