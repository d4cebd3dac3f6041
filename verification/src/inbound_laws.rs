//! What becomes of a message, from what it says, who sent it and where.

use vstd::prelude::*;

use crate::access::{AccessModel, DmPolicy, PendingModel, Refusal};
use crate::access_laws;
use crate::content;
use crate::content::MessageBody;
use crate::content_laws;
use crate::inbound;
use crate::inbound::{ReceptionModel, ScreeningModel};
use crate::mention;
use crate::rooms::RoomsModel;
use crate::text;
use crate::text_laws;
use crate::verdict;
use crate::verdict::VerdictModel;
use crate::verdict_laws;

verus! {

/// A text message of somebody else is for the bridge itself exactly if what it says for itself
/// starts with a slash; otherwise it is to be passed on, all that it says for itself, without
/// files. The bridge's own messages are ignored.
pub proof fn lemma_text_is_screened(sender: Seq<char>, own_id: Seq<char>, s: String)
    ensures
        sender == own_id ==> inbound::screened(sender, own_id, MessageBody::Text(s))
            == ScreeningModel::Ignore,
        sender != own_id ==> match inbound::screened(sender, own_id, MessageBody::Text(s)) {
            ScreeningModel::Ignore => false,
            ScreeningModel::Command(words) => content_laws::says_for_itself(s@, words)
                && words.len() > 0 && words[0] == '/',
            ScreeningModel::Message(words, files) => content_laws::says_for_itself(s@, words) && !(
            words.len() > 0 && words[0] == '/') && files.len() == 0,
        },
{
    content_laws::lemma_text_is_passed_on(s);
}

/// A message with a file is to be passed on with its file; one that is neither text nor a file is
/// ignored.
pub proof fn lemma_file_is_screened(sender: Seq<char>, own_id: Seq<char>, media: content::Media)
    requires
        sender != own_id,
    ensures
        inbound::screened(sender, own_id, MessageBody::Media(media)) matches ScreeningModel::Message(
            words,
            files,
        ) && content::description(MessageBody::Media(media)) == Some((words, files)) && files.len()
            == 1 && files[0].name == media.body@,
        inbound::screened(sender, own_id, MessageBody::Other) == ScreeningModel::Ignore,
{
    content_laws::lemma_file_is_passed_on(media);
    reveal_strlit("[Image: ");
    reveal_strlit("[File: ");
    reveal_strlit("[Audio: ");
    reveal_strlit("[Video: ");
    let (words, _) = content::description(MessageBody::Media(media))->0;
    assert(words[0] == '[');
}

/// Whether a text stands somewhere in another, character by character.
pub open spec fn stands_in(needle: Seq<char>, hay: Seq<char>) -> bool {
    exists|at: int| #[trigger] text_laws::stands_at(needle, hay, at)
}

/// Whether a text stands in another from `at` on, whatever the case of its letters.
pub open spec fn stands_in_any_case_at(needle: Seq<char>, hay: Seq<char>, at: int) -> bool {
    &&& 0 <= at
    &&& at + needle.len() <= hay.len()
    &&& forall|j: int|
        0 <= j < needle.len() ==> text_laws::same_letter(hay[at + j], #[trigger] needle[j])
}

proof fn lemma_any_case(needle: Seq<char>, hay: Seq<char>)
    requires
        text_laws::plain(needle),
        text_laws::plain(hay),
    ensures
        stands_in(text::lowered(needle), text::lowered(hay)) <==> exists|at: int| #[trigger]
            stands_in_any_case_at(needle, hay, at),
{
    let low = text::lowered(needle);
    let wide = text::lowered(hay);
    text_laws::lemma_lower_case(needle, hay);
    text_laws::lemma_lower_case(hay, needle);
    if stands_in(low, wide) {
        let at = choose|at: int| #[trigger] text_laws::stands_at(low, wide, at);
        assert forall|j: int| 0 <= j < needle.len() implies text_laws::same_letter(
            hay[at + j],
            #[trigger] needle[j],
        ) by {
            assert(wide[at + j] == low[j]);
        }
        assert(stands_in_any_case_at(needle, hay, at));
    }
    if exists|at: int| #[trigger] stands_in_any_case_at(needle, hay, at) {
        let at = choose|at: int| #[trigger] stands_in_any_case_at(needle, hay, at);
        assert forall|j: int| 0 <= j < low.len() implies wide[at + j] == #[trigger] low[j] by {
            assert(text_laws::same_letter(hay[at + j], needle[j]));
            assert(wide[at + j] as int == low[j] as int);
        }
        assert(text_laws::stands_at(low, wide, at));
    }
}

/// In a room whose settings ask for a mention, the bridge hears exactly the messages in which its
/// id stands, or its name, if it has one, or, both in lower case, one of the patterns of those
/// settings. In any other room it hears every message.
pub proof fn lemma_what_is_heard(
    rules: AccessModel,
    room: Seq<char>,
    own_id: Seq<char>,
    own_name: Option<Seq<char>>,
    s: Seq<char>,
)
    ensures
        inbound::hears(rules, room, own_id, own_name, s) <==> {
            ||| forall|at: int| #[trigger]
                access_laws::settings_at(rules.groups, room, at)
                    ==> !rules.groups[at].1.require_mention
            ||| stands_in(own_id, s)
            ||| own_name matches Some(name) && stands_in(name, s)
            ||| exists|at: int, i: int|
                #![trigger access_laws::settings_at(rules.groups, room, at), rules.groups[at].1.mention_patterns[i]]
                access_laws::settings_at(rules.groups, room, at) && 0 <= i
                    < rules.groups[at].1.mention_patterns.len() && stands_in(
                    text::lowered(rules.groups[at].1.mention_patterns[i]),
                    text::lowered(s),
                )
        },
{
    access_laws::lemma_mention_settings(rules, room);
    text_laws::lemma_what_occurs(own_id, s);
    if let Some(name) = own_name {
        text_laws::lemma_what_occurs(name, s);
    }
    let patterns = rules.patterns_in(room);
    assert forall|i: int| 0 <= i < patterns.len() implies (mention::occurs_in_any_case(
        #[trigger] patterns[i],
        s,
    ) <==> stands_in(text::lowered(patterns[i]), text::lowered(s))) by {
        text_laws::lemma_what_occurs(text::lowered(patterns[i]), text::lowered(s));
    }
    if mention::any_occurs(patterns, s) {
        let i = choose|i: int|
            0 <= i < patterns.len() && mention::occurs_in_any_case(#[trigger] patterns[i], s);
        if rules.mention_required(room) {
            let at = choose|at: int| #[trigger]
                access_laws::settings_at(rules.groups, room, at)
                    && rules.groups[at].1.require_mention;
            assert(rules.groups[at].1.mention_patterns[i] == patterns[i]);
        }
    }
    if exists|at: int, i: int|
        #![trigger access_laws::settings_at(rules.groups, room, at), rules.groups[at].1.mention_patterns[i]]
        access_laws::settings_at(rules.groups, room, at) && 0 <= i
            < rules.groups[at].1.mention_patterns.len() && stands_in(
            text::lowered(rules.groups[at].1.mention_patterns[i]),
            text::lowered(s),
        ) {
        let (at, i) = choose|at: int, i: int|
            #![trigger access_laws::settings_at(rules.groups, room, at), rules.groups[at].1.mention_patterns[i]]
            access_laws::settings_at(rules.groups, room, at) && 0 <= i
                < rules.groups[at].1.mention_patterns.len() && stands_in(
                text::lowered(rules.groups[at].1.mention_patterns[i]),
                text::lowered(s),
            );
        assert(patterns[i] == rules.groups[at].1.mention_patterns[i]);
        assert(mention::occurs_in_any_case(patterns[i], s));
    }
}

/// An ASCII pattern is found in an ASCII message exactly if it stands there letter by letter, each
/// in whatever case.
pub proof fn lemma_patterns_in_any_case(pattern: Seq<char>, s: Seq<char>)
    requires
        text_laws::plain(pattern),
        text_laws::plain(s),
    ensures
        mention::occurs_in_any_case(pattern, s) <==> exists|at: int| #[trigger]
            stands_in_any_case_at(pattern, s, at),
{
    text_laws::lemma_what_occurs(text::lowered(pattern), text::lowered(s));
    lemma_any_case(pattern, s);
}

/// A message that gets through is relayed as a verdict if it is one on a request that waits, with a
/// tick where it allows and a cross where it denies, and else passed on, with a sign of typing
/// exactly if no file comes with it. A sender who has to pair is told the code; every other message
/// is dropped.
pub proof fn lemma_what_is_done(
    agent: Seq<char>,
    found: Option<VerdictModel>,
    waiting: Seq<Seq<char>>,
    has_files: bool,
    code: Seq<char>,
)
    ensures
        found matches Some(v) && waiting.contains(v.request) ==> inbound::reaction(
            agent,
            Ok(()),
            found,
            waiting,
            has_files,
        ) == (ReceptionModel::Verdict {
            verdict: found->0,
            emoji: if found->0.behavior == "allow"@ {
                "✅"@
            } else {
                "❌"@
            },
        }),
        !(found matches Some(v) && waiting.contains(v.request)) ==> inbound::reaction(
            agent,
            Ok(()),
            found,
            waiting,
            has_files,
        ) == (ReceptionModel::Forward { typing: !has_files }),
        inbound::reaction(agent, Err(Refusal::PairingRequired(code)), found, waiting, has_files)
            == (ReceptionModel::Pairing {
            reply: "Pairing required. Ask the "@ + agent
                + " Code operator to approve you with code: "@ + code,
        }),
        inbound::reaction(agent, Err(Refusal::PairingPending(code)), found, waiting, has_files)
            == ReceptionModel::Drop,
        inbound::reaction(agent, Err(Refusal::TooManyPending), found, waiting, has_files)
            == ReceptionModel::Drop,
        inbound::reaction(agent, Err(Refusal::Denied), found, waiting, has_files)
            == ReceptionModel::Drop,
{
}

/// Whoever may talk is heard: the room is known from then on and the last active one, the others
/// stay known, and no rule changes. Whoever may not leaves the rooms as they were.
pub proof fn lemma_what_is_remembered(
    rules: AccessModel,
    rooms: RoomsModel,
    sender: Seq<char>,
    room: Seq<char>,
    now: u64,
    code: Seq<char>,
)
    ensures
        ({
            let (after, known) = inbound::remembered_after(rules, rooms, sender, room, now, code);
            &&& access_laws::same_settings(after, rules)
            &&& access_laws::may_talk(rules, sender, room) ==> after == rules && known.last_active
                == Some(room) && forall|other: Seq<char>| #[trigger]
                known.rooms.contains(other) <==> rooms.rooms.contains(other) || other == room
            &&& !access_laws::may_talk(rules, sender, room) ==> known == rooms
        }),
{
    access_laws::lemma_who_gets_through(rules, sender, room, now, code);
    let asked = rules.checked(sender, room, now, code).0;
    access_laws::lemma_replies_count(asked, sender);
}

/// A stranger's first message starts a pairing on which the reply to it counts already.
pub proof fn lemma_first_message_of_a_stranger(
    rules: AccessModel,
    rooms: RoomsModel,
    sender: Seq<char>,
    room: Seq<char>,
    now: u64,
    code: Seq<char>,
)
    requires
        rules.dm_policy == DmPolicy::Pairing,
        !access_laws::may_talk(rules, sender, room),
        now + 3_600_000 <= u64::MAX,
        access_laws::unexpired(rules.pending, now).len() < 3,
        forall|i: int|
            0 <= i < access_laws::unexpired(rules.pending, now).len() ==> (
            #[trigger] access_laws::unexpired(rules.pending, now)[i]).1.sender != sender
                && access_laws::unexpired(rules.pending, now)[i].0 != code,
    ensures
        inbound::remembered_after(rules, rooms, sender, room, now, code).0.pending
            == access_laws::unexpired(rules.pending, now).push(
            (
                code,
                PendingModel {
                    sender,
                    chat: room,
                    created_at: now,
                    expires_at: (now + 3_600_000) as u64,
                    replies: 1,
                },
            ),
        ),
{
    let live = access_laws::unexpired(rules.pending, now);
    access_laws::lemma_how_strangers_pair(rules, sender, room, now, code);
    assert forall|at: int| !#[trigger] access_laws::pairing_at(live, sender, at) by {
        if access_laws::pairing_at(live, sender, at) {
            assert(live[at].1.sender != sender);
        }
    }
    let asked = rules.checked(sender, room, now, code).0;
    access_laws::lemma_replies_count(asked, sender);
    let last = live.len() as int;
    assert(access_laws::pairing_at(asked.pending, sender, last)) by {
        assert forall|i: int| 0 <= i < last implies (#[trigger] asked.pending[i]).1.sender
            != sender by {
            assert(asked.pending[i] == live[i]);
        }
    }
    let after = inbound::remembered_after(rules, rooms, sender, room, now, code).0.pending;
    let wanted = live.push(
        (
            code,
            PendingModel {
                sender,
                chat: room,
                created_at: now,
                expires_at: (now + 3_600_000) as u64,
                replies: 1,
            },
        ),
    );
    assert forall|i: int| 0 <= i < after.len() implies after[i] == wanted[i] by {
        if i < last {
            assert(after[i] == asked.pending[i]);
        }
    }
    assert(after =~= wanted);
}

/// Somebody who may talk and answers a waiting request with yes or no and its id has that verdict
/// relayed, and reacted to.
pub proof fn lemma_answers_reach_the_agent(
    agent: Seq<char>,
    rules: AccessModel,
    sender: Seq<char>,
    room: Seq<char>,
    now: u64,
    code: Seq<char>,
    id: Seq<char>,
    waiting: Seq<Seq<char>>,
    has_files: bool,
)
    requires
        access_laws::may_talk(rules, sender, room),
        verdict_laws::five_letters(id),
        waiting.contains(id),
    ensures
        inbound::reaction(
            agent,
            rules.checked(sender, room, now, code).1,
            verdict::verdict_in_message("yes "@ + id),
            waiting,
            has_files,
        ) == (ReceptionModel::Verdict {
            verdict: VerdictModel { request: id, behavior: "allow"@ },
            emoji: "✅"@,
        }),
        inbound::reaction(
            agent,
            rules.checked(sender, room, now, code).1,
            verdict::verdict_in_message("no "@ + id),
            waiting,
            has_files,
        ) == (ReceptionModel::Verdict {
            verdict: VerdictModel { request: id, behavior: "deny"@ },
            emoji: "❌"@,
        }),
{
    access_laws::lemma_who_gets_through(rules, sender, room, now, code);
    verdict_laws::lemma_yes_allows_and_no_denies(id);
    reveal_strlit("allow");
    reveal_strlit("deny");
    assert("allow"@.len() == 5 && "deny"@.len() == 4);
}

/// What is said of what is to be done, of what a message is, and of what the agent is told, is what
/// those hold.
pub proof fn lemma_what_outcomes_say(
    reception: inbound::Reception,
    screening: inbound::Screening,
    n: inbound::ChannelNotification,
)
    ensures
        match reception {
            inbound::Reception::Forward { typing } => reception@ == (ReceptionModel::Forward {
                typing,
            }),
            inbound::Reception::Verdict { verdict, emoji } => reception@ == (
            ReceptionModel::Verdict { verdict: verdict@, emoji: emoji@ }),
            inbound::Reception::Pairing { reply } => reception@ == (ReceptionModel::Pairing {
                reply: reply@,
            }),
            inbound::Reception::Drop => reception@ == ReceptionModel::Drop,
        },
        match screening {
            inbound::Screening::Ignore => screening@ == ScreeningModel::Ignore,
            inbound::Screening::Command(s) => screening@ == ScreeningModel::Command(s@),
            inbound::Screening::Message(s, files) => screening@ == ScreeningModel::Message(
                s@,
                content::attachment_models(files@),
            ),
        },
        n@.content == n.content@,
        n@.sender == n.sender@,
        n@.name == n.sender_display_name@,
        n@.room == n.room_id@,
        n@.event == n.event_id@,
        n@.timestamp == n.timestamp@,
        n@.attachments == content::attachment_models(n.attachments@),
{
}

} // verus!
