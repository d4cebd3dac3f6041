//! What becomes of a message that comes in from a room.

use vstd::prelude::*;

use crate::access;
use crate::access::{generate_code, AccessControl, AccessDenied, AccessModel, Refusal};
use crate::calendar;
use crate::calendar::humanize_timestamp;
use crate::commands;
use crate::commands::is_bot_command;
use crate::content;
use crate::content::{describe_message, AttachmentMeta, AttachmentModel, MessageBody};
use crate::mention;
use crate::mention::mentioned;
use crate::rooms::{KnownRooms, RoomsModel};
use crate::text;
use crate::text::{list_contains, same_text};
use crate::verdict;
use crate::verdict::{parse_permission_verdict, PermissionVerdict, VerdictModel};

verus! {

/// What a message is, before anybody asks who may send it.
#[derive(Debug)]
pub enum Screening {
    /// Nothing to act on.
    Ignore,
    /// A message for the bridge itself.
    Command(String),
    /// A message to pass on, with its files.
    Message(String, Vec<AttachmentMeta>),
}

/// What a message is, before anybody asks who may send it.
pub enum ScreeningModel {
    Ignore,
    Command(Seq<char>),
    Message(Seq<char>, Seq<AttachmentModel>),
}

impl View for Screening {
    type V = ScreeningModel;

    open spec fn view(&self) -> ScreeningModel {
        match self {
            Screening::Ignore => ScreeningModel::Ignore,
            Screening::Command(s) => ScreeningModel::Command(s@),
            Screening::Message(s, files) => ScreeningModel::Message(
                s@,
                content::attachment_models(files@),
            ),
        }
    }
}

/// What a message is: the bridge's own messages, and those that are neither text nor a file, are
/// nothing to act on.
pub open spec fn screened(sender: Seq<char>, own_id: Seq<char>, body: MessageBody) -> ScreeningModel {
    if sender == own_id {
        ScreeningModel::Ignore
    } else {
        match content::description(body) {
            Some((s, files)) => if commands::is_command(s) {
                ScreeningModel::Command(s)
            } else {
                ScreeningModel::Message(s, files)
            },
            None => ScreeningModel::Ignore,
        }
    }
}

/// What a message is, before anybody asks who may send it.
pub fn screen(sender: &str, own_id: &str, body: &MessageBody) -> (screening: Screening)
    ensures
        screening@ == screened(sender@, own_id@, *body),
{
    if same_text(sender, own_id) {
        return Screening::Ignore;
    }
    match describe_message(body) {
        Some((s, files)) => if is_bot_command(s.as_str()) {
            Screening::Command(s)
        } else {
            Screening::Message(s, files)
        },
        None => Screening::Ignore,
    }
}

/// What to do with a message.
#[derive(Debug)]
pub enum Reception {
    /// Pass it on; show that somebody is typing, or do not.
    Forward { typing: bool },
    /// It is a verdict on a request that waits for one: relay it, and react to it.
    Verdict { verdict: PermissionVerdict, emoji: String },
    /// Tell the sender how to pair.
    Pairing { reply: String },
    /// Say nothing.
    Drop,
}

/// What to do with a message.
pub enum ReceptionModel {
    Forward { typing: bool },
    Verdict { verdict: VerdictModel, emoji: Seq<char> },
    Pairing { reply: Seq<char> },
    Drop,
}

impl View for Reception {
    type V = ReceptionModel;

    open spec fn view(&self) -> ReceptionModel {
        match self {
            Reception::Forward { typing } => ReceptionModel::Forward { typing: *typing },
            Reception::Verdict { verdict, emoji } => ReceptionModel::Verdict {
                verdict: verdict@,
                emoji: emoji@,
            },
            Reception::Pairing { reply } => ReceptionModel::Pairing { reply: reply@ },
            Reception::Drop => ReceptionModel::Drop,
        }
    }
}

/// The reaction to a verdict.
pub open spec fn verdict_emoji(verdict: VerdictModel) -> Seq<char> {
    if verdict.behavior == "allow"@ {
        "✅"@
    } else {
        "❌"@
    }
}

/// What a sender who has to pair is told.
pub open spec fn pairing_reply(agent: Seq<char>, code: Seq<char>) -> Seq<char> {
    "Pairing required. Ask the "@ + agent + " Code operator to approve you with code: "@ + code
}

/// What to do with a message, by what the access rules answered: one that gets through is passed
/// on, unless it is a verdict on one of the requests that wait for one.
pub open spec fn reaction(
    agent: Seq<char>,
    answer: Result<(), Refusal>,
    found: Option<VerdictModel>,
    waiting: Seq<Seq<char>>,
    has_files: bool,
) -> ReceptionModel {
    match answer {
        Ok(_) => match found {
            Some(v) => if waiting.contains(v.request) {
                ReceptionModel::Verdict { verdict: v, emoji: verdict_emoji(v) }
            } else {
                ReceptionModel::Forward { typing: !has_files }
            },
            None => ReceptionModel::Forward { typing: !has_files },
        },
        Err(Refusal::PairingRequired(code)) => ReceptionModel::Pairing {
            reply: pairing_reply(agent, code),
        },
        Err(_) => ReceptionModel::Drop,
    }
}

/// What to do with a message, by what the access rules answered and by the verdict in it, if it is
/// one.
pub fn react(
    agent: &str,
    answer: &Result<(), AccessDenied>,
    found: Option<PermissionVerdict>,
    waiting: &Vec<String>,
    has_files: bool,
) -> (reception: Reception)
    ensures
        reception@ == reaction(
            agent@,
            access::answer_model(*answer),
            verdict::verdict_in(found),
            text::texts(waiting@),
            has_files,
        ),
{
    match answer {
        Ok(_) => {
            if let Some(v) = found {
                if list_contains(waiting, v.request_id.as_str()) {
                    let emoji: String = if same_text(v.behavior.as_str(), "allow") {
                        "✅".to_owned()
                    } else {
                        "❌".to_owned()
                    };
                    return Reception::Verdict { verdict: v, emoji };
                }
            }
            Reception::Forward { typing: !has_files }
        },
        Err(AccessDenied::PairingRequired(code)) => {
            let mut reply = "Pairing required. Ask the ".to_owned();
            reply.append(agent);
            reply.append(" Code operator to approve you with code: ");
            reply.append(code.as_str());
            Reception::Pairing { reply }
        },
        Err(_) => Reception::Drop,
    }
}

/// What is remembered after a message: the access rules, where a pairing may have been started
/// and a reply to it counted, and the rooms, where that of a message that got through is the last
/// active one.
pub open spec fn remembered_after(
    rules: AccessModel,
    rooms: RoomsModel,
    sender: Seq<char>,
    room: Seq<char>,
    now: u64,
    code: Seq<char>,
) -> (AccessModel, RoomsModel) {
    let (after, answer) = rules.checked(sender, room, now, code);
    match answer {
        Ok(_) => (after, rooms.heard_from(room)),
        Err(Refusal::PairingRequired(_)) => (after.marked(sender), rooms),
        Err(_) => (after, rooms),
    }
}

/// Judges a message at `now`, in milliseconds since 1970 began, takes note of it, and tells what
/// to do with it and whether the rooms are worth writing to their file. `code` is the code of a
/// pairing that the message starts; `waiting` holds the requests that wait for a verdict; `agent` is
/// the name that the agent goes by.
pub fn receive_with_code(
    agent: &str,
    rules: &mut AccessControl,
    rooms: &mut KnownRooms,
    waiting: &Vec<String>,
    sender: &str,
    room: &str,
    now: u64,
    s: &str,
    has_files: bool,
    code: String,
) -> (outcome: (Reception, bool))
    requires
        now <= u64::MAX - access::PAIRING_LIFETIME,
    ensures
        (final(rules)@, final(rooms)@) == remembered_after(
            old(rules)@,
            old(rooms)@,
            sender@,
            room@,
            now,
            code@,
        ),
        outcome.0@ == reaction(
            agent@,
            old(rules)@.checked(sender@, room@, now, code@).1,
            verdict::verdict_in_message(s@),
            text::texts(waiting@),
            has_files,
        ),
        outcome.1 == (old(rules)@.checked(sender@, room@, now, code@).1 is Ok && (!old(
            rooms,
        )@.rooms.contains(room@) || old(rooms)@.last_active != Some(room@))),
        final(rules).cached == old(rules).cached,
        final(rules).last_mtime == old(rules).last_mtime,
        final(rules).unsaved == (old(rules).unsaved || old(rules)@.pairs(sender@, room@)),
{
    let answer = rules.check_sender_with_code(sender, room, now, code);
    let found = parse_permission_verdict(s);
    let reception = react(agent, &answer, found, waiting, has_files);
    let mut worth_saving: bool = false;
    match &answer {
        Ok(_) => {
            worth_saving = rooms.hear_from(room);
        },
        Err(AccessDenied::PairingRequired(_)) => {
            rules.mark_pairing_reply_sent(sender);
        },
        Err(_) => {},
    }
    (reception, worth_saving)
}

/// Judges a message at `now`, in milliseconds since 1970 began, takes note of it, and tells what
/// to do with it and whether the rooms are worth writing to their file. A pairing that the message
/// starts has a code drawn at random.
pub fn receive(
    agent: &str,
    rules: &mut AccessControl,
    rooms: &mut KnownRooms,
    waiting: &Vec<String>,
    sender: &str,
    room: &str,
    now: u64,
    s: &str,
    has_files: bool,
) -> (outcome: (Reception, bool))
    requires
        now <= u64::MAX - access::PAIRING_LIFETIME,
    ensures
        exists|code: Seq<char>| #[trigger]
            access::is_code(code) && (final(rules)@, final(rooms)@) == remembered_after(
                old(rules)@,
                old(rooms)@,
                sender@,
                room@,
                now,
                code,
            ) && outcome.0@ == reaction(
                agent@,
                old(rules)@.checked(sender@, room@, now, code).1,
                verdict::verdict_in_message(s@),
                text::texts(waiting@),
                has_files,
            ) && outcome.1 == (old(rules)@.checked(sender@, room@, now, code).1 is Ok && (!old(
                rooms,
            )@.rooms.contains(room@) || old(rooms)@.last_active != Some(room@))),
        final(rules).cached == old(rules).cached,
        final(rules).last_mtime == old(rules).last_mtime,
        final(rules).unsaved == (old(rules).unsaved || old(rules)@.pairs(sender@, room@)),
{
    let code = generate_code();
    receive_with_code(agent, rules, rooms, waiting, sender, room, now, s, has_files, code)
}

/// Whether the bridge hears a message in `room`: always where the room's messages do not have to
/// mention it, and else where this one does, by its id, by its name, if it has one, or by one of the
/// room's patterns.
pub open spec fn hears(
    rules: AccessModel,
    room: Seq<char>,
    own_id: Seq<char>,
    own_name: Option<Seq<char>>,
    s: Seq<char>,
) -> bool {
    mention::addressed(
        rules.mention_required(room),
        s,
        own_id,
        own_name,
        mention::any_occurs(rules.patterns_in(room), s),
    )
}

/// As `receive_with_code`, for messages that the bridge hears; of any other it takes no note, and
/// there is nothing to do with it. The bridge goes by `own_id` and `own_name`.
pub fn receive_addressed_with_code(
    agent: &str,
    rules: &mut AccessControl,
    rooms: &mut KnownRooms,
    waiting: &Vec<String>,
    sender: &str,
    own_id: &str,
    own_name: Option<&str>,
    room: &str,
    now: u64,
    s: &str,
    has_files: bool,
    code: String,
) -> (outcome: Option<(Reception, bool)>)
    requires
        now <= u64::MAX - access::PAIRING_LIFETIME,
    ensures
        outcome is None <==> !hears(old(rules)@, room@, own_id@, text::str_in(own_name), s@),
        outcome is None ==> *final(rules) == *old(rules) && *final(rooms) == *old(rooms),
        outcome matches Some(done) ==> {
            let answer = old(rules)@.checked(sender@, room@, now, code@).1;
            &&& (final(rules)@, final(rooms)@) == remembered_after(
                old(rules)@,
                old(rooms)@,
                sender@,
                room@,
                now,
                code@,
            )
            &&& done.0@ == reaction(
                agent@,
                answer,
                verdict::verdict_in_message(s@),
                text::texts(waiting@),
                has_files,
            )
            &&& done.1 == (answer is Ok && (!old(rooms)@.rooms.contains(room@) || old(
                rooms,
            )@.last_active != Some(room@)))
            &&& final(rules).cached == old(rules).cached
            &&& final(rules).last_mtime == old(rules).last_mtime
            &&& final(rules).unsaved == (old(rules).unsaved || old(rules)@.pairs(sender@, room@))
        },
{
    let required: bool = rules.requires_mention(room);
    let patterns = rules.mention_patterns(room);
    if !mentioned(required, s, own_id, own_name, &patterns) {
        return None;
    }
    Some(receive_with_code(agent, rules, rooms, waiting, sender, room, now, s, has_files, code))
}

/// As `receive`, for messages that the bridge hears; of any other it takes no note, and there is
/// nothing to do with it. The bridge goes by `own_id` and `own_name`.
pub fn receive_addressed(
    agent: &str,
    rules: &mut AccessControl,
    rooms: &mut KnownRooms,
    waiting: &Vec<String>,
    sender: &str,
    own_id: &str,
    own_name: Option<&str>,
    room: &str,
    now: u64,
    s: &str,
    has_files: bool,
) -> (outcome: Option<(Reception, bool)>)
    requires
        now <= u64::MAX - access::PAIRING_LIFETIME,
    ensures
        outcome is None <==> !hears(old(rules)@, room@, own_id@, text::str_in(own_name), s@),
        outcome is None ==> *final(rules) == *old(rules) && *final(rooms) == *old(rooms),
        outcome matches Some(done) ==> {
            &&& exists|code: Seq<char>| #[trigger]
                access::is_code(code) && (final(rules)@, final(rooms)@) == remembered_after(
                    old(rules)@,
                    old(rooms)@,
                    sender@,
                    room@,
                    now,
                    code,
                ) && done.0@ == reaction(
                    agent@,
                    old(rules)@.checked(sender@, room@, now, code).1,
                    verdict::verdict_in_message(s@),
                    text::texts(waiting@),
                    has_files,
                ) && done.1 == (old(rules)@.checked(sender@, room@, now, code).1 is Ok && (!old(
                    rooms,
                )@.rooms.contains(room@) || old(rooms)@.last_active != Some(room@)))
            &&& final(rules).cached == old(rules).cached
            &&& final(rules).last_mtime == old(rules).last_mtime
            &&& final(rules).unsaved == (old(rules).unsaved || old(rules)@.pairs(sender@, room@))
        },
{
    let code = generate_code();
    receive_addressed_with_code(
        agent,
        rules,
        rooms,
        waiting,
        sender,
        own_id,
        own_name,
        room,
        now,
        s,
        has_files,
        code,
    )
}

/// What the agent is told of a message.
#[derive(Debug, Clone)]
pub struct ChannelNotification {
    pub content: String,
    pub sender: String,
    pub sender_display_name: String,
    pub room_id: String,
    pub event_id: String,
    pub timestamp: String,
    pub attachments: Vec<AttachmentMeta>,
}

/// What the agent is told of a message.
pub struct NotificationModel {
    pub content: Seq<char>,
    pub sender: Seq<char>,
    pub name: Seq<char>,
    pub room: Seq<char>,
    pub event: Seq<char>,
    pub timestamp: Seq<char>,
    pub attachments: Seq<AttachmentModel>,
}

impl View for ChannelNotification {
    type V = NotificationModel;

    open spec fn view(&self) -> NotificationModel {
        NotificationModel {
            content: self.content@,
            sender: self.sender@,
            name: self.sender_display_name@,
            room: self.room_id@,
            event: self.event_id@,
            timestamp: self.timestamp@,
            attachments: content::attachment_models(self.attachments@),
        }
    }
}

/// What the agent is told of a message that was sent `sent` seconds after 1970 began. A sender
/// without a name goes by their id; a message without a time has an empty timestamp.
pub fn notify(
    s: String,
    files: Vec<AttachmentMeta>,
    sender: &str,
    display_name: Option<String>,
    room: &str,
    event_id: &str,
    sent: Option<u64>,
) -> (notification: ChannelNotification)
    ensures
        notification@ == (NotificationModel {
            content: s@,
            sender: sender@,
            name: match display_name {
                Some(name) => name@,
                None => sender@,
            },
            room: room@,
            event: event_id@,
            timestamp: match sent {
                Some(secs) => calendar::humanized(secs as int),
                None => Seq::empty(),
            },
            attachments: content::attachment_models(files@),
        }),
{
    let name: String = match display_name {
        Some(name) => name,
        None => sender.to_owned(),
    };
    let timestamp: String = match sent {
        Some(secs) => humanize_timestamp(secs),
        None => String::new(),
    };
    ChannelNotification {
        content: s,
        sender: sender.to_owned(),
        sender_display_name: name,
        room_id: room.to_owned(),
        event_id: event_id.to_owned(),
        timestamp,
        attachments: files,
    }
}

/// The reaction that tells a sender that a message was taken, which is there only if it was
/// queued for the agent.
pub fn acknowledge(queued: bool, rules: &AccessControl) -> (emoji: Option<String>)
    ensures
        match emoji {
            Some(e) => queued && rules@.ack_reaction.len() != 0 && e@ == rules@.ack_reaction,
            None => !queued || rules@.ack_reaction.len() == 0,
        },
{
    if queued {
        rules.ack_reaction()
    } else {
        None
    }
}

/// Whether an invitation is for the bridge, which then joins the room.
pub fn accepts_invite(own_id: Option<&str>, invited: &str) -> (yes: bool)
    ensures
        yes == (own_id matches Some(id) && id@ == invited@),
{
    match own_id {
        Some(id) => same_text(id, invited),
        None => false,
    }
}

/// In a room whose messages have to mention the bridge, it hears exactly those that hold its id,
/// its name, if it has one, or one of the room's patterns in whatever case; in any other room it
/// hears every message.
pub proof fn lemma_what_the_bridge_hears(
    rules: AccessModel,
    room: Seq<char>,
    own_id: Seq<char>,
    own_name: Option<Seq<char>>,
    s: Seq<char>,
)
    ensures
        !rules.mention_required(room) ==> hears(rules, room, own_id, own_name, s),
        rules.mention_required(room) ==> (hears(rules, room, own_id, own_name, s) <==> {
            ||| text::occurs_in(own_id, s)
            ||| own_name is Some && text::occurs_in(own_name->0, s)
            ||| mention::any_occurs(rules.patterns_in(room), s)
        }),
{
}

/// A message that the access rules refuse reaches nobody: it is neither passed on nor relayed,
/// and it does not make its room known.
pub proof fn lemma_refused_message_goes_nowhere(
    agent: Seq<char>,
    rules: AccessModel,
    rooms: RoomsModel,
    sender: Seq<char>,
    room: Seq<char>,
    now: u64,
    code: Seq<char>,
    found: Option<VerdictModel>,
    waiting: Seq<Seq<char>>,
    has_files: bool,
)
    requires
        !rules.admits(sender, room),
    ensures
        ({
            let done = reaction(
                agent,
                rules.checked(sender, room, now, code).1,
                found,
                waiting,
                has_files,
            );
            done is Pairing || done is Drop
        }),
        remembered_after(rules, rooms, sender, room, now, code).1 == rooms,
{
}

/// A message that gets through makes its room known and the last active one, and changes no rule.
pub proof fn lemma_admitted_message_makes_its_room_known(
    agent: Seq<char>,
    rules: AccessModel,
    rooms: RoomsModel,
    sender: Seq<char>,
    room: Seq<char>,
    now: u64,
    code: Seq<char>,
    found: Option<VerdictModel>,
    waiting: Seq<Seq<char>>,
    has_files: bool,
)
    requires
        rules.admits(sender, room),
    ensures
        ({
            let done = reaction(
                agent,
                rules.checked(sender, room, now, code).1,
                found,
                waiting,
                has_files,
            );
            done is Forward || done is Verdict
        }),
        remembered_after(rules, rooms, sender, room, now, code).0 == rules,
        remembered_after(rules, rooms, sender, room, now, code).1.rooms.contains(room),
        remembered_after(rules, rooms, sender, room, now, code).1.last_active == Some(room),
{
}

/// A verdict is relayed only for a request that waits for one.
pub proof fn lemma_verdict_needs_a_waiting_request(
    agent: Seq<char>,
    answer: Result<(), Refusal>,
    found: Option<VerdictModel>,
    waiting: Seq<Seq<char>>,
    has_files: bool,
)
    ensures
        reaction(agent, answer, found, waiting, has_files) matches ReceptionModel::Verdict {
            verdict,
            ..
        } ==> answer is Ok && found == Some(verdict) && waiting.contains(verdict.request),
{
}

/// The bridge never acts on its own messages, so it cannot talk to itself.
pub proof fn lemma_own_messages_are_ignored(own_id: Seq<char>, body: MessageBody)
    ensures
        screened(own_id, own_id, body) == ScreeningModel::Ignore,
{
}

/// A message for the bridge itself is never passed on to the agent.
pub proof fn lemma_commands_are_not_passed_on(
    sender: Seq<char>,
    own_id: Seq<char>,
    body: MessageBody,
)
    ensures
        screened(sender, own_id, body) matches ScreeningModel::Message(s, _)
            ==> !commands::is_command(s),
{
}

} // verus!
