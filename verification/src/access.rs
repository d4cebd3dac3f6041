//! Who may talk to the bridge: the access configuration, the pairing of new senders, and the
//! delivery settings that are kept beside them.

use rand::Rng;
use vstd::prelude::*;

use crate::ids;
use crate::ids::room_id_valid;
use crate::text;
use crate::text::{list_contains, same_text, to_chars};

verus! {

/// How many pairings may be pending at once.
pub const MAX_PENDING: usize = 3;

/// How many replies a sender gets before the bridge falls silent.
pub const MAX_REPLIES_PER_SENDER: u8 = 2;

/// How long a pairing code can be approved, in milliseconds.
pub const PAIRING_LIFETIME: u64 = 3_600_000;

/// The smallest chunk limit that is put to use.
pub const MIN_CHUNK_LIMIT: usize = 100;

/// What happens to senders that no list names.
#[derive(Debug, Clone, Copy, PartialEq, Eq, Structural)]
pub enum DmPolicy {
    Pairing,
    Allowlist,
    Disabled,
}

/// Which chunks of a long reply refer to the message replied to.
#[derive(Debug, Clone, Copy, PartialEq, Eq, Structural)]
pub enum ReplyToMode {
    First,
    All,
    Off,
}

/// Where a long reply is cut.
#[derive(Debug, Clone, Copy, PartialEq, Eq, Structural)]
pub enum ChunkMode {
    Length,
    Newline,
}

impl Default for DmPolicy {
    fn default() -> (policy: Self)
        ensures
            policy == DmPolicy::Pairing,
    {
        DmPolicy::Pairing
    }
}

impl Default for ReplyToMode {
    fn default() -> (mode: Self)
        ensures
            mode == ReplyToMode::First,
    {
        ReplyToMode::First
    }
}

impl Default for ChunkMode {
    fn default() -> (mode: Self)
        ensures
            mode == ChunkMode::Newline,
    {
        ChunkMode::Newline
    }
}

/// The settings of one room.
#[derive(Debug)]
pub struct GroupConfig {
    pub require_mention: bool,
    pub allow_from: Vec<String>,
    pub mention_patterns: Vec<String>,
}

/// A pairing that waits for approval.
#[derive(Debug)]
pub struct PendingEntry {
    pub sender_id: String,
    pub chat_id: String,
    pub created_at: u64,
    pub expires_at: u64,
    pub replies: u8,
}

/// The access configuration. `groups` is keyed by room id and `pending` by pairing code.
#[derive(Debug)]
pub struct AccessConfig {
    pub dm_policy: DmPolicy,
    pub allow_from: Vec<String>,
    pub groups: Vec<(String, GroupConfig)>,
    pub pending: Vec<(String, PendingEntry)>,
    pub ack_reaction: String,
    pub text_chunk_limit: usize,
    pub chunk_mode: ChunkMode,
    pub reply_to_mode: ReplyToMode,
}

/// What the settings of one room say.
pub struct GroupModel {
    pub require_mention: bool,
    pub allow_from: Seq<Seq<char>>,
    pub mention_patterns: Seq<Seq<char>>,
}

/// What a pending pairing says.
pub struct PendingModel {
    pub sender: Seq<char>,
    pub chat: Seq<char>,
    pub created_at: u64,
    pub expires_at: u64,
    pub replies: u8,
}

/// What an access configuration says.
pub struct AccessModel {
    pub dm_policy: DmPolicy,
    pub allow_from: Seq<Seq<char>>,
    pub groups: Seq<(Seq<char>, GroupModel)>,
    pub pending: Seq<(Seq<char>, PendingModel)>,
    pub ack_reaction: Seq<char>,
    pub text_chunk_limit: usize,
    pub chunk_mode: ChunkMode,
    pub reply_to_mode: ReplyToMode,
}

impl View for GroupConfig {
    type V = GroupModel;

    open spec fn view(&self) -> GroupModel {
        GroupModel {
            require_mention: self.require_mention,
            allow_from: text::texts(self.allow_from@),
            mention_patterns: text::texts(self.mention_patterns@),
        }
    }
}

impl View for PendingEntry {
    type V = PendingModel;

    open spec fn view(&self) -> PendingModel {
        PendingModel {
            sender: self.sender_id@,
            chat: self.chat_id@,
            created_at: self.created_at,
            expires_at: self.expires_at,
            replies: self.replies,
        }
    }
}

/// What a list of room settings says.
pub open spec fn group_models(list: Seq<(String, GroupConfig)>) -> Seq<(Seq<char>, GroupModel)> {
    list.map_values(|item: (String, GroupConfig)| (item.0@, item.1@))
}

/// What a list of pending pairings says.
pub open spec fn pending_models(list: Seq<(String, PendingEntry)>) -> Seq<
    (Seq<char>, PendingModel),
> {
    list.map_values(|item: (String, PendingEntry)| (item.0@, item.1@))
}

impl View for AccessConfig {
    type V = AccessModel;

    open spec fn view(&self) -> AccessModel {
        AccessModel {
            dm_policy: self.dm_policy,
            allow_from: text::texts(self.allow_from@),
            groups: group_models(self.groups@),
            pending: pending_models(self.pending@),
            ack_reaction: self.ack_reaction@,
            text_chunk_limit: self.text_chunk_limit,
            chunk_mode: self.chunk_mode,
            reply_to_mode: self.reply_to_mode,
        }
    }
}

/// The configuration that holds where none was written.
pub open spec fn default_access() -> AccessModel {
    AccessModel {
        dm_policy: DmPolicy::Pairing,
        allow_from: Seq::empty(),
        groups: Seq::empty(),
        pending: Seq::empty(),
        ack_reaction: "\u{1F440}"@,
        text_chunk_limit: 4096,
        chunk_mode: ChunkMode::Newline,
        reply_to_mode: ReplyToMode::First,
    }
}

/// Whether a room requires a mention where its settings do not say.
pub fn default_true() -> (value: bool)
    ensures
        value,
{
    true
}

/// The replies already sent for a pending pairing whose record does not say.
pub fn default_one() -> (value: u8)
    ensures
        value == 1,
{
    1
}

/// The acknowledging reaction where the configuration does not say.
pub fn default_ack_reaction() -> (emoji: String)
    ensures
        emoji@ == "\u{1F440}"@,
{
    "\u{1F440}".to_owned()
}

/// The chunk limit where the configuration does not say.
pub fn default_text_chunk_limit() -> (limit: usize)
    ensures
        limit == 4096,
{
    4096
}

impl Default for AccessConfig {
    fn default() -> (config: Self)
        ensures
            config@ == default_access(),
    {
        let config = AccessConfig {
            dm_policy: DmPolicy::Pairing,
            allow_from: Vec::new(),
            groups: Vec::new(),
            pending: Vec::new(),
            ack_reaction: default_ack_reaction(),
            text_chunk_limit: default_text_chunk_limit(),
            chunk_mode: ChunkMode::Newline,
            reply_to_mode: ReplyToMode::First,
        };
        proof {
            assert(config@.allow_from =~= default_access().allow_from);
            assert(config@.groups =~= default_access().groups);
            assert(config@.pending =~= default_access().pending);
        }
        config
    }
}

/// Whether a list names `user`, or everybody.
pub open spec fn listed(list: Seq<Seq<char>>, user: Seq<char>) -> bool {
    list.contains("*"@) || list.contains(user)
}

/// The index of the first entry under `key`; the length where there is none.
pub open spec fn key_index<V>(entries: Seq<(Seq<char>, V)>, key: Seq<char>) -> nat
    decreases entries.len(),
{
    if entries.len() == 0 || entries[0].0 == key {
        0
    } else {
        1 + key_index(entries.skip(1), key)
    }
}

/// The index of the first pairing of `user`; the length where there is none.
pub open spec fn sender_index(pending: Seq<(Seq<char>, PendingModel)>, user: Seq<char>) -> nat
    decreases pending.len(),
{
    if pending.len() == 0 || pending[0].1.sender == user {
        0
    } else {
        1 + sender_index(pending.skip(1), user)
    }
}

/// The pairings that have not expired at `now`.
pub open spec fn live_at(pending: Seq<(Seq<char>, PendingModel)>, now: u64) -> Seq<
    (Seq<char>, PendingModel),
> {
    pending.filter(|item: (Seq<char>, PendingModel)| item.1.expires_at > now)
}

/// `pending` with `entry` under `code`, in place of what stood there.
pub open spec fn with_code(
    pending: Seq<(Seq<char>, PendingModel)>,
    code: Seq<char>,
    entry: PendingModel,
) -> Seq<(Seq<char>, PendingModel)> {
    let at = key_index(pending, code);
    if at < pending.len() {
        pending.update(at as int, (code, entry))
    } else {
        pending.push((code, entry))
    }
}

/// A pairing that `user` asks for in `room` at `now`.
pub open spec fn new_pairing(user: Seq<char>, room: Seq<char>, now: u64) -> PendingModel {
    PendingModel {
        sender: user,
        chat: room,
        created_at: now,
        expires_at: (now + PAIRING_LIFETIME) as u64,
        replies: 0,
    }
}

/// Why a sender is refused.
pub enum Refusal {
    PairingRequired(Seq<char>),
    PairingPending(Seq<char>),
    TooManyPending,
    Denied,
}

impl AccessModel {
    /// The settings of `room`, if it has any.
    pub open spec fn group(self, room: Seq<char>) -> Option<GroupModel> {
        let at = key_index(self.groups, room);
        if at < self.groups.len() {
            Some(self.groups[at as int].1)
        } else {
            None
        }
    }

    /// Whether messages in `room` have to mention the bridge.
    pub open spec fn mention_required(self, room: Seq<char>) -> bool {
        self.group(room) matches Some(g) && g.require_mention
    }

    /// The patterns that count as a mention in `room`.
    pub open spec fn patterns_in(self, room: Seq<char>) -> Seq<Seq<char>> {
        match self.group(room) {
            Some(g) => g.mention_patterns,
            None => Seq::empty(),
        }
    }

    /// Whether `user` may talk in `room` without a pairing.
    pub open spec fn admits(self, user: Seq<char>, room: Seq<char>) -> bool {
        ||| self.dm_policy == DmPolicy::Disabled
        ||| listed(self.allow_from, user)
        ||| (self.group(room) matches Some(g) && listed(g.allow_from, user))
    }

    /// Whether a message of `user` in `room` starts or continues a pairing.
    pub open spec fn pairs(self, user: Seq<char>, room: Seq<char>) -> bool {
        !self.admits(user, room) && self.dm_policy == DmPolicy::Pairing
    }

    /// Whether a message of `user` in `room` at `now` starts a pairing, for which a code is drawn.
    pub open spec fn starts_pairing(self, user: Seq<char>, room: Seq<char>, now: u64) -> bool {
        let live = live_at(self.pending, now);
        &&& self.pairs(user, room)
        &&& sender_index(live, user) >= live.len()
        &&& live.len() < MAX_PENDING
    }

    /// The configuration with another list of pending pairings.
    pub open spec fn with_pending(self, pending: Seq<(Seq<char>, PendingModel)>) -> AccessModel {
        AccessModel { pending, ..self }
    }

    /// What a message of `user` in `room` at `now` is answered, and the configuration after it;
    /// `code` is the code of a pairing that it starts.
    pub open spec fn checked(
        self,
        user: Seq<char>,
        room: Seq<char>,
        now: u64,
        code: Seq<char>,
    ) -> (AccessModel, Result<(), Refusal>) {
        let live = live_at(self.pending, now);
        let at = sender_index(live, user);
        if self.admits(user, room) {
            (self, Ok(()))
        } else if self.dm_policy != DmPolicy::Pairing {
            (self, Err(Refusal::Denied))
        } else if at < live.len() {
            let (known, entry) = live[at as int];
            (
                self.with_pending(live),
                Err(
                    if entry.replies >= MAX_REPLIES_PER_SENDER {
                        Refusal::PairingPending(known)
                    } else {
                        Refusal::PairingRequired(known)
                    },
                ),
            )
        } else if live.len() >= MAX_PENDING {
            (self.with_pending(live), Err(Refusal::TooManyPending))
        } else {
            (
                self.with_pending(with_code(live, code, new_pairing(user, room, now))),
                Err(Refusal::PairingRequired(code)),
            )
        }
    }

    /// The configuration after a reply was sent to a sender whose pairing is pending.
    pub open spec fn marked(self, user: Seq<char>) -> AccessModel {
        let at = sender_index(self.pending, user);
        if at < self.pending.len() {
            let (code, entry) = self.pending[at as int];
            let replies = if entry.replies < 255 {
                (entry.replies + 1) as u8
            } else {
                255
            };
            self.with_pending(
                self.pending.update(at as int, (code, PendingModel { replies, ..entry })),
            )
        } else {
            self
        }
    }

    /// Whether `code` is, at `now`, the live code of a pairing of `user` in a room that has a
    /// room id.
    pub open spec fn approvable(self, user: Seq<char>, code: Seq<char>, now: u64) -> bool {
        let live = live_at(self.pending, now);
        let at = key_index(live, code);
        &&& at < live.len()
        &&& live[at as int].1.sender == user
        &&& ids::is_room_id(live[at as int].1.chat)
    }

    /// The configuration after an approval, and the room that the pairing was asked for in.
    pub open spec fn approved(self, user: Seq<char>, code: Seq<char>, now: u64) -> (
        AccessModel,
        Result<Seq<char>, PairingError>,
    ) {
        let live = live_at(self.pending, now);
        let at = key_index(live, code);
        if self.approvable(user, code, now) {
            (
                AccessModel {
                    allow_from: if self.allow_from.contains(user) {
                        self.allow_from
                    } else {
                        self.allow_from.push(user)
                    },
                    pending: live.remove(at as int),
                    ..self
                },
                Ok(live[at as int].1.chat),
            )
        } else {
            (self, Err(PairingError::NoPendingPairing))
        }
    }
}

/// Why a message is not let through.
#[derive(Debug)]
pub enum AccessDenied {
    PairingRequired(String),
    PairingPending(String),
    TooManyPending,
    Denied,
}

impl View for AccessDenied {
    type V = Refusal;

    open spec fn view(&self) -> Refusal {
        match self {
            AccessDenied::PairingRequired(code) => Refusal::PairingRequired(code@),
            AccessDenied::PairingPending(code) => Refusal::PairingPending(code@),
            AccessDenied::TooManyPending => Refusal::TooManyPending,
            AccessDenied::Denied => Refusal::Denied,
        }
    }
}

/// What an answer to a sender says.
pub open spec fn answer_model(answer: Result<(), AccessDenied>) -> Result<(), Refusal> {
    match answer {
        Ok(()) => Ok(()),
        Err(denied) => Err(denied@),
    }
}

impl AccessDenied {
    /// The refusal in words.
    pub fn message(&self) -> (words: String)
        ensures
            words@ == match self@ {
                Refusal::PairingRequired(code) => "Pairing required. Code: "@ + code,
                Refusal::PairingPending(code) => "Pairing already pending. Code: "@ + code,
                Refusal::TooManyPending => "Too many pending pairings"@,
                Refusal::Denied => "Access denied"@,
            },
    {
        match self {
            AccessDenied::PairingRequired(code) => "Pairing required. Code: ".to_owned().concat(
                code.as_str(),
            ),
            AccessDenied::PairingPending(code) => "Pairing already pending. Code: ".to_owned().concat(
                code.as_str(),
            ),
            AccessDenied::TooManyPending => "Too many pending pairings".to_owned(),
            AccessDenied::Denied => "Access denied".to_owned(),
        }
    }
}

/// Why a pairing is not approved.
#[derive(Debug, Clone, Copy, PartialEq, Eq, Structural)]
pub enum PairingError {
    NoPendingPairing,
    Expired,
}

impl PairingError {
    /// The error in words.
    pub fn message(&self) -> (words: String)
        ensures
            words@ == match self {
                PairingError::NoPendingPairing => "No pending pairing for this user"@,
                PairingError::Expired => "Pairing code has expired"@,
            },
    {
        match self {
            PairingError::NoPendingPairing => "No pending pairing for this user".to_owned(),
            PairingError::Expired => "Pairing code has expired".to_owned(),
        }
    }
}

/// The entry under `key` is where `key_index` says.
pub proof fn lemma_key_index<V>(entries: Seq<(Seq<char>, V)>, key: Seq<char>, at: int)
    requires
        0 <= at <= entries.len(),
        at < entries.len() ==> entries[at].0 == key,
        forall|i: int| 0 <= i < at ==> (#[trigger] entries[i]).0 != key,
    ensures
        key_index(entries, key) == at,
    decreases at,
{
    if at > 0 {
        let rest = entries.skip(1);
        assert forall|i: int| 0 <= i < at - 1 implies (#[trigger] rest[i]).0 != key by {
            assert(rest[i] == entries[i + 1]);
        }
        lemma_key_index(rest, key, at - 1);
        assert(entries[0].0 != key);
    }
}

/// What `key_index` gives is the first entry under `key`.
pub proof fn lemma_key_index_first<V>(entries: Seq<(Seq<char>, V)>, key: Seq<char>)
    ensures
        key_index(entries, key) <= entries.len(),
        key_index(entries, key) < entries.len() ==> entries[key_index(entries, key) as int].0
            == key,
        forall|i: int| 0 <= i < key_index(entries, key) ==> (#[trigger] entries[i]).0 != key,
    decreases entries.len(),
{
    if entries.len() != 0 && entries[0].0 != key {
        let rest = entries.skip(1);
        lemma_key_index_first(rest, key);
        assert forall|i: int| 0 <= i < key_index(entries, key) implies (#[trigger] entries[i]).0
            != key by {
            if i > 0 {
                assert(rest[i - 1] == entries[i]);
            }
        }
    }
}

/// The pairing of `user` is where `sender_index` says.
proof fn lemma_sender_index(pending: Seq<(Seq<char>, PendingModel)>, user: Seq<char>, at: int)
    requires
        0 <= at <= pending.len(),
        at < pending.len() ==> pending[at].1.sender == user,
        forall|i: int| 0 <= i < at ==> (#[trigger] pending[i]).1.sender != user,
    ensures
        sender_index(pending, user) == at,
    decreases at,
{
    if at > 0 {
        let rest = pending.skip(1);
        assert forall|i: int| 0 <= i < at - 1 implies (#[trigger] rest[i]).1.sender != user by {
            assert(rest[i] == pending[i + 1]);
        }
        lemma_sender_index(rest, user, at - 1);
        assert(pending[0].1.sender != user);
    }
}

/// What `sender_index` gives is the first pairing of `user`.
pub proof fn lemma_sender_index_first(pending: Seq<(Seq<char>, PendingModel)>, user: Seq<char>)
    ensures
        sender_index(pending, user) <= pending.len(),
        sender_index(pending, user) < pending.len() ==> pending[sender_index(
            pending,
            user,
        ) as int].1.sender == user,
        forall|i: int|
            0 <= i < sender_index(pending, user) ==> (#[trigger] pending[i]).1.sender != user,
    decreases pending.len(),
{
    if pending.len() != 0 && pending[0].1.sender != user {
        let rest = pending.skip(1);
        lemma_sender_index_first(rest, user);
        assert forall|i: int| 0 <= i < sender_index(pending, user) implies (
        #[trigger] pending[i]).1.sender != user by {
            if i > 0 {
                assert(rest[i - 1] == pending[i]);
            }
        }
    }
}

/// Takes the pairings out that have expired at `now`.
fn prune(pending: &mut Vec<(String, PendingEntry)>, now: u64)
    ensures
        pending_models(final(pending)@) == live_at(pending_models(old(pending)@), now),
{
    let ghost all = pending_models(pending@);
    let ghost alive = |item: (Seq<char>, PendingModel)| item.1.expires_at > now;
    let mut i: usize = 0;
    let ghost mut done: int = 0;
    proof {
        assert(all.take(0).filter(alive) =~= Seq::empty());
        assert(pending_models(pending@).take(0) =~= Seq::empty());
        assert(all.skip(0) =~= all);
        assert(pending_models(pending@).skip(0) =~= all);
    }
    while i < pending.len()
        invariant
            i <= pending@.len(),
            0 <= done <= all.len(),
            all.len() - done == pending@.len() - i,
            alive == (|item: (Seq<char>, PendingModel)| item.1.expires_at > now),
            pending_models(pending@).take(i as int) == all.take(done).filter(alive),
            pending_models(pending@).skip(i as int) == all.skip(done),
        decreases pending@.len() - i,
    {
        let ghost before = pending_models(pending@);
        proof {
            assert(before.skip(i as int)[0] == all.skip(done)[0]);
            assert(before[i as int] == all[done]);
            reveal(Seq::filter);
            assert(all.take(done + 1).drop_last() =~= all.take(done));
            assert(all.take(done + 1).last() == all[done]);
            assert(before.skip(i as int).skip(1) =~= before.skip(i + 1));
            assert(all.skip(done).skip(1) =~= all.skip(done + 1));
        }
        if pending[i].1.expires_at > now {
            proof {
                assert(before.take(i + 1) =~= before.take(i as int).push(before[i as int]));
            }
            i += 1;
        } else {
            let _gone = pending.remove(i);
            proof {
                assert(pending_models(pending@) =~= before.remove(i as int));
                assert(pending_models(pending@).take(i as int) =~= before.take(i as int));
                assert(pending_models(pending@).skip(i as int) =~= before.skip(i + 1));
            }
        }
        proof {
            done = done + 1;
        }
    }
    proof {
        assert(pending_models(pending@).take(i as int) =~= pending_models(pending@));
        assert(all.take(done) =~= all);
    }
}

/// The index of the first pairing of `user`; the length where there is none.
fn find_sender(pending: &Vec<(String, PendingEntry)>, user: &str) -> (at: usize)
    ensures
        at == sender_index(pending_models(pending@), user@),
        at <= pending@.len(),
{
    let mut at: usize = 0;
    while at < pending.len() && !same_text(pending[at].1.sender_id.as_str(), user)
        invariant
            at <= pending@.len(),
            forall|i: int|
                0 <= i < at ==> (#[trigger] pending_models(pending@)[i]).1.sender != user@,
        decreases pending@.len() - at,
    {
        at += 1;
    }
    proof {
        lemma_sender_index(pending_models(pending@), user@, at as int);
    }
    at
}

/// `constant_time_eq::constant_time_eq` tells whether two byte strings are equal. That the time it
/// takes does not depend on what they hold is not stated.
pub assume_specification[ constant_time_eq::constant_time_eq ](a: &[u8], b: &[u8]) -> (same: bool)
    ensures
        same == (a@ == b@),
;

/// The index of the first pairing under `code`; the length where there is none. All entries are
/// looked at, wherever the code is found.
fn find_code(pending: &Vec<(String, PendingEntry)>, code: &str) -> (at: usize)
    ensures
        at == key_index(pending_models(pending@), code@),
        at <= pending@.len(),
{
    let mut at: usize = pending.len();
    let mut i: usize = 0;
    while i < pending.len()
        invariant
            i <= pending@.len(),
            at == pending@.len() || at < i,
            at < i ==> pending_models(pending@)[at as int].0 == code@,
            forall|j: int|
                0 <= j < i && j < at ==> (#[trigger] pending_models(pending@)[j]).0 != code@,
        decreases pending@.len() - i,
    {
        let same: bool = constant_time_eq::constant_time_eq(
            pending[i].0.as_str().as_bytes(),
            code.as_bytes(),
        );
        proof {
            text::lemma_encoding_determines_text(pending_models(pending@)[i as int].0, code@);
        }
        if same && at == pending.len() {
            at = i;
        }
        i += 1;
    }
    proof {
        lemma_key_index(pending_models(pending@), code@, at as int);
    }
    at
}

/// The index of the settings of `room`; the length where it has none.
fn find_group(groups: &Vec<(String, GroupConfig)>, room: &str) -> (at: usize)
    ensures
        at == key_index(group_models(groups@), room@),
        at <= groups@.len(),
{
    let mut at: usize = 0;
    while at < groups.len() && !same_text(groups[at].0.as_str(), room)
        invariant
            at <= groups@.len(),
            forall|i: int| 0 <= i < at ==> (#[trigger] group_models(groups@)[i]).0 != room@,
        decreases groups@.len() - at,
    {
        at += 1;
    }
    proof {
        lemma_key_index(group_models(groups@), room@, at as int);
    }
    at
}

/// Whether a list names `user`, or everybody.
fn is_listed(list: &Vec<String>, user: &str) -> (named: bool)
    ensures
        named == listed(text::texts(list@), user@),
{
    list_contains(list, "*") || list_contains(list, user)
}

/// A copy of a list of strings.
fn copy_list(list: &Vec<String>) -> (copy: Vec<String>)
    ensures
        text::texts(copy@) == text::texts(list@),
{
    let mut copy: Vec<String> = Vec::new();
    let mut i: usize = 0;
    while i < list.len()
        invariant
            i <= list@.len(),
            text::texts(copy@) == text::texts(list@).take(i as int),
        decreases list@.len() - i,
    {
        let ghost before = text::texts(copy@);
        copy.push(list[i].clone());
        i += 1;
        proof {
            assert(text::texts(copy@) =~= before.push(list@[i - 1]@));
            assert(text::texts(list@).take(i as int) =~= text::texts(list@).take(i - 1).push(
                list@[i - 1]@,
            ));
        }
    }
    proof {
        assert(text::texts(list@).take(i as int) =~= text::texts(list@));
    }
    copy
}

impl Clone for GroupConfig {
    fn clone(&self) -> (copy: Self)
        ensures
            copy@ == self@,
    {
        GroupConfig {
            require_mention: self.require_mention,
            allow_from: copy_list(&self.allow_from),
            mention_patterns: copy_list(&self.mention_patterns),
        }
    }
}

impl Clone for PendingEntry {
    fn clone(&self) -> (copy: Self)
        ensures
            copy@ == self@,
    {
        PendingEntry {
            sender_id: self.sender_id.clone(),
            chat_id: self.chat_id.clone(),
            created_at: self.created_at,
            expires_at: self.expires_at,
            replies: self.replies,
        }
    }
}

impl Clone for AccessConfig {
    fn clone(&self) -> (copy: Self)
        ensures
            copy@ == self@,
    {
        let mut groups: Vec<(String, GroupConfig)> = Vec::new();
        let mut i: usize = 0;
        while i < self.groups.len()
            invariant
                i <= self.groups@.len(),
                group_models(groups@) == group_models(self.groups@).take(i as int),
            decreases self.groups@.len() - i,
        {
            let ghost before = group_models(groups@);
            groups.push((self.groups[i].0.clone(), self.groups[i].1.clone()));
            i += 1;
            proof {
                let all = group_models(self.groups@);
                assert(group_models(groups@) =~= before.push(all[i - 1]));
                assert(all.take(i as int) =~= all.take(i - 1).push(all[i - 1]));
            }
        }
        let mut pending: Vec<(String, PendingEntry)> = Vec::new();
        let mut j: usize = 0;
        while j < self.pending.len()
            invariant
                j <= self.pending@.len(),
                pending_models(pending@) == pending_models(self.pending@).take(j as int),
            decreases self.pending@.len() - j,
        {
            let ghost before = pending_models(pending@);
            pending.push((self.pending[j].0.clone(), self.pending[j].1.clone()));
            j += 1;
            proof {
                let all = pending_models(self.pending@);
                assert(pending_models(pending@) =~= before.push(all[j - 1]));
                assert(all.take(j as int) =~= all.take(j - 1).push(all[j - 1]));
            }
        }
        proof {
            assert(group_models(groups@) =~= group_models(self.groups@));
            assert(pending_models(pending@) =~= pending_models(self.pending@));
        }
        AccessConfig {
            dm_policy: self.dm_policy,
            allow_from: copy_list(&self.allow_from),
            groups,
            pending,
            ack_reaction: self.ack_reaction.clone(),
            text_chunk_limit: self.text_chunk_limit,
            chunk_mode: self.chunk_mode,
            reply_to_mode: self.reply_to_mode,
        }
    }
}

/// The characters that pairing codes are made of: no letter or digit that looks like another.
pub open spec fn charset() -> Seq<char> {
    "ABCDEFGHJKLMNPQRSTUVWXYZ23456789"@
}

/// Whether `code` could be a pairing code: six characters of the character set.
pub open spec fn is_code(code: Seq<char>) -> bool {
    &&& code.len() == 6
    &&& forall|i: int| 0 <= i < code.len() ==> charset().contains(#[trigger] code[i])
}

/// `Rng::random_range` on `rand::rng()` gives some number of a range that starts at zero and ends
/// before `bound`; which one is up to chance, and how often each comes is not stated.
#[verifier::external_body]
fn random_below(bound: usize) -> (n: usize)
    requires
        0 < bound,
    ensures
        n < bound,
{
    rand::rng().random_range(0..bound)
}

/// The code that six places in the character set spell.
pub fn spell_code(picks: &[usize; 6]) -> (code: String)
    requires
        forall|i: int| 0 <= i < 6 ==> (#[trigger] picks@[i]) < 32,
    ensures
        code@ == Seq::new(6, |i: int| charset()[picks@[i] as int]),
        is_code(code@),
{
    let chars = to_chars("ABCDEFGHJKLMNPQRSTUVWXYZ23456789");
    proof {
        reveal_strlit("ABCDEFGHJKLMNPQRSTUVWXYZ23456789");
    }
    let mut code = String::new();
    let mut i: usize = 0;
    while i < 6
        invariant
            i <= 6,
            chars@ == charset(),
            chars@.len() == 32,
            forall|k: int| 0 <= k < 6 ==> (#[trigger] picks@[k]) < 32,
            code@ == Seq::new(i as nat, |k: int| charset()[picks@[k] as int]),
        decreases 6 - i,
    {
        code.push(chars[picks[i]]);
        i += 1;
        proof {
            assert(code@ =~= Seq::new(i as nat, |k: int| charset()[picks@[k] as int]));
        }
    }
    proof {
        assert forall|k: int| 0 <= k < code@.len() implies charset().contains(
            #[trigger] code@[k],
        ) by {
            assert(charset()[picks@[k] as int] == code@[k]);
        }
    }
    code
}

/// A pairing code, drawn at random.
pub fn generate_code() -> (code: String)
    ensures
        is_code(code@),
{
    let picks: [usize; 6] = [
        random_below(32),
        random_below(32),
        random_below(32),
        random_below(32),
        random_below(32),
        random_below(32),
    ];
    spell_code(&picks)
}

/// The access rules at work: the configuration that the next message is judged by, and what is
/// known of the file that it is kept in.
pub struct AccessControl {
    /// The configuration in force.
    pub config: AccessConfig,
    /// The configuration as it was last read from, or written to, its file.
    pub cached: AccessConfig,
    /// When the file was last modified, as far as it was read or written since.
    pub last_mtime: Option<i128>,
    /// Whether `config` is to be written to the file.
    pub unsaved: bool,
}

impl View for AccessControl {
    type V = AccessModel;

    open spec fn view(&self) -> AccessModel {
        self.config@
    }
}

/// What the attempt to read a configuration file came to, or the configuration that holds
/// without it.
pub open spec fn read_or(read: Option<AccessConfig>, otherwise: AccessModel) -> AccessModel {
    match read {
        Some(config) => config@,
        None => otherwise,
    }
}

impl AccessControl {
    /// Starts with the configuration that was read; with the default where the file is missing or
    /// cannot be read.
    pub fn new(read: Option<AccessConfig>) -> (control: Self)
        ensures
            control@ == read_or(read, default_access()),
            control.cached@ == control@,
            control.last_mtime is None,
            !control.unsaved,
    {
        let config: AccessConfig = match read {
            Some(config) => config,
            None => AccessConfig::default(),
        };
        let cached = config.clone();
        AccessControl { config, cached, last_mtime: None, unsaved: false }
    }

    /// Whether a file modified at `mtime` is one whose content is not known yet.
    pub open spec fn stale(&self, mtime: Option<i128>) -> bool {
        mtime != self.last_mtime || self.last_mtime is None
    }

    /// Whether a file modified at `mtime` has to be read.
    pub fn needs_read(&self, mtime: Option<i128>) -> (needed: bool)
        ensures
            needed == self.stale(mtime),
    {
        match (mtime, self.last_mtime) {
            (Some(now), Some(last)) => now != last,
            _ => true,
        }
    }

    /// Puts the stored configuration in force. `present` says whether there is a file, `mtime` when
    /// it was modified, and `read` what reading it gave; `read` counts only where `needs_read`
    /// says so.
    pub fn load_config(&mut self, present: bool, mtime: Option<i128>, read: Option<AccessConfig>)
        ensures
            final(self)@ == if !present {
                default_access()
            } else if old(self).stale(mtime) {
                read_or(read, old(self).cached@)
            } else {
                old(self).cached@
            },
            final(self).cached@ == if present && old(self).stale(mtime) {
                read_or(read, old(self).cached@)
            } else {
                old(self).cached@
            },
            final(self).last_mtime == if present && old(self).stale(mtime) && read is Some {
                mtime
            } else {
                old(self).last_mtime
            },
            !final(self).unsaved,
    {
        self.unsaved = false;
        if !present {
            self.config = AccessConfig::default();
            return ;
        }
        if self.needs_read(mtime) {
            if let Some(config) = read {
                self.last_mtime = mtime;
                self.cached = config;
            }
        }
        self.config = self.cached.clone();
    }

    /// Takes note of an attempt to write the configuration in force to its file: whether it went
    /// through, and when the file is modified since.
    pub fn save_config(&mut self, written: bool, mtime: Option<i128>)
        ensures
            final(self)@ == old(self)@,
            final(self).cached@ == if written {
                old(self)@
            } else {
                old(self).cached@
            },
            final(self).last_mtime == if written {
                mtime
            } else {
                old(self).last_mtime
            },
            !final(self).unsaved,
    {
        self.unsaved = false;
        if written {
            self.cached = self.config.clone();
            self.last_mtime = mtime;
        }
    }

    /// Judges a message of `user_id` in `room_id` at `now`, in milliseconds since the epoch; `code`
    /// is the code of a pairing that it starts.
    pub fn check_sender_with_code(
        &mut self,
        user_id: &str,
        room_id: &str,
        now: u64,
        code: String,
    ) -> (answer: Result<(), AccessDenied>)
        requires
            now <= u64::MAX - PAIRING_LIFETIME,
        ensures
            (final(self)@, answer_model(answer)) == old(self)@.checked(
                user_id@,
                room_id@,
                now,
                code@,
            ),
            final(self).unsaved == (old(self).unsaved || old(self)@.pairs(user_id@, room_id@)),
            final(self).cached == old(self).cached,
            final(self).last_mtime == old(self).last_mtime,
    {
        if self.config.dm_policy == DmPolicy::Disabled {
            return Ok(());
        }
        if is_listed(&self.config.allow_from, user_id) {
            return Ok(());
        }
        let at: usize = find_group(&self.config.groups, room_id);
        if at < self.config.groups.len() && is_listed(
            &self.config.groups[at].1.allow_from,
            user_id,
        ) {
            return Ok(());
        }
        if self.config.dm_policy == DmPolicy::Allowlist {
            return Err(AccessDenied::Denied);
        }
        prune(&mut self.config.pending, now);
        self.unsaved = true;
        let known: usize = find_sender(&self.config.pending, user_id);
        if known < self.config.pending.len() {
            let code: String = self.config.pending[known].0.clone();
            return if self.config.pending[known].1.replies >= MAX_REPLIES_PER_SENDER {
                Err(AccessDenied::PairingPending(code))
            } else {
                Err(AccessDenied::PairingRequired(code))
            };
        }
        if self.config.pending.len() >= MAX_PENDING {
            return Err(AccessDenied::TooManyPending);
        }
        let entry = PendingEntry {
            sender_id: user_id.to_owned(),
            chat_id: room_id.to_owned(),
            created_at: now,
            expires_at: now + PAIRING_LIFETIME,
            replies: 0,
        };
        let ghost live = pending_models(self.config.pending@);
        let place: usize = find_code(&self.config.pending, code.as_str());
        let issued: String = code.clone();
        if place < self.config.pending.len() {
            self.config.pending.set(place, (code, entry));
        } else {
            self.config.pending.push((code, entry));
        }
        proof {
            assert(pending_models(self.config.pending@) =~= with_code(
                live,
                issued@,
                new_pairing(user_id@, room_id@, now),
            ));
        }
        Err(AccessDenied::PairingRequired(issued))
    }

    /// Judges a message of `user_id` in `room_id` at `now`, in milliseconds since the epoch.
    pub fn check_sender(&mut self, user_id: &str, room_id: &str, now: u64) -> (answer: Result<
        (),
        AccessDenied,
    >)
        requires
            now <= u64::MAX - PAIRING_LIFETIME,
        ensures
            exists|code: Seq<char>|
                is_code(code) && (final(self)@, answer_model(answer))
                    == #[trigger] old(self)@.checked(user_id@, room_id@, now, code),
            final(self).unsaved == (old(self).unsaved || old(self)@.pairs(user_id@, room_id@)),
            final(self).cached == old(self).cached,
            final(self).last_mtime == old(self).last_mtime,
    {
        let code = generate_code();
        self.check_sender_with_code(user_id, room_id, now, code)
    }

    /// Counts a reply that was sent to a sender whose pairing is pending.
    pub fn mark_pairing_reply_sent(&mut self, user_id: &str)
        ensures
            final(self)@ == old(self)@.marked(user_id@),
            final(self).unsaved == (old(self).unsaved || sender_index(
                old(self)@.pending,
                user_id@,
            ) < old(self)@.pending.len()),
            final(self).cached == old(self).cached,
            final(self).last_mtime == old(self).last_mtime,
    {
        let at: usize = find_sender(&self.config.pending, user_id);
        if at < self.config.pending.len() {
            let ghost before = pending_models(self.config.pending@);
            let (code, mut entry) = self.config.pending.remove(at);
            if entry.replies < 255 {
                entry.replies = entry.replies + 1;
            }
            self.config.pending.insert(at, (code, entry));
            self.unsaved = true;
            proof {
                assert(pending_models(self.config.pending@) =~= before.update(
                    at as int,
                    (code@, entry@),
                ));
                assert(self.config@ == old(self)@.marked(user_id@));
            }
        }
    }

    /// Approves the pairing of `user_id` that waits under `code`, at `now`, and gives back the room
    /// that it was asked for in.
    pub fn approve_pairing(&mut self, user_id: &str, code: &str, now: u64) -> (room: Result<
        String,
        PairingError,
    >)
        ensures
            ({
                let (after, outcome) = old(self)@.approved(user_id@, code@, now);
                &&& final(self)@ == after
                &&& match outcome {
                    Ok(chat) => room matches Ok(r) && r@ == chat,
                    Err(e) => room == Err::<String, PairingError>(e),
                }
            }),
            final(self).unsaved == (old(self).unsaved || room is Ok),
            final(self).cached == old(self).cached,
            final(self).last_mtime == old(self).last_mtime,
    {
        let mut config: AccessConfig = self.config.clone();
        prune(&mut config.pending, now);
        let at: usize = find_code(&config.pending, code);
        if at == config.pending.len() {
            return Err(PairingError::NoPendingPairing);
        }
        if !same_text(config.pending[at].1.sender_id.as_str(), user_id) {
            return Err(PairingError::NoPendingPairing);
        }
        if !room_id_valid(config.pending[at].1.chat_id.as_str()) {
            return Err(PairingError::NoPendingPairing);
        }
        let ghost live = pending_models(config.pending@);
        let (_code, entry) = config.pending.remove(at);
        proof {
            assert(pending_models(config.pending@) =~= live.remove(at as int));
        }
        if !list_contains(&config.allow_from, user_id) {
            let ghost listed_before = text::texts(config.allow_from@);
            config.allow_from.push(user_id.to_owned());
            proof {
                assert(text::texts(config.allow_from@) =~= listed_before.push(user_id@));
            }
        }
        self.config = config;
        self.unsaved = true;
        Ok(entry.chat_id)
    }

    /// Whether messages in `room_id` have to mention the bridge.
    pub fn requires_mention(&self, room_id: &str) -> (required: bool)
        ensures
            required == self@.mention_required(room_id@),
    {
        let at: usize = find_group(&self.config.groups, room_id);
        at < self.config.groups.len() && self.config.groups[at].1.require_mention
    }

    /// The patterns that count as a mention in `room_id`.
    pub fn mention_patterns(&self, room_id: &str) -> (patterns: Vec<String>)
        ensures
            text::texts(patterns@) == self@.patterns_in(room_id@),
    {
        let at: usize = find_group(&self.config.groups, room_id);
        if at < self.config.groups.len() {
            copy_list(&self.config.groups[at].1.mention_patterns)
        } else {
            let patterns: Vec<String> = Vec::new();
            proof {
                assert(text::texts(patterns@) =~= Seq::empty());
            }
            patterns
        }
    }

    /// The reaction that acknowledges a message, if there is to be one.
    pub fn ack_reaction(&self) -> (emoji: Option<String>)
        ensures
            match emoji {
                Some(e) => self@.ack_reaction.len() != 0 && e@ == self@.ack_reaction,
                None => self@.ack_reaction.len() == 0,
            },
    {
        if self.config.ack_reaction.as_str().is_empty() {
            None
        } else {
            Some(self.config.ack_reaction.clone())
        }
    }

    /// How long a chunk may be; never less than the sane minimum.
    pub fn text_chunk_limit(&self) -> (limit: usize)
        ensures
            limit >= MIN_CHUNK_LIMIT,
            self@.text_chunk_limit >= MIN_CHUNK_LIMIT ==> limit == self@.text_chunk_limit,
            self@.text_chunk_limit <= MIN_CHUNK_LIMIT ==> limit == MIN_CHUNK_LIMIT,
    {
        if self.config.text_chunk_limit < MIN_CHUNK_LIMIT {
            MIN_CHUNK_LIMIT
        } else {
            self.config.text_chunk_limit
        }
    }

    /// Where long replies are cut.
    pub fn chunk_mode(&self) -> (mode: ChunkMode)
        ensures
            mode == self@.chunk_mode,
    {
        self.config.chunk_mode
    }

    /// Which chunks of a long reply refer to the message replied to.
    pub fn reply_to_mode(&self) -> (mode: ReplyToMode)
        ensures
            mode == self@.reply_to_mode,
    {
        self.config.reply_to_mode
    }
}

} // verus!
