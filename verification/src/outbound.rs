//! What the agent may send to a room, and how.

use vstd::prelude::*;

use crate::access;
use crate::access::{AccessControl, ChunkMode, ReplyToMode};
use crate::chunk;
use crate::chunk::{chunk_text, Unit};
use crate::ids;
use crate::ids::{event_id_valid, room_id_valid, user_id_valid};
use crate::live_status::MAX_TOTAL_LENGTH;
use crate::numbers;
use crate::numbers::push_decimal;
use crate::rooms::{KnownRooms, RoomsModel};
use crate::text;
use crate::text::byte_len;

verus! {

/// The largest file, in bytes.
pub const MAX_ATTACHMENT_SIZE: u64 = 20_971_520;

/// How many files a reply may carry.
pub const MAX_FILES_PER_REPLY: usize = 10;

/// What is wrong with a request of the agent.
#[derive(Debug, Clone, Copy, PartialEq, Eq, Structural)]
pub enum ToolError {
    /// The message takes so many bytes.
    MessageTooLong(usize),
    InvalidRoomId,
    InvalidEventId,
    InvalidUserId,
    /// Nobody has written from that room.
    UnknownRoom,
    TooManyFiles(usize),
    PairingFailed,
    FileOutsideWorkingDirectory,
    FileInDataDirectory,
    FileTooLarge(u64),
    AttachmentTooLarge(u64),
    NotMedia,
}

/// The words for an error about something that has a size.
pub open spec fn size_words(head: Seq<char>, n: nat, middle: Seq<char>, limit: nat, tail: Seq<char>)
    -> Seq<char> {
    head + numbers::decimal(n) + middle + numbers::decimal(limit) + tail
}

/// The words for an error.
pub open spec fn error_words(error: ToolError) -> Seq<char> {
    match error {
        ToolError::MessageTooLong(n) => size_words(
            "Message too long ("@,
            n as nat,
            " chars). Maximum is "@,
            MAX_TOTAL_LENGTH as nat,
            " chars."@,
        ),
        ToolError::InvalidRoomId => "Invalid room ID"@,
        ToolError::InvalidEventId => "Invalid event ID"@,
        ToolError::InvalidUserId => "Invalid user ID"@,
        ToolError::UnknownRoom => "Cannot send to this room — no inbound messages received from it"@,
        ToolError::TooManyFiles(n) => size_words(
            "Too many files ("@,
            n as nat,
            "). Maximum is "@,
            MAX_FILES_PER_REPLY as nat,
            "."@,
        ),
        ToolError::PairingFailed => "Pairing failed — check the code and try again"@,
        ToolError::FileOutsideWorkingDirectory => "Cannot send files outside the current working directory"@,
        ToolError::FileInDataDirectory => "Cannot send files from the bot's data directory"@,
        ToolError::FileTooLarge(n) => size_words(
            "File too large ("@,
            n as nat,
            " bytes). Maximum is "@,
            MAX_ATTACHMENT_SIZE as nat,
            " bytes."@,
        ),
        ToolError::AttachmentTooLarge(n) => size_words(
            "Attachment too large ("@,
            n as nat,
            " bytes). Maximum is "@,
            MAX_ATTACHMENT_SIZE as nat,
            " bytes."@,
        ),
        ToolError::NotMedia => "Event is not a media message"@,
    }
}

fn say_size(head: &str, n: u64, middle: &str, limit: u64, tail: &str) -> (words: String)
    ensures
        words@ == size_words(head@, n as nat, middle@, limit as nat, tail@),
{
    let mut words = head.to_owned();
    push_decimal(&mut words, n);
    words.append(middle);
    push_decimal(&mut words, limit);
    words.append(tail);
    words
}

impl ToolError {
    /// The words for the error.
    pub fn message(&self) -> (words: String)
        ensures
            words@ == error_words(*self),
    {
        match self {
            ToolError::MessageTooLong(n) => say_size(
                "Message too long (",
                *n as u64,
                " chars). Maximum is ",
                MAX_TOTAL_LENGTH as u64,
                " chars.",
            ),
            ToolError::InvalidRoomId => "Invalid room ID".to_owned(),
            ToolError::InvalidEventId => "Invalid event ID".to_owned(),
            ToolError::InvalidUserId => "Invalid user ID".to_owned(),
            ToolError::UnknownRoom => "Cannot send to this room — no inbound messages received from it".to_owned(),
            ToolError::TooManyFiles(n) => say_size(
                "Too many files (",
                *n as u64,
                "). Maximum is ",
                MAX_FILES_PER_REPLY as u64,
                ".",
            ),
            ToolError::PairingFailed => "Pairing failed — check the code and try again".to_owned(),
            ToolError::FileOutsideWorkingDirectory => "Cannot send files outside the current working directory".to_owned(),
            ToolError::FileInDataDirectory => "Cannot send files from the bot's data directory".to_owned(),
            ToolError::FileTooLarge(n) => say_size(
                "File too large (",
                *n,
                " bytes). Maximum is ",
                MAX_ATTACHMENT_SIZE,
                " bytes.",
            ),
            ToolError::AttachmentTooLarge(n) => say_size(
                "Attachment too large (",
                *n,
                " bytes). Maximum is ",
                MAX_ATTACHMENT_SIZE,
                " bytes.",
            ),
            ToolError::NotMedia => "Event is not a media message".to_owned(),
        }
    }
}

/// Whether a room may be written to: nobody has to hear from the bridge who has not written to it.
pub fn check_outbound_gate(rooms: &KnownRooms, room_id: &str) -> (pass: Result<(), ToolError>)
    ensures
        pass == if rooms@.rooms.contains(room_id@) {
            Ok::<(), ToolError>(())
        } else {
            Err(ToolError::UnknownRoom)
        },
{
    if rooms.contains(room_id) {
        Ok(())
    } else {
        Err(ToolError::UnknownRoom)
    }
}

/// Whether a text is a room id.
pub fn parse_room_id(room_id: &str) -> (pass: Result<(), ToolError>)
    ensures
        pass == if ids::is_room_id(room_id@) {
            Ok::<(), ToolError>(())
        } else {
            Err(ToolError::InvalidRoomId)
        },
{
    if room_id_valid(room_id) {
        Ok(())
    } else {
        Err(ToolError::InvalidRoomId)
    }
}

/// Whether a text is an event id. A text without a colon is one exactly if it starts with `$`.
pub fn parse_event_id(event_id: &str) -> (pass: Result<(), ToolError>)
    ensures
        pass == if ids::is_event_id(event_id@) {
            Ok::<(), ToolError>(())
        } else {
            Err(ToolError::InvalidEventId)
        },
        !event_id@.contains(':') ==> pass is Ok == (event_id@.len() != 0 && event_id@[0] == '$'),
{
    if event_id_valid(event_id) {
        Ok(())
    } else {
        Err(ToolError::InvalidEventId)
    }
}

/// What stands against writing to a room.
pub open spec fn destination(rooms: RoomsModel, room: Seq<char>) -> Result<(), ToolError> {
    if !ids::is_room_id(room) {
        Err(ToolError::InvalidRoomId)
    } else if !rooms.rooms.contains(room) {
        Err(ToolError::UnknownRoom)
    } else {
        Ok(())
    }
}

/// Checks the room of a request.
pub fn check_destination(rooms: &KnownRooms, room_id: &str) -> (pass: Result<(), ToolError>)
    ensures
        pass == destination(rooms@, room_id@),
{
    parse_room_id(room_id)?;
    check_outbound_gate(rooms, room_id)
}

/// What stands against sending a message to a room.
pub open spec fn admissible(rooms: RoomsModel, room: Seq<char>, message: Seq<char>) -> Result<
    (),
    ToolError,
> {
    if text::size(message) > MAX_TOTAL_LENGTH {
        Err(ToolError::MessageTooLong(text::size(message) as usize))
    } else {
        destination(rooms, room)
    }
}

/// Checks the message and the room of a request.
pub fn check_message(rooms: &KnownRooms, room_id: &str, message: &str) -> (pass: Result<
    (),
    ToolError,
>)
    ensures
        pass == admissible(rooms@, room_id@, message@),
{
    let length: usize = byte_len(message);
    if length > MAX_TOTAL_LENGTH {
        return Err(ToolError::MessageTooLong(length));
    }
    check_destination(rooms, room_id)
}

/// A piece of a reply, and the message that it answers, if it shows one.
#[derive(Debug)]
pub struct Piece {
    pub body: String,
    pub reply_to: Option<String>,
}

/// A piece of a reply, and the message that it answers, if it shows one.
pub struct PieceModel {
    pub body: Seq<char>,
    pub reply_to: Option<Seq<char>>,
}

impl View for Piece {
    type V = PieceModel;

    open spec fn view(&self) -> PieceModel {
        PieceModel {
            body: self.body@,
            reply_to: match self.reply_to {
                Some(event) => Some(event@),
                None => None,
            },
        }
    }
}

/// What pieces of a reply say.
pub open spec fn piece_models(pieces: Seq<Piece>) -> Seq<PieceModel> {
    pieces.map_values(|piece: Piece| piece@)
}

/// Whether the piece at `at` shows the message that the reply answers.
pub open spec fn shows_relation(at: int, mode: ReplyToMode) -> bool {
    match mode {
        ReplyToMode::First => at == 0,
        ReplyToMode::All => true,
        ReplyToMode::Off => false,
    }
}

/// The pieces of a reply.
pub open spec fn reply_pieces(
    message: Seq<char>,
    reply_to: Option<Seq<char>>,
    limit: int,
    chunk_mode: ChunkMode,
    reply_mode: ReplyToMode,
) -> Seq<PieceModel> {
    let bodies = chunk::chunks_of(message, limit, chunk_mode, Unit::Chars);
    Seq::new(
        bodies.len(),
        |i: int|
            PieceModel {
                body: bodies[i],
                reply_to: if shows_relation(i, reply_mode) {
                    reply_to
                } else {
                    None
                },
            },
    )
}

/// The pieces that a reply is sent in. An answered message has to be named by its event id.
pub fn plan_reply(
    message: &str,
    reply_to: Option<&str>,
    limit: usize,
    chunk_mode: ChunkMode,
    reply_mode: ReplyToMode,
) -> (plan: Result<Vec<Piece>, ToolError>)
    requires
        limit >= 1,
    ensures
        match plan {
            Ok(pieces) => (reply_to matches Some(event) ==> ids::is_event_id(event@))
                && piece_models(pieces@) == reply_pieces(
                message@,
                text::str_in(reply_to),
                limit as int,
                chunk_mode,
                reply_mode,
            ),
            Err(e) => e == ToolError::InvalidEventId && reply_to is Some && !ids::is_event_id(
                reply_to->0@,
            ),
        },
{
    if let Some(event) = reply_to {
        if !event_id_valid(event) {
            return Err(ToolError::InvalidEventId);
        }
    }
    let bodies = chunk_text(message, limit, chunk_mode);
    let ghost wanted = reply_pieces(
        message@,
        text::str_in(reply_to),
        limit as int,
        chunk_mode,
        reply_mode,
    );
    let mut pieces: Vec<Piece> = Vec::new();
    let mut i: usize = 0;
    while i < bodies.len()
        invariant
            i <= bodies@.len(),
            chunk::held(bodies@) == chunk::chunks_of(message@, limit as int, chunk_mode, Unit::Chars),
            wanted == reply_pieces(
                message@,
                text::str_in(reply_to),
                limit as int,
                chunk_mode,
                reply_mode,
            ),
            piece_models(pieces@) == wanted.take(i as int),
        decreases bodies@.len() - i,
    {
        let shown: bool = match reply_mode {
            ReplyToMode::First => i == 0,
            ReplyToMode::All => true,
            ReplyToMode::Off => false,
        };
        let relation: Option<String> = match reply_to {
            Some(event) => if shown {
                Some(event.to_owned())
            } else {
                None
            },
            None => None,
        };
        let ghost before = piece_models(pieces@);
        let piece = Piece { body: bodies[i].to_owned(), reply_to: relation };
        proof {
            assert(chunk::held(bodies@)[i as int] == bodies@[i as int]@);
            assert(piece@ == wanted[i as int]);
        }
        pieces.push(piece);
        i += 1;
        proof {
            assert(piece_models(pieces@) =~= before.push(wanted[i - 1]));
            assert(wanted.take(i as int) =~= wanted.take(i - 1).push(wanted[i - 1]));
        }
    }
    proof {
        assert(wanted.take(i as int) =~= wanted);
    }
    Ok(pieces)
}

/// The pieces that a reply is sent in under the access rules in force, which also say how replies
/// are delivered.
pub fn plan_reply_under(rules: &AccessControl, message: &str, reply_to: Option<&str>) -> (plan:
    Result<Vec<Piece>, ToolError>)
    ensures
        match plan {
            Ok(pieces) => (reply_to matches Some(event) ==> ids::is_event_id(event@))
                && piece_models(pieces@) == reply_pieces(
                message@,
                text::str_in(reply_to),
                if rules@.text_chunk_limit < access::MIN_CHUNK_LIMIT {
                    access::MIN_CHUNK_LIMIT as int
                } else {
                    rules@.text_chunk_limit as int
                },
                rules@.chunk_mode,
                rules@.reply_to_mode,
            ),
            Err(e) => e == ToolError::InvalidEventId && reply_to is Some && !ids::is_event_id(
                reply_to->0@,
            ),
        },
{
    plan_reply(
        message,
        reply_to,
        rules.text_chunk_limit(),
        rules.chunk_mode(),
        rules.reply_to_mode(),
    )
}

/// Checks how many files come with a reply.
pub fn check_files(count: usize) -> (pass: Result<(), ToolError>)
    ensures
        pass == if count > MAX_FILES_PER_REPLY {
            Err::<(), ToolError>(ToolError::TooManyFiles(count))
        } else {
            Ok(())
        },
{
    if count > MAX_FILES_PER_REPLY {
        Err(ToolError::TooManyFiles(count))
    } else {
        Ok(())
    }
}

/// Texts with a comma and a space between each and the next.
pub open spec fn comma_joined(list: Seq<Seq<char>>) -> Seq<char>
    decreases list.len(),
{
    if list.len() == 0 {
        Seq::empty()
    } else if list.len() == 1 {
        list[0]
    } else {
        comma_joined(list.drop_last()) + ", "@ + list.last()
    }
}

fn join_commas(list: &Vec<String>) -> (joined: String)
    ensures
        joined@ == comma_joined(text::texts(list@)),
{
    let ghost all = text::texts(list@);
    let mut joined = String::new();
    let mut i: usize = 0;
    while i < list.len()
        invariant
            i <= list@.len(),
            all == text::texts(list@),
            joined@ == comma_joined(all.take(i as int)),
        decreases list@.len() - i,
    {
        proof {
            assert(all.take(i + 1).drop_last() =~= all.take(i as int));
            assert(all.take(i + 1).last() == list@[i as int]@);
        }
        if i > 0 {
            joined.append(", ");
        }
        joined.append(list[i].as_str());
        i += 1;
    }
    proof {
        assert(all.take(i as int) =~= all);
    }
    joined
}

/// What was sent, in words.
pub open spec fn sent_words(chunks: nat, files: nat) -> Seq<char> {
    if chunks > 1 && files > 0 {
        "Sent "@ + numbers::decimal(chunks) + " text chunks"@ + " + "@ + numbers::decimal(files)
            + " file(s)"@
    } else if chunks > 1 {
        "Sent "@ + numbers::decimal(chunks) + " text chunks"@
    } else if files > 0 {
        "Sent "@ + numbers::decimal(files) + " file(s)"@
    } else {
        "Message sent"@
    }
}

/// The report on a reply that went out in so many pieces and with so many files, as these events.
pub fn reply_summary(chunks: usize, files: usize, event_ids: &Vec<String>) -> (words: String)
    ensures
        words@ == sent_words(chunks as nat, files as nat) + ". event_ids: "@ + comma_joined(
            text::texts(event_ids@),
        ),
{
    let mut words: String;
    if chunks > 1 {
        words = "Sent ".to_owned();
        push_decimal(&mut words, chunks as u64);
        words.append(" text chunks");
        if files > 0 {
            words.append(" + ");
            push_decimal(&mut words, files as u64);
            words.append(" file(s)");
        }
    } else if files > 0 {
        words = "Sent ".to_owned();
        push_decimal(&mut words, files as u64);
        words.append(" file(s)");
    } else {
        words = "Message sent".to_owned();
    }
    words.append(". event_ids: ");
    words.append(join_commas(event_ids).as_str());
    words
}

/// What the newly paired sender is told in their room.
pub fn pairing_confirmation(agent: &str) -> (words: String)
    ensures
        words@ == "Paired successfully. Your messages will now be forwarded to "@ + agent@
            + " Code."@,
{
    let mut words = "Paired successfully. Your messages will now be forwarded to ".to_owned();
    words.append(agent);
    words.append(" Code.");
    words
}

/// Approves a pairing at `now`, in milliseconds since 1970 began: gives the room that it was asked
/// for in and the report on it.
pub fn approve(rules: &mut AccessControl, user_id: &str, code: &str, now: u64) -> (outcome: Result<
    (String, String),
    ToolError,
>)
    ensures
        !ids::is_user_id(user_id@) ==> outcome == Err::<(String, String), ToolError>(
            ToolError::InvalidUserId,
        ) && *final(rules) == *old(rules),
        ids::is_user_id(user_id@) ==> final(rules)@ == old(rules)@.approved(user_id@, code@, now).0
            && final(rules).unsaved == (old(rules).unsaved || outcome is Ok) && final(rules).cached
            == old(rules).cached && final(rules).last_mtime == old(rules).last_mtime,
        ids::is_user_id(user_id@) ==> match outcome {
            Ok((room, words)) => old(rules)@.approvable(user_id@, code@, now) && old(
                rules,
            )@.approved(user_id@, code@, now).1 == Ok::<Seq<char>, access::PairingError>(room@)
                && words@ == "User "@ + user_id@
                + " approved. Their messages will now be forwarded."@,
            Err(e) => e == ToolError::PairingFailed && !old(rules)@.approvable(
                user_id@,
                code@,
                now,
            ),
        },
{
    if !user_id_valid(user_id) {
        return Err(ToolError::InvalidUserId);
    }
    match rules.approve_pairing(user_id, code, now) {
        Ok(room) => {
            let mut words = "User ".to_owned();
            words.append(user_id);
            words.append(" approved. Their messages will now be forwarded.");
            Ok((room, words))
        },
        Err(_) => Err(ToolError::PairingFailed),
    }
}

/// A room that nobody has written from is never written to.
pub proof fn lemma_no_reply_to_unknown_rooms(
    rooms: RoomsModel,
    room: Seq<char>,
    message: Seq<char>,
)
    requires
        !rooms.rooms.contains(room),
    ensures
        destination(rooms, room) is Err,
        admissible(rooms, room, message) is Err,
{
}

/// A room that has been heard from can be answered.
pub proof fn lemma_heard_rooms_can_be_answered(rooms: RoomsModel, room: Seq<char>)
    requires
        ids::is_room_id(room),
    ensures
        destination(rooms.heard_from(room), room) is Ok,
{
}

/// Put together again, the pieces of a reply are the message; none is larger than the limit, and
/// none is empty unless the message is.
pub proof fn lemma_reply_loses_nothing(
    message: Seq<char>,
    reply_to: Option<Seq<char>>,
    limit: int,
    chunk_mode: ChunkMode,
    reply_mode: ReplyToMode,
)
    requires
        limit >= 1,
    ensures
        ({
            let pieces = reply_pieces(message, reply_to, limit, chunk_mode, reply_mode);
            &&& pieces.len() >= 1
            &&& pieces.map_values(|piece: PieceModel| piece.body).flatten() == message
            &&& forall|i: int|
                0 <= i < pieces.len() ==> (#[trigger] pieces[i]).body.len() <= limit && (
                message.len() > 0 ==> pieces[i].body.len() > 0)
        }),
{
    let pieces = reply_pieces(message, reply_to, limit, chunk_mode, reply_mode);
    let bodies = chunk::chunks_of(message, limit, chunk_mode, Unit::Chars);
    assert(pieces.map_values(|piece: PieceModel| piece.body) =~= bodies);
    chunk::lemma_chunks_rejoin(message, limit, chunk_mode, Unit::Chars);
    chunk::lemma_chunks_fit(message, limit, chunk_mode, Unit::Chars);
    chunk::lemma_chunks_not_empty(message, limit, chunk_mode, Unit::Chars);
    assert forall|i: int| 0 <= i < pieces.len() implies (#[trigger] pieces[i]).body.len() <= limit
        && (message.len() > 0 ==> pieces[i].body.len() > 0) by {
        assert(pieces[i].body == bodies[i]);
    }
}

/// In length mode every piece of a reply but the last has exactly as many characters as the limit.
pub proof fn lemma_length_replies_are_cut_at_the_limit(
    message: Seq<char>,
    reply_to: Option<Seq<char>>,
    limit: int,
    reply_mode: ReplyToMode,
)
    requires
        limit >= 1,
    ensures
        ({
            let pieces = reply_pieces(message, reply_to, limit, ChunkMode::Length, reply_mode);
            forall|i: int|
                0 <= i < pieces.len() - 1 ==> (#[trigger] pieces[i]).body.len() == limit
        }),
{
    let pieces = reply_pieces(message, reply_to, limit, ChunkMode::Length, reply_mode);
    let bodies = chunk::chunks_of(message, limit, ChunkMode::Length, Unit::Chars);
    chunk::lemma_length_chunks_are_full(message, limit);
    assert forall|i: int| 0 <= i < pieces.len() - 1 implies (#[trigger] pieces[i]).body.len()
        == limit by {
        assert(pieces[i].body == bodies[i]);
    }
}

/// In newline mode every piece of a reply but the last ends with a line break if it holds one, and
/// with a space if it holds a space and no line break.
pub proof fn lemma_newline_replies_are_cut_at_lines(
    message: Seq<char>,
    reply_to: Option<Seq<char>>,
    limit: int,
    reply_mode: ReplyToMode,
)
    requires
        limit >= 1,
    ensures
        ({
            let pieces = reply_pieces(message, reply_to, limit, ChunkMode::Newline, reply_mode);
            forall|i: int|
                0 <= i < pieces.len() - 1 ==> {
                    let body = (#[trigger] pieces[i]).body;
                    if body.contains('\n') {
                        body.last() == '\n'
                    } else {
                        body.contains(' ') ==> body.last() == ' '
                    }
                }
        }),
{
    let pieces = reply_pieces(message, reply_to, limit, ChunkMode::Newline, reply_mode);
    let bodies = chunk::chunks_of(message, limit, ChunkMode::Newline, Unit::Chars);
    chunk::lemma_chunks_break_at_lines(message, limit, Unit::Chars);
    assert forall|i: int| 0 <= i < pieces.len() - 1 implies {
        let body = (#[trigger] pieces[i]).body;
        if body.contains('\n') {
            body.last() == '\n'
        } else {
            body.contains(' ') ==> body.last() == ' '
        }
    } by {
        assert(pieces[i].body == bodies[i]);
    }
}

/// By default the message that a reply answers is shown once, on the first piece.
pub proof fn lemma_first_piece_shows_the_relation(
    message: Seq<char>,
    event: Seq<char>,
    limit: int,
    chunk_mode: ChunkMode,
)
    requires
        limit >= 1,
    ensures
        ({
            let pieces = reply_pieces(message, Some(event), limit, chunk_mode, ReplyToMode::First);
            &&& pieces[0].reply_to == Some(event)
            &&& forall|i: int| 0 < i < pieces.len() ==> (#[trigger] pieces[i]).reply_to is None
        }),
{
    chunk::lemma_chunks_not_empty(message, limit, chunk_mode, Unit::Chars);
}

} // verus!
