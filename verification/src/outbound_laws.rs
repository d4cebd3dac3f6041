//! What the agent may send, and in which pieces.

use vstd::prelude::*;

use crate::access;
use crate::access::{ChunkMode, ReplyToMode};
use crate::chunk;
use crate::chunk::Unit;
use crate::numbers;
use crate::outbound;
use crate::outbound::{PieceModel, ToolError};
use crate::rooms::RoomsModel;

verus! {

/// A message may be sent exactly if it takes at most 50000 bytes and goes to a known room whose name
/// starts with an exclamation mark. Of what stands against it, the length is told first, with the
/// bytes, then the name, then that nobody has written from there.
pub proof fn lemma_what_may_be_sent(rooms: RoomsModel, room: Seq<char>, message: Seq<char>)
    ensures
        ({
            let length = vstd::utf8::encode_utf8(message).len();
            outbound::admissible(rooms, room, message) == if length > 50_000 {
                Err::<(), ToolError>(ToolError::MessageTooLong(length as usize))
            } else if room.len() == 0 || room[0] != '!' {
                Err(ToolError::InvalidRoomId)
            } else if !rooms.rooms.contains(room) {
                Err(ToolError::UnknownRoom)
            } else {
                Ok(())
            }
        }),
        outbound::destination(rooms, room) == if room.len() == 0 || room[0] != '!' {
            Err::<(), ToolError>(ToolError::InvalidRoomId)
        } else if !rooms.rooms.contains(room) {
            Err(ToolError::UnknownRoom)
        } else {
            Ok(())
        },
{
}

/// The texts of pieces.
pub open spec fn bodies(pieces: Seq<PieceModel>) -> Seq<Seq<char>> {
    pieces.map_values(|piece: PieceModel| piece.body)
}

/// The pieces of a reply are the message, cut as late as the limit allows: in newline mode behind
/// line breaks, or behind spaces where there are none. The message that the reply answers is shown
/// on the first piece, on all of them or on none, as is set.
pub proof fn lemma_how_replies_are_cut(
    message: Seq<char>,
    reply_to: Option<Seq<char>>,
    limit: int,
    chunk_mode: ChunkMode,
    reply_mode: ReplyToMode,
)
    requires
        limit >= 1,
    ensures
        ({
            let pieces = outbound::reply_pieces(message, reply_to, limit, chunk_mode, reply_mode);
            let texts = bodies(pieces);
            &&& texts.flatten() == message
            &&& message.len() <= limit ==> texts == seq![message]
            &&& forall|i: int|
                0 <= i < pieces.len() - 1 ==> {
                    let left = (#[trigger] texts.skip(i)).flatten();
                    left.len() > limit && chunk::well_cut(
                        left,
                        pieces[i].body.len() as int,
                        limit,
                        chunk_mode,
                        Unit::Chars,
                    )
                }
            &&& forall|i: int|
                0 <= i < pieces.len() ==> (#[trigger] pieces[i]).reply_to == match reply_mode {
                    ReplyToMode::First => if i == 0 {
                        reply_to
                    } else {
                        None
                    },
                    ReplyToMode::All => reply_to,
                    ReplyToMode::Off => None,
                }
        }),
{
    let pieces = outbound::reply_pieces(message, reply_to, limit, chunk_mode, reply_mode);
    let texts = bodies(pieces);
    let wanted = chunk::chunks_of(message, limit, chunk_mode, Unit::Chars);
    assert(texts =~= wanted);
    chunk::lemma_pieces_are_as_long_as_they_can_be(message, limit, chunk_mode, Unit::Chars);
    assert forall|i: int| 0 <= i < pieces.len() - 1 implies {
        let left = (#[trigger] texts.skip(i)).flatten();
        left.len() > limit && chunk::well_cut(
            left,
            pieces[i].body.len() as int,
            limit,
            chunk_mode,
            Unit::Chars,
        )
    } by {
        assert(wanted.skip(i) == texts.skip(i));
        assert(pieces[i].body == wanted[i]);
    }
}

/// Ids are listed in order, with a comma and a space between one and the next.
pub proof fn lemma_how_ids_are_listed(list: Seq<Seq<char>>, id: Seq<char>)
    ensures
        outbound::comma_joined(Seq::empty()).len() == 0,
        outbound::comma_joined(seq![id]) == id,
        list.len() > 0 ==> outbound::comma_joined(list.push(id)) == outbound::comma_joined(list)
            + ", "@ + id,
{
    assert(list.push(id).drop_last() =~= list);
}

/// The report says how many pieces went out, where there was more than one, and how many files,
/// where there was any, and else just that the message was sent.
pub proof fn lemma_what_is_reported(chunks: nat, files: nat)
    ensures
        chunks <= 1 && files == 0 ==> outbound::sent_words(chunks, files) == "Message sent"@,
        chunks > 1 && files == 0 ==> outbound::sent_words(chunks, files) == "Sent "@
            + numbers::decimal(chunks) + " text chunks"@,
        chunks <= 1 && files > 0 ==> outbound::sent_words(chunks, files) == "Sent "@
            + numbers::decimal(files) + " file(s)"@,
        chunks > 1 && files > 0 ==> outbound::sent_words(chunks, files) == "Sent "@
            + numbers::decimal(chunks) + " text chunks + "@ + numbers::decimal(files) + " file(s)"@,
{
    reveal_strlit(" text chunks");
    reveal_strlit(" + ");
    reveal_strlit(" text chunks + ");
    assert(" text chunks"@ + " + "@ =~= " text chunks + "@);
    let n = numbers::decimal(chunks);
    let m = numbers::decimal(files);
    assert("Sent "@ + n + " text chunks"@ + " + "@ + m + " file(s)"@ =~= "Sent "@ + n + (
    " text chunks"@ + " + "@) + m + " file(s)"@);
}

/// What is too large is told with its size and with the limit.
pub proof fn lemma_sizes_are_told(n: usize, size: u64)
    ensures
        outbound::error_words(ToolError::MessageTooLong(n)) == "Message too long ("@
            + numbers::decimal(n as nat) + " chars). Maximum is "@ + numbers::decimal(50_000)
            + " chars."@,
        outbound::error_words(ToolError::TooManyFiles(n)) == "Too many files ("@
            + numbers::decimal(n as nat) + "). Maximum is "@ + numbers::decimal(10) + "."@,
        outbound::error_words(ToolError::FileTooLarge(size)) == "File too large ("@
            + numbers::decimal(size as nat) + " bytes). Maximum is "@ + numbers::decimal(20_971_520)
            + " bytes."@,
        outbound::error_words(ToolError::AttachmentTooLarge(size)) == "Attachment too large ("@
            + numbers::decimal(size as nat) + " bytes). Maximum is "@ + numbers::decimal(20_971_520)
            + " bytes."@,
{
}

/// What is said of pieces is what they hold, each in its place.
pub proof fn lemma_what_pieces_say(pieces: Seq<outbound::Piece>)
    ensures
        outbound::piece_models(pieces).len() == pieces.len(),
        forall|i: int|
            0 <= i < pieces.len() ==> {
                let said = #[trigger] outbound::piece_models(pieces)[i];
                &&& said.body == pieces[i].body@
                &&& pieces[i].reply_to matches Some(event) ==> said.reply_to == Some(event@)
                &&& pieces[i].reply_to is None ==> said.reply_to is None
            },
{
}

/// No limit below a hundred characters is put to use, a reply carries at most ten files, and a file
/// takes at most 20 megabytes.
pub proof fn lemma_limits()
    ensures
        access::MIN_CHUNK_LIMIT == 100,
        outbound::MAX_FILES_PER_REPLY == 10,
        outbound::MAX_ATTACHMENT_SIZE == 20 * 1024 * 1024,
{
}

} // verus!
