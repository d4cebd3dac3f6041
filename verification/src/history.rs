//! Reading back what was said in a room.

use vstd::prelude::*;

use crate::content;
use crate::content::{extract_mxc_uri, MediaKind, MessageBody};

verus! {

/// How many messages are read back unless asked otherwise.
pub const DEFAULT_HISTORY: u32 = 10;

/// How many messages are read back at most.
pub const MAX_HISTORY: u32 = 50;

/// How many messages are read back, where `asked` is how many were asked for, if any number was.
pub open spec fn history_limit(asked: Option<u32>) -> u32 {
    match asked {
        Some(n) => if n < MAX_HISTORY {
            n
        } else {
            MAX_HISTORY
        },
        None => DEFAULT_HISTORY,
    }
}

/// How many messages are read back, where `asked` is how many were asked for, if any number was.
pub fn fetch_limit(asked: Option<u32>) -> (limit: u32)
    ensures
        limit == history_limit(asked),
{
    match asked {
        Some(n) => if n < MAX_HISTORY {
            n
        } else {
            MAX_HISTORY
        },
        None => DEFAULT_HISTORY,
    }
}

/// A message of a room's past.
#[derive(Debug)]
pub struct PastMessage {
    pub event_id: String,
    pub sender: String,
    pub body: MessageBody,
}

/// The word that a file is listed with.
pub open spec fn listed_label(kind: MediaKind) -> Seq<char> {
    match kind {
        MediaKind::Image => "[image: "@,
        MediaKind::File => "[file: "@,
        MediaKind::Audio => "[audio: "@,
        MediaKind::Video => "[video: "@,
    }
}

/// What is listed of the content of a message.
pub open spec fn listed_body(body: MessageBody) -> Seq<char> {
    match body {
        MessageBody::Text(s) => s@,
        MessageBody::Media(media) => listed_label(media.kind) + media.body@ + " | mxc: "@
            + content::address(media.source) + "]"@,
        MessageBody::Other => "[other]"@,
    }
}

/// The line for a message.
pub open spec fn listed_line(message: PastMessage) -> Seq<char> {
    "["@ + message.event_id@ + "] "@ + message.sender@ + ": "@ + listed_body(message.body) + "\n"@
}

/// The lines for messages that are given newest first, oldest first.
pub open spec fn listing(messages: Seq<PastMessage>) -> Seq<char>
    decreases messages.len(),
{
    if messages.len() == 0 {
        Seq::empty()
    } else {
        listed_line(messages.last()) + listing(messages.drop_last())
    }
}

/// The `limit` most recent of messages that are given newest first; all where there are no more.
pub open spec fn newest(messages: Seq<PastMessage>, limit: u32) -> Seq<PastMessage> {
    if messages.len() <= limit {
        messages
    } else {
        messages.take(limit as int)
    }
}

/// What is read back of messages that are given newest first.
pub open spec fn history(messages: Seq<PastMessage>, limit: u32) -> Seq<char> {
    if newest(messages, limit).len() == 0 {
        "No messages found."@
    } else {
        listing(newest(messages, limit))
    }
}

fn push_line(out: &mut String, message: &PastMessage)
    ensures
        final(out)@ == old(out)@ + listed_line(*message),
{
    let ghost before = out@;
    out.append("[");
    out.append(message.event_id.as_str());
    out.append("] ");
    out.append(message.sender.as_str());
    out.append(": ");
    match &message.body {
        MessageBody::Text(s) => {
            out.append(s.as_str());
        },
        MessageBody::Media(media) => {
            let label = match media.kind {
                MediaKind::Image => "[image: ",
                MediaKind::File => "[file: ",
                MediaKind::Audio => "[audio: ",
                MediaKind::Video => "[video: ",
            };
            out.append(label);
            out.append(media.body.as_str());
            out.append(" | mxc: ");
            out.append(extract_mxc_uri(&media.source).as_str());
            out.append("]");
        },
        MessageBody::Other => {
            out.append("[other]");
        },
    }
    out.append("\n");
    proof {
        assert(out@ =~= before + listed_line(*message));
    }
}

/// What is read back of messages that are given newest first: the `limit` most recent of them,
/// oldest first, one line each.
pub fn render_history(messages: &Vec<PastMessage>, limit: u32) -> (out: String)
    ensures
        out@ == history(messages@, limit),
{
    let mut count: u32 = 0;
    while (count as usize) < messages.len() && count < limit
        invariant
            count <= messages@.len(),
            count <= limit,
        decreases limit - count,
    {
        count += 1;
    }
    let ghost wanted = newest(messages@, limit);
    proof {
        assert(messages@.take(count as int) =~= wanted);
    }
    if count == 0 {
        return "No messages found.".to_owned();
    }
    let mut out = String::new();
    let mut i: usize = count as usize;
    proof {
        assert(out@ + listing(messages@.take(i as int)) =~= listing(wanted));
    }
    while i > 0
        invariant
            i <= messages@.len(),
            out@ + listing(messages@.take(i as int)) == listing(wanted),
        decreases i,
    {
        i -= 1;
        let ghost before = out@;
        proof {
            let part = messages@.take(i + 1);
            assert(part.drop_last() =~= messages@.take(i as int));
            assert(part.last() == messages@[i as int]);
        }
        push_line(&mut out, &messages[i]);
        proof {
            assert(out@ + listing(messages@.take(i as int)) =~= before + (listed_line(
                messages@[i as int],
            ) + listing(messages@.take(i as int))));
        }
    }
    proof {
        assert(messages@.take(0) =~= Seq::empty());
        assert(out@ =~= listing(wanted));
    }
    out
}

/// The messages that are read back are exactly as many as were asked for, where the room has as
/// many, and none that is left out is newer than one that is listed: of messages given newest
/// first, those that are listed come first.
pub proof fn lemma_most_recent_are_listed(messages: Seq<PastMessage>, limit: u32)
    ensures
        newest(messages, limit).len() == if messages.len() < limit {
            messages.len() as int
        } else {
            limit as int
        },
        newest(messages, limit).is_prefix_of(messages),
{
}

/// A room whose past holds no message is said to have none.
pub proof fn lemma_empty_history(limit: u32)
    ensures
        history(Seq::empty(), limit) == "No messages found."@,
{
}

/// No more than fifty messages are ever read back.
pub proof fn lemma_history_is_bounded(messages: Seq<PastMessage>, asked: Option<u32>)
    ensures
        newest(messages, history_limit(asked)).len() <= MAX_HISTORY,
{
}

/// What is read back: messages beyond the limit, counted from the newest, are left out; those that
/// are not come one line each, older ones first; and without any it is said that there are none. A
/// line is the event's id in brackets, the sender, a colon and the message.
pub proof fn lemma_how_history_is_listed(messages: Seq<PastMessage>, limit: u32)
    ensures
        messages.len() == 0 || limit == 0 ==> history(messages, limit) == "No messages found."@,
        messages.len() > limit ==> history(messages, limit) == history(
            messages.take(limit as int),
            limit,
        ),
        messages.len() == 1 && limit >= 1 ==> history(messages, limit) == listed_line(messages[0]),
        1 < messages.len() <= limit ==> history(messages, limit) == listed_line(messages.last())
            + history(messages.drop_last(), limit),
{
    if messages.len() == 1 && limit >= 1 {
        assert(listing(messages.drop_last()) =~= Seq::<char>::empty());
        assert(listing(messages) =~= listed_line(messages[0]));
    }
}

/// The line for a message.
pub proof fn lemma_how_messages_are_listed(message: PastMessage)
    ensures
        message.body matches MessageBody::Text(s) ==> listed_line(message) == "["@
            + message.event_id@ + "] "@ + message.sender@ + ": "@ + s@ + "\n"@,
        message.body matches MessageBody::Media(media) ==> listed_line(message) == "["@
            + message.event_id@ + "] "@ + message.sender@ + ": "@ + (match media.kind {
            MediaKind::Image => "[image: "@,
            MediaKind::File => "[file: "@,
            MediaKind::Audio => "[audio: "@,
            MediaKind::Video => "[video: "@,
        } + media.body@ + " | mxc: "@ + (match media.source {
            content::MediaOrigin::Plain(uri) => uri@,
            content::MediaOrigin::Encrypted(uri) => uri@,
        }) + "]"@) + "\n"@,
        message.body is Other ==> listed_line(message) == "["@ + message.event_id@ + "] "@
            + message.sender@ + ": "@ + "[other]"@ + "\n"@,
{
}

/// Ten messages are read back unless another number is asked for, and never more than fifty.
pub proof fn lemma_how_much_is_read_back(asked: u32)
    ensures
        history_limit(None) == 10,
        asked <= 50 ==> history_limit(Some(asked)) == asked,
        asked > 50 ==> history_limit(Some(asked)) == 50,
{
}

} // verus!
