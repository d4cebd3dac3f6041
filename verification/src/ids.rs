//! Which texts are Matrix identifiers.

use matrix_sdk::ruma::{OwnedEventId, OwnedRoomId, OwnedUserId};
use vstd::prelude::*;

verus! {

/// Whether `text` is a room id: it starts with `!`.
pub open spec fn is_room_id(text: Seq<char>) -> bool {
    text.len() != 0 && text[0] == '!'
}

/// Whether `text` is a user id, as `OwnedUserId::try_from` decides it.
pub uninterp spec fn is_user_id(text: Seq<char>) -> bool;

/// Whether `text` is an event id, as `OwnedEventId::try_from` decides it.
pub uninterp spec fn is_event_id(text: Seq<char>) -> bool;

/// `OwnedRoomId::try_from` accepts exactly the texts that start with `!`. (With the identifier
/// features that `matrix-sdk` switches on, the length is not bounded.)
#[verifier::external_body]
pub(crate) fn room_id_valid(text: &str) -> (valid: bool)
    ensures
        valid == is_room_id(text@),
{
    OwnedRoomId::try_from(text).is_ok()
}

/// `OwnedUserId::try_from` decides by the text alone; what it accepts starts with `@` and holds a
/// colon. What makes the part behind the colon a server name is not stated.
#[verifier::external_body]
pub(crate) fn user_id_valid(text: &str) -> (valid: bool)
    ensures
        valid == is_user_id(text@),
        valid ==> text@.len() != 0 && text@[0] == '@' && text@.contains(':'),
{
    OwnedUserId::try_from(text).is_ok()
}

/// `OwnedEventId::try_from` decides by the text alone; what it accepts starts with `$`, and of the
/// texts without a colon it accepts all that do. What makes the part behind a colon a server name
/// is not stated.
#[verifier::external_body]
pub(crate) fn event_id_valid(text: &str) -> (valid: bool)
    ensures
        valid == is_event_id(text@),
        valid ==> text@.len() != 0 && text@[0] == '$',
        !text@.contains(':') ==> valid == (text@.len() != 0 && text@[0] == '$'),
{
    OwnedEventId::try_from(text).is_ok()
}

} // verus!
