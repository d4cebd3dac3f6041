//! What the agent's side is handed about a message.

use vstd::prelude::*;

use crate::access;
use crate::content;
use crate::content::{AttachmentMeta, AttachmentModel};
use crate::inbound::{ChannelNotification, NotificationModel};
use crate::json;
use crate::json::{Json, JsonModel};
use crate::json_laws;
use crate::numbers;
use crate::numbers::to_decimal;

verus! {

/// The members that describe a file.
pub open spec fn attachment_json(file: AttachmentModel) -> JsonModel {
    JsonModel::Object(
        seq![
            ("name"@, JsonModel::Str(file.name)),
            ("mime_type"@, JsonModel::Str(file.mime_type)),
            ("size"@, JsonModel::Number(numbers::decimal(file.size as nat))),
            ("mxc_uri"@, JsonModel::Str(file.mxc_uri)),
            (
                "source_json"@,
                match file.source_json {
                    Some(s) => JsonModel::Str(s),
                    None => JsonModel::Null,
                },
            ),
        ],
    )
}

/// The members that describe a message; those about files are there only if it has some.
pub open spec fn meta_json(n: NotificationModel) -> JsonModel {
    let basic = seq![
        ("sender"@, JsonModel::Str(n.sender)),
        ("sender_name"@, JsonModel::Str(n.name)),
        ("room_id"@, JsonModel::Str(n.room)),
        ("event_id"@, JsonModel::Str(n.event)),
        ("ts"@, JsonModel::Str(n.timestamp)),
    ];
    JsonModel::Object(
        if n.attachments.len() == 0 {
            basic
        } else {
            basic.push(
                (
                    "attachments"@,
                    JsonModel::Array(
                        n.attachments.map_values(|file: AttachmentModel| attachment_json(file)),
                    ),
                ),
            )
        },
    )
}

/// The parameters of the notification about a message.
pub open spec fn params_json(n: NotificationModel) -> JsonModel {
    JsonModel::Object(seq![("content"@, JsonModel::Str(n.content)), ("meta"@, meta_json(n))])
}

/// What the members of an object say.
pub open spec fn members(list: Seq<(String, Json)>) -> Seq<(Seq<char>, JsonModel)> {
    list.map_values(|item: (String, Json)| (item.0@, item.1@))
}

/// An object says what its members say.
proof fn lemma_object(list: Vec<(String, Json)>)
    ensures
        Json::Object(list)@ == JsonModel::Object(members(list@)),
{
    assert(Json::Object(list)@->Object_0 =~= members(list@));
}

fn add_text(list: &mut Vec<(String, Json)>, key: &str, value: &str)
    ensures
        members(final(list)@) == members(old(list)@).push((key@, JsonModel::Str(value@))),
{
    let ghost before = members(list@);
    list.push((key.to_owned(), Json::Str(value.to_owned())));
    proof {
        assert(members(list@) =~= before.push((key@, JsonModel::Str(value@))));
    }
}

fn describe_file(file: &AttachmentMeta) -> (value: Json)
    ensures
        value@ == attachment_json(file@),
{
    let mut list: Vec<(String, Json)> = Vec::new();
    add_text(&mut list, "name", file.name.as_str());
    add_text(&mut list, "mime_type", file.mime_type.as_str());
    let ghost before = members(list@);
    list.push(("size".to_owned(), Json::Number(to_decimal(file.size))));
    proof {
        assert(members(list@) =~= before.push(
            ("size"@, JsonModel::Number(numbers::decimal(file.size as nat))),
        ));
    }
    add_text(&mut list, "mxc_uri", file.mxc_uri.as_str());
    let ghost named = members(list@);
    let source = match &file.source_json {
        Some(s) => Json::Str(s.clone()),
        None => Json::Null,
    };
    list.push(("source_json".to_owned(), source));
    proof {
        assert(members(list@) =~= named.push(("source_json"@, source@)));
        lemma_object(list);
        assert(members(list@) =~= attachment_json(file@)->Object_0);
    }
    Json::Object(list)
}

fn describe_files(files: &Vec<AttachmentMeta>) -> (value: Json)
    ensures
        value@ == JsonModel::Array(
            content::attachment_models(files@).map_values(
                |file: AttachmentModel| attachment_json(file),
            ),
        ),
{
    let ghost wanted = content::attachment_models(files@).map_values(
        |file: AttachmentModel| attachment_json(file),
    );
    let mut list: Vec<Json> = Vec::new();
    let mut i: usize = 0;
    while i < files.len()
        invariant
            i <= files@.len(),
            wanted == content::attachment_models(files@).map_values(
                |file: AttachmentModel| attachment_json(file),
            ),
            list@.len() == i,
            forall|j: int| 0 <= j < i ==> (#[trigger] list@[j])@ == wanted[j],
        decreases files@.len() - i,
    {
        list.push(describe_file(&files[i]));
        i += 1;
    }
    proof {
        assert(Json::Array(list)@->Array_0 =~= wanted);
    }
    Json::Array(list)
}

/// The members that describe a message.
fn describe_message(n: &ChannelNotification) -> (value: Json)
    ensures
        value@ == meta_json(n@),
{
    let mut list: Vec<(String, Json)> = Vec::new();
    add_text(&mut list, "sender", n.sender.as_str());
    add_text(&mut list, "sender_name", n.sender_display_name.as_str());
    add_text(&mut list, "room_id", n.room_id.as_str());
    add_text(&mut list, "event_id", n.event_id.as_str());
    add_text(&mut list, "ts", n.timestamp.as_str());
    let ghost basic = members(list@);
    if n.attachments.len() > 0 {
        let files = describe_files(&n.attachments);
        list.push(("attachments".to_owned(), files));
        proof {
            assert(members(list@) =~= basic.push(("attachments"@, files@)));
        }
    }
    proof {
        lemma_object(list);
        assert(members(list@) =~= meta_json(n@)->Object_0);
    }
    Json::Object(list)
}

/// The parameters of the notification about a message.
pub fn notification_params(n: &ChannelNotification) -> (params: Json)
    ensures
        params@ == params_json(n@),
{
    let mut list: Vec<(String, Json)> = Vec::new();
    add_text(&mut list, "content", n.content.as_str());
    let ghost before = members(list@);
    let meta = describe_message(n);
    list.push(("meta".to_owned(), meta));
    proof {
        assert(members(list@) =~= before.push(("meta"@, meta@)));
        lemma_object(list);
        assert(members(list@) =~= params_json(n@)->Object_0);
    }
    Json::Object(list)
}

/// What the agent's side is handed about a file gives back what it takes to fetch it.
pub proof fn lemma_attachment_names_its_source(file: AttachmentModel)
    ensures
        attachment_json(file).member_string("mxc_uri"@) == Some(file.mxc_uri),
        attachment_json(file).member_string("source_json"@) == file.source_json,
{
    reveal_strlit("name");
    reveal_strlit("mime_type");
    reveal_strlit("size");
    reveal_strlit("mxc_uri");
    reveal_strlit("source_json");
    let list = attachment_json(file)->Object_0;
    assert("name"@.len() == 4 && "mime_type"@.len() == 9 && "size"@.len() == 4 && "mxc_uri"@.len()
        == 7 && "source_json"@.len() == 11);
    access::lemma_key_index(list, "mxc_uri"@, 3);
    access::lemma_key_index(list, "source_json"@, 4);
}

/// What the agent's side is handed gives back what is known of the message: its text, its sender
/// and its room.
pub proof fn lemma_params_name_sender_and_room(n: NotificationModel)
    ensures
        params_json(n).member_string("content"@) == Some(n.content),
        params_json(n).member("meta"@) == Some(meta_json(n)),
        meta_json(n).member_string("sender"@) == Some(n.sender),
        meta_json(n).member_string("room_id"@) == Some(n.room),
        meta_json(n).member("attachments"@) is Some <==> n.attachments.len() != 0,
{
    reveal_strlit("content");
    reveal_strlit("meta");
    reveal_strlit("sender");
    reveal_strlit("sender_name");
    reveal_strlit("room_id");
    reveal_strlit("event_id");
    reveal_strlit("ts");
    reveal_strlit("attachments");
    let outer = params_json(n)->Object_0;
    assert("content"@.len() == 7 && "meta"@.len() == 4);
    access::lemma_key_index(outer, "content"@, 0);
    access::lemma_key_index(outer, "meta"@, 1);
    let inner = meta_json(n)->Object_0;
    assert("sender"@.len() == 6 && "sender_name"@.len() == 11 && "room_id"@.len() == 7
        && "event_id"@.len() == 8 && "ts"@.len() == 2 && "attachments"@.len() == 11);
    assert("sender_name"@[0] == 's' && "attachments"@[0] == 'a');
    access::lemma_key_index(inner, "sender"@, 0);
    access::lemma_key_index(inner, "room_id"@, 2);
    access::lemma_key_index(inner, "attachments"@, 5);
}

/// The agent's side is told, under these names, what the message says, who sent it and under what
/// name, in which room, as which event and when; and, where there are files, of each its name, type,
/// size, address and source, in order.
pub proof fn lemma_what_the_agent_is_told(n: NotificationModel)
    ensures
        ({
            let meta = meta_json(n);
            &&& json_laws::says(params_json(n), "content"@, n.content)
            &&& json_laws::holds(params_json(n), "meta"@, meta)
            &&& json_laws::says(meta, "sender"@, n.sender)
            &&& json_laws::says(meta, "sender_name"@, n.name)
            &&& json_laws::says(meta, "room_id"@, n.room)
            &&& json_laws::says(meta, "event_id"@, n.event)
            &&& json_laws::says(meta, "ts"@, n.timestamp)
            &&& n.attachments.len() == 0 ==> json_laws::lacks(meta, "attachments"@)
            &&& n.attachments.len() > 0 ==> exists|files: Seq<JsonModel>| #[trigger]
                json_laws::holds(meta, "attachments"@, JsonModel::Array(files)) && files.len()
                    == n.attachments.len() && forall|i: int|
                    0 <= i < files.len() ==> describes(#[trigger] files[i], n.attachments[i])
        }),
{
    reveal_strlit("content");
    reveal_strlit("meta");
    reveal_strlit("sender");
    reveal_strlit("sender_name");
    reveal_strlit("room_id");
    reveal_strlit("event_id");
    reveal_strlit("ts");
    reveal_strlit("attachments");
    assert("content"@.len() == 7 && "meta"@.len() == 4 && "sender"@.len() == 6 && "sender_name"@.len()
        == 11 && "room_id"@.len() == 7 && "event_id"@.len() == 8 && "ts"@.len() == 2
        && "attachments"@.len() == 11);
    assert("sender_name"@[0] == 's' && "attachments"@[0] == 'a');
    let outer = params_json(n)->Object_0;
    assert(outer[0].0 == "content"@ && outer[1].0 == "meta"@);
    let meta = meta_json(n);
    let inner = meta->Object_0;
    assert(inner[0].0 == "sender"@ && inner[1].0 == "sender_name"@ && inner[2].0 == "room_id"@
        && inner[3].0 == "event_id"@ && inner[4].0 == "ts"@);
    if n.attachments.len() > 0 {
        let files = n.attachments.map_values(|file: AttachmentModel| attachment_json(file));
        assert(inner[5] == ("attachments"@, JsonModel::Array(files)));
        assert(json_laws::holds(meta, "attachments"@, JsonModel::Array(files)));
        assert forall|i: int| 0 <= i < files.len() implies describes(
            #[trigger] files[i],
            n.attachments[i],
        ) by {
            lemma_file_is_described(n.attachments[i]);
        }
    }
}

/// Whether a value tells of a file, under these names, its name, type, size, address and source.
pub open spec fn describes(value: JsonModel, file: AttachmentModel) -> bool {
    &&& json_laws::says(value, "name"@, file.name)
    &&& json_laws::says(value, "mime_type"@, file.mime_type)
    &&& json_laws::holds(
        value,
        "size"@,
        JsonModel::Number(numbers::decimal(file.size as nat)),
    )
    &&& json_laws::says(value, "mxc_uri"@, file.mxc_uri)
    &&& json_laws::holds(
        value,
        "source_json"@,
        match file.source_json {
            Some(s) => JsonModel::Str(s),
            None => JsonModel::Null,
        },
    )
}

proof fn lemma_file_is_described(file: AttachmentModel)
    ensures
        describes(attachment_json(file), file),
{
    reveal_strlit("name");
    reveal_strlit("mime_type");
    reveal_strlit("size");
    reveal_strlit("mxc_uri");
    reveal_strlit("source_json");
    assert("name"@.len() == 4 && "mime_type"@.len() == 9 && "size"@.len() == 4 && "mxc_uri"@.len()
        == 7 && "source_json"@.len() == 11);
    assert("name"@[0] == 'n' && "size"@[0] == 's');
    let list = attachment_json(file)->Object_0;
    assert(list[0].0 == "name"@ && list[1].0 == "mime_type"@ && list[2].0 == "size"@ && list[3].0
        == "mxc_uri"@ && list[4].0 == "source_json"@);
}

} // verus!
