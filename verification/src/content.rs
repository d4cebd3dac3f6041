//! Messages as they come in from a room.

use vstd::prelude::*;

use crate::text;

verus! {

/// What follows the first line break in `s`.
pub open spec fn second_line_on(s: Seq<char>) -> Seq<char> {
    s.skip(text::find(s, '\n') as int + 1)
}

/// `s` without the lines at its beginning that quote something.
pub open spec fn without_quotes(s: Seq<char>) -> Seq<char>
    decreases s.len(),
{
    if !"> "@.is_prefix_of(s) || s.len() == 0 {
        s
    } else if text::find(s, '\n') >= s.len() {
        Seq::empty()
    } else {
        without_quotes(second_line_on(s))
    }
}

/// `s` without the quote of another message that a reply starts with: the quoted lines, if the
/// first of them names a sender and there is more than one line, and then one empty line.
pub open spec fn without_fallback(s: Seq<char>) -> Seq<char> {
    if !("> <"@.is_prefix_of(s) || "> * <"@.is_prefix_of(s)) || !s.contains('\n') {
        s
    } else {
        let rest = without_quotes(s);
        if rest.len() > 0 && rest[0] == '\n' {
            rest.skip(1)
        } else {
            rest
        }
    }
}

/// `remove_plain_reply_fallback` of the outside crate gives the text without the quote of another
/// message that a reply starts with.
pub assume_specification[ matrix_sdk::ruma::events::room::message::sanitize::remove_plain_reply_fallback ](
    s: &str,
) -> (kept: &str)
    ensures
        kept@ == without_fallback(s@),
;

/// The text of a message without the quote of another message that it starts with.
pub fn strip_fallback(body: &str) -> (kept: &str)
    ensures
        kept@ == without_fallback(body@),
{
    matrix_sdk::ruma::events::room::message::sanitize::remove_plain_reply_fallback(body)
}

/// Where the file of a message lies.
#[derive(Debug)]
pub enum MediaOrigin {
    /// As it is, under that address.
    Plain(String),
    /// Encrypted, under that address.
    Encrypted(String),
}

/// The address of a file.
pub open spec fn address(source: MediaOrigin) -> Seq<char> {
    match source {
        MediaOrigin::Plain(uri) => uri@,
        MediaOrigin::Encrypted(uri) => uri@,
    }
}

/// The address of a file.
pub fn extract_mxc_uri(source: &MediaOrigin) -> (uri: String)
    ensures
        uri@ == address(*source),
{
    match source {
        MediaOrigin::Plain(uri) => uri.clone(),
        MediaOrigin::Encrypted(uri) => uri.clone(),
    }
}

/// The kinds of files that a message can carry.
#[derive(Debug, Clone, Copy, PartialEq, Eq, Structural)]
pub enum MediaKind {
    Image,
    File,
    Audio,
    Video,
}

/// What a message says of its file.
#[derive(Debug)]
pub struct Media {
    pub kind: MediaKind,
    pub body: String,
    pub mimetype: Option<String>,
    pub size: Option<u64>,
    pub source: MediaOrigin,
    /// The source with all that it takes to fetch the file, as JSON; for an encrypted file the
    /// address alone does not do.
    pub source_json: Option<String>,
}

/// The content of a message.
#[derive(Debug)]
pub enum MessageBody {
    Text(String),
    Media(Media),
    Other,
}

/// What is passed on about a file.
#[derive(Debug, Clone)]
pub struct AttachmentMeta {
    pub name: String,
    pub mime_type: String,
    pub size: u64,
    pub mxc_uri: String,
    pub source_json: Option<String>,
}

/// What is passed on about a file.
pub struct AttachmentModel {
    pub name: Seq<char>,
    pub mime_type: Seq<char>,
    pub size: u64,
    pub mxc_uri: Seq<char>,
    pub source_json: Option<Seq<char>>,
}

impl View for AttachmentMeta {
    type V = AttachmentModel;

    open spec fn view(&self) -> AttachmentModel {
        AttachmentModel {
            name: self.name@,
            mime_type: self.mime_type@,
            size: self.size,
            mxc_uri: self.mxc_uri@,
            source_json: text::text_in(self.source_json),
        }
    }
}

/// What is passed on about files.
pub open spec fn attachment_models(list: Seq<AttachmentMeta>) -> Seq<AttachmentModel> {
    list.map_values(|item: AttachmentMeta| item@)
}

/// The word that a file is announced with.
pub open spec fn kind_label(kind: MediaKind) -> Seq<char> {
    match kind {
        MediaKind::Image => "[Image: "@,
        MediaKind::File => "[File: "@,
        MediaKind::Audio => "[Audio: "@,
        MediaKind::Video => "[Video: "@,
    }
}

/// The type of a file that the message does not give the type of.
pub open spec fn default_type(kind: MediaKind) -> Seq<char> {
    match kind {
        MediaKind::Image => "image/unknown"@,
        MediaKind::File => "application/octet-stream"@,
        MediaKind::Audio => "audio/unknown"@,
        MediaKind::Video => "video/unknown"@,
    }
}

/// What is passed on about the file of a message.
pub open spec fn attachment_of(media: Media) -> AttachmentModel {
    AttachmentModel {
        name: media.body@,
        mime_type: match media.mimetype {
            Some(t) => t@,
            None => default_type(media.kind),
        },
        size: match media.size {
            Some(n) => n,
            None => 0,
        },
        mxc_uri: address(media.source),
        source_json: text::text_in(media.source_json),
    }
}

/// The text and the files that are passed on for a message; nothing for one that is neither text
/// nor a file.
pub open spec fn description(body: MessageBody) -> Option<(Seq<char>, Seq<AttachmentModel>)> {
    match body {
        MessageBody::Text(s) => Some((without_fallback(s@), Seq::empty())),
        MessageBody::Media(media) => Some(
            (kind_label(media.kind) + media.body@ + "]"@, seq![attachment_of(media)]),
        ),
        MessageBody::Other => None,
    }
}

/// The text and the files that are passed on for a message; nothing for one that is neither text
/// nor a file.
pub fn describe_message(body: &MessageBody) -> (described: Option<(String, Vec<AttachmentMeta>)>)
    ensures
        description(*body) == match described {
            Some((words, files)) => Some((words@, attachment_models(files@))),
            None => None,
        },
{
    match body {
        MessageBody::Text(s) => {
            let files: Vec<AttachmentMeta> = Vec::new();
            proof {
                assert(attachment_models(files@) =~= Seq::empty());
            }
            Some((strip_fallback(s.as_str()).to_owned(), files))
        },
        MessageBody::Media(media) => {
            let label = match media.kind {
                MediaKind::Image => "[Image: ",
                MediaKind::File => "[File: ",
                MediaKind::Audio => "[Audio: ",
                MediaKind::Video => "[Video: ",
            };
            let mut words = label.to_owned();
            words.append(media.body.as_str());
            words.append("]");
            let mime_type: String = match &media.mimetype {
                Some(t) => t.clone(),
                None => match media.kind {
                    MediaKind::Image => "image/unknown".to_owned(),
                    MediaKind::File => "application/octet-stream".to_owned(),
                    MediaKind::Audio => "audio/unknown".to_owned(),
                    MediaKind::Video => "video/unknown".to_owned(),
                },
            };
            let size: u64 = match media.size {
                Some(n) => n,
                None => 0,
            };
            let meta = AttachmentMeta {
                name: media.body.clone(),
                mime_type,
                size,
                mxc_uri: extract_mxc_uri(&media.source),
                source_json: media.source_json.clone(),
            };
            let mut files: Vec<AttachmentMeta> = Vec::new();
            files.push(meta);
            proof {
                assert(attachment_models(files@) =~= seq![attachment_of(*media)]);
            }
            Some((words, files))
        },
        MessageBody::Other => None,
    }
}

/// A message that quotes nobody is passed on as it is.
pub proof fn lemma_plain_message_is_kept(s: Seq<char>)
    requires
        s.len() == 0 || s[0] != '>',
    ensures
        without_fallback(s) == s,
{
    reveal_strlit("> <");
    reveal_strlit("> * <");
    if "> <"@.is_prefix_of(s) {
        assert("> <"@[0] == s[0]);
    }
    if "> * <"@.is_prefix_of(s) {
        assert("> * <"@[0] == s[0]);
    }
}

} // verus!
