//! What goes out and comes in between the conversations and the chat services, and the
//! requests to the services for speech and images.

use vstd::prelude::*;
use vstd::utf8;
use base64::Engine;

use crate::audio;
use crate::chunks;
use crate::config::{AsrConfig, OcrConfig, TtsConfig};
use crate::llm;
use crate::session;
use crate::session::{CoreResponse, ReplyMessage, ResponseView};
use crate::text;
use crate::types::{IncomingKind, IncomingMessage};

verus! {

// ---------------------------------------------------------------------------
// Messages from visitors
// ---------------------------------------------------------------------------

/// What a visitor sent, brought to text.
pub enum Received {
    Text(String),
    /// A voice message: what was said, and the file.
    Voice { transcript: String, file: String },
    /// A photo: what it shows, and the file.
    Image { description: String, file: String },
    /// Nothing that can be used.
    Nothing,
}

/// The text of what a visitor sent.
pub open spec fn received_text(r: Received) -> Seq<char> {
    match r {
        Received::Text(t) => t@,
        Received::Voice { transcript, .. } => transcript@,
        Received::Image { description, .. } => description@,
        Received::Nothing => Seq::<char>::empty(),
    }
}

/// The form of what a visitor sent.
pub open spec fn received_kind(r: Received) -> IncomingKind {
    match r {
        Received::Voice { .. } => IncomingKind::Voice,
        Received::Image { .. } => IncomingKind::Image,
        _ => IncomingKind::Text,
    }
}

/// Whether a message carries what was received: its text, its form, and the file of a
/// voice message or of a photo.
pub open spec fn carries(m: IncomingMessage, r: Received) -> bool {
    &&& m.text is Some
    &&& m.text->0@ == received_text(r)
    &&& m.kind == received_kind(r)
    &&& match (m.voice_file, r) {
        (Some(f), Received::Voice { file, .. }) => f == file,
        (None, Received::Voice { .. }) => false,
        (f, _) => f is None,
    }
    &&& match (m.image_file, r) {
        (Some(f), Received::Image { file, .. }) => f == file,
        (None, Received::Image { .. }) => false,
        (f, _) => f is None,
    }
}

/// Whether a message names where it came from and carries what was received.
pub open spec fn is_made_of(
    m: IncomingMessage,
    platform: Seq<char>,
    conversation_id: Seq<char>,
    reply_target: Seq<char>,
    received: Received,
) -> bool {
    &&& m.platform@ == platform
    &&& m.conversation_id@ == conversation_id
    &&& m.reply_target@ == reply_target
    &&& carries(m, received)
}

/// Makes a message for the conversations from what was received.
pub fn incoming_message(
    platform: &'static str,
    conversation_id: String,
    reply_target: String,
    received: Received,
) -> (r: IncomingMessage)
    ensures
        r.conversation_id == conversation_id,
        r.reply_target == reply_target,
        is_made_of(r, platform@, conversation_id@, reply_target@, received),
{
    match received {
        Received::Text(text) => IncomingMessage {
            platform,
            conversation_id,
            reply_target,
            text: Some(text),
            voice_file: None,
            image_file: None,
            kind: IncomingKind::Text,
        },
        Received::Voice { transcript, file } => IncomingMessage {
            platform,
            conversation_id,
            reply_target,
            text: Some(transcript),
            voice_file: Some(file),
            image_file: None,
            kind: IncomingKind::Voice,
        },
        Received::Image { description, file } => IncomingMessage {
            platform,
            conversation_id,
            reply_target,
            text: Some(description),
            voice_file: None,
            image_file: Some(file),
            kind: IncomingKind::Image,
        },
        Received::Nothing => {
            let none = String::new();
            assert(none@ =~= Seq::<char>::empty());
            IncomingMessage {
                platform,
                conversation_id,
                reply_target,
                text: Some(none),
                voice_file: None,
                image_file: None,
                kind: IncomingKind::Text,
            }
        },
    }
}

/// The conversation of a query over the debug interface: the one that is named, or one of
/// its own.
pub open spec fn debug_conversation(named: Option<String>) -> Seq<char> {
    match named {
        Some(id) => id@,
        None => "debug:local"@,
    }
}

/// Whether a message is made from a query over the debug interface.
pub open spec fn is_debug_message(
    m: IncomingMessage,
    query: String,
    named: Option<String>,
) -> bool {
    is_made_of(m, "debug"@, debug_conversation(named), "debug"@, Received::Text(query))
}

/// Makes a message from a query over the debug interface, in a conversation of its own
/// unless one is named.
pub fn debug_message(query: String, conversation_id: Option<String>) -> (r: IncomingMessage)
    ensures
        is_debug_message(r, query, conversation_id),
{
    let id: String = match conversation_id {
        Some(id) => id,
        None => "debug:local".to_owned(),
    };
    incoming_message("debug", id, "debug".to_owned(), Received::Text(query))
}

// ---------------------------------------------------------------------------
// Files
// ---------------------------------------------------------------------------

/// The extension of a downloaded file: that of its name, else that of the name to fall
/// back on, else `bin`.
pub open spec fn extension_of(own: Option<Seq<char>>, fallback: Option<Seq<char>>) -> Seq<char> {
    match (own, fallback) {
        (Some(e), _) => e,
        (None, Some(e)) => e,
        (None, None) => "bin"@,
    }
}

/// The view of a text that may be missing.
pub open spec fn view_of(t: Option<&str>) -> Option<Seq<char>> {
    match t {
        Some(s) => Some(s@),
        None => None,
    }
}

/// The name of a downloaded file.
pub open spec fn file_name(
    service: Seq<char>,
    unique: Seq<char>,
    own: Option<Seq<char>>,
    fallback: Option<Seq<char>>,
) -> Seq<char> {
    service + "-"@ + unique + "."@ + extension_of(own, fallback)
}

/// Names a downloaded file by the service that it comes from and an identifier that no
/// other file has.
pub fn download_name(service: &str, unique: &str, own: Option<&str>, fallback: Option<&str>) -> (r:
    String)
    ensures
        r@ == file_name(service@, unique@, view_of(own), view_of(fallback)),
{
    let extension: &str = match own {
        Some(e) => e,
        None => match fallback {
            Some(e) => e,
            None => "bin",
        },
    };
    let mut name: String = service.to_owned();
    name.append("-");
    name.append(unique);
    name.append(".");
    name.append(extension);
    name
}

/// The media type of an image by its extension in lower case.
pub open spec fn image_mime(extension: Seq<char>) -> Seq<char> {
    if extension == "png"@ {
        "image/png"@
    } else if extension == "webp"@ {
        "image/webp"@
    } else if extension == "gif"@ {
        "image/gif"@
    } else {
        "image/jpeg"@
    }
}

/// The media type of an image by its extension, in whatever case.
pub open spec fn guessed_mime(extension: Seq<char>) -> Seq<char> {
    image_mime(text::lowered(extension))
}

/// Guesses the media type of an image from the extension of its file.
pub fn guess_mime(extension: &str) -> (r: &'static str)
    ensures
        r@ == guessed_mime(extension@),
{
    let lower: String = text::to_ascii_lower(extension);
    if text::same(lower.as_str(), "png") {
        "image/png"
    } else if text::same(lower.as_str(), "webp") {
        "image/webp"
    } else if text::same(lower.as_str(), "gif") {
        "image/gif"
    } else {
        "image/jpeg"
    }
}

/// The name under which a spoken reply is sent.
pub open spec fn voice_name(mime: Seq<char>, format: Seq<char>) -> Seq<char> {
    "reply."@ + (if mime == "audio/ogg"@ {
        "ogg"@
    } else {
        format
    })
}

/// Names the file of a spoken reply: by `ogg` where it is sent as that, and by the
/// configured format otherwise.
pub fn voice_file_name(mime: &str, format: &str) -> (r: String)
    ensures
        r@ == voice_name(mime@, format@),
{
    let mut name: String = "reply.".to_owned();
    if text::same(mime, "audio/ogg") {
        name.append("ogg");
    } else {
        name.append(format);
    }
    name
}

// ---------------------------------------------------------------------------
// Replies to visitors
// ---------------------------------------------------------------------------

/// What is spoken of a reply: the reply without web addresses, if both the service and
/// the reply ask for it.
pub open spec fn speech_of(reply: Seq<char>, with_tts: bool, enabled: bool) -> Option<Seq<char>> {
    if enabled && with_tts {
        Some(audio::spoken(reply))
    } else {
        None
    }
}

/// Decides what is spoken of a reply.
pub fn spoken_text(reply: &str, with_tts: bool, tts: &TtsConfig) -> (r: Option<String>)
    ensures
        match r {
            Some(t) => Some(t@),
            None => None,
        } == speech_of(reply@, with_tts, tts.enabled),
{
    if tts.enabled && with_tts {
        Some(audio::strip_urls_for_tts(reply))
    } else {
        None
    }
}

/// One thing that is sent to a visitor.
pub enum Outgoing<'a> {
    /// A message.
    Text(&'a str),
    /// A text that is spoken and sent as audio.
    Speech(String),
}

/// What is sent: the bytes of a message, or what is spoken.
pub enum OutgoingView {
    Text(Seq<u8>),
    Speech(Seq<char>),
}

impl<'a> View for Outgoing<'a> {
    type V = OutgoingView;

    open spec fn view(&self) -> OutgoingView {
        match self {
            Outgoing::Text(t) => OutgoingView::Text(utf8::encode_utf8(t@)),
            Outgoing::Speech(t) => OutgoingView::Speech(t@),
        }
    }
}

/// The views of a list of things that are sent.
pub open spec fn outgoing_views(list: Seq<Outgoing>) -> Seq<OutgoingView> {
    list.map_values(|o: Outgoing| o@)
}

/// What is sent for a reply: the parts of its text in order, and then what is spoken.
pub open spec fn sent(parts: Seq<Seq<u8>>, speech: Option<Seq<char>>) -> Seq<OutgoingView> {
    parts.map_values(|t: Seq<u8>| OutgoingView::Text(t)) + (match speech {
        Some(t) => seq![OutgoingView::Speech(t)],
        None => seq![],
    })
}

/// Lists what is sent for a reply.
pub fn outgoing_of<'a>(parts: Vec<&'a str>, speech: Option<String>) -> (r: Vec<Outgoing<'a>>)
    ensures
        outgoing_views(r@) == sent(
            chunks::encodings(parts@),
            match speech {
                Some(t) => Some(t@),
                None => None,
            },
        ),
{
    let ghost all = chunks::encodings(parts@).map_values(|t: Seq<u8>| OutgoingView::Text(t));
    let mut out: Vec<Outgoing<'a>> = Vec::new();
    let mut i: usize = 0;
    while i < parts.len()
        invariant
            i <= parts@.len(),
            all == chunks::encodings(parts@).map_values(|t: Seq<u8>| OutgoingView::Text(t)),
            outgoing_views(out@) == all.take(i as int),
        decreases parts@.len() - i,
    {
        let part: &'a str = parts[i];
        let ghost before = out@;
        let next: Outgoing<'a> = Outgoing::Text(part);
        out.push(next);
        proof {
            assert(outgoing_views(before.push(next)) =~= outgoing_views(before).push(next@));
            assert(all[i as int] == next@);
            assert(all.take(i + 1) =~= all.take(i as int).push(next@));
        }
        i = i + 1;
    }
    assert(all.take(i as int) =~= all);
    match speech {
        Some(t) => {
            let ghost before = out@;
            let next: Outgoing<'a> = Outgoing::Speech(t);
            out.push(next);
            assert(outgoing_views(before.push(next)) =~= outgoing_views(before).push(next@));
            assert(outgoing_views(out@) =~= all + seq![OutgoingView::Speech(t@)]);
        },
        None => {
            assert(all + seq![] =~= all);
        },
    }
    out
}

/// Every part of the text is sent before anything is spoken, and at most one thing is
/// spoken.
pub proof fn law_text_comes_before_speech(parts: Seq<Seq<u8>>, speech: Option<Seq<char>>)
    ensures
        forall|i: int|
            0 <= i < sent(parts, speech).len() ==> ((#[trigger] sent(parts, speech)[i]) is Speech
                <==> speech is Some && i == parts.len()),
{
}

/// The texts of a response, with or without a timer.
pub open spec fn texts_of(r: ResponseView) -> Seq<Seq<char>> {
    match r {
        ResponseView::Messages(list) => list.map_values(|m: session::ReplyView| m.text),
        ResponseView::TimerStart { messages, .. } => messages.map_values(
            |m: session::ReplyView| m.text,
        ),
    }
}

fn texts(list: &Vec<ReplyMessage>) -> (r: Vec<String>)
    ensures
        text::views(r@) == session::replies_of(list@).map_values(|m: session::ReplyView| m.text),
{
    let ghost all = session::replies_of(list@).map_values(|m: session::ReplyView| m.text);
    let mut out: Vec<String> = Vec::new();
    let mut i: usize = 0;
    while i < list.len()
        invariant
            i <= list@.len(),
            all == session::replies_of(list@).map_values(|m: session::ReplyView| m.text),
            text::views(out@) == all.take(i as int),
        decreases list@.len() - i,
    {
        let t: String = list[i].text.clone();
        let ghost before = out@;
        out.push(t);
        proof {
            text::lemma_views_push(before, t);
            assert(all[i as int] == t@);
            assert(all.take(i + 1) =~= all.take(i as int).push(t@));
        }
        i = i + 1;
    }
    assert(all.take(i as int) =~= all);
    out
}

/// Lists the texts of a response.
pub fn reply_texts(response: &CoreResponse) -> (r: Vec<String>)
    ensures
        text::views(r@) == texts_of(response@),
{
    match response {
        CoreResponse::Messages(list) => texts(list),
        CoreResponse::TimerStart { messages, .. } => texts(messages),
    }
}

// ---------------------------------------------------------------------------
// Requests to services
// ---------------------------------------------------------------------------

/// A service that is switched off.
#[derive(Clone, Copy, Debug, PartialEq, Eq, Structural)]
pub enum ServiceDisabled {
    Asr,
    Ocr,
}

/// Whether voice messages can be transcribed.
pub open spec fn asr_check(asr: AsrConfig) -> Result<(), ServiceDisabled> {
    if asr.enabled {
        Ok(())
    } else {
        Err(ServiceDisabled::Asr)
    }
}

/// Whether photos can be read.
pub open spec fn ocr_check(ocr: OcrConfig) -> Result<(), ServiceDisabled> {
    if ocr.enabled {
        Ok(())
    } else {
        Err(ServiceDisabled::Ocr)
    }
}

/// Checks that voice messages can be transcribed.
pub fn ensure_asr_enabled(asr: &AsrConfig) -> (r: Result<(), ServiceDisabled>)
    ensures
        r == asr_check(*asr),
{
    if asr.enabled {
        Ok(())
    } else {
        Err(ServiceDisabled::Asr)
    }
}

/// Checks that photos can be read.
pub fn ensure_ocr_enabled(ocr: &OcrConfig) -> (r: Result<(), ServiceDisabled>)
    ensures
        r == ocr_check(*ocr),
{
    if ocr.enabled {
        Ok(())
    } else {
        Err(ServiceDisabled::Ocr)
    }
}

pub const BASE64_ALPHABET: &'static str = "ABCDEFGHIJKLMNOPQRSTUVWXYZabcdefghijklmnopqrstuvwxyz0123456789+/";

/// The character for six bits.
pub open spec fn letter(n: int) -> char {
    BASE64_ALPHABET@[n]
}

/// Bytes in Base64: four characters for each three bytes, filled up with `=`.
pub open spec fn base64_of(b: Seq<u8>) -> Seq<char>
    decreases b.len(),
{
    if b.len() == 0 {
        seq![]
    } else if b.len() == 1 {
        seq![letter((b[0] / 4) as int), letter(b[0] % 4 * 16), '=', '=']
    } else if b.len() == 2 {
        seq![
            letter((b[0] / 4) as int),
            letter(b[0] % 4 * 16 + b[1] / 16),
            letter(b[1] % 16 * 4),
            '=',
        ]
    } else {
        seq![
            letter((b[0] / 4) as int),
            letter(b[0] % 4 * 16 + b[1] / 16),
            letter(b[1] % 16 * 4 + b[2] / 64),
            letter((b[2] % 64) as int),
        ] + base64_of(b.skip(3))
    }
}

/// How many characters some bytes have in Base64.
pub open spec fn base64_len(n: int) -> int {
    (n + 2) / 3 * 4
}

/// Calls `encode` of the engine `base64::engine::general_purpose::STANDARD`, which writes
/// bytes in the standard alphabet with padding. It panics where the length of the result
/// cannot be allocated.
#[verifier::external_body]
fn encode_base64(bytes: &[u8]) -> (r: String)
    requires
        base64_len(bytes@.len() as int) <= isize::MAX,
    ensures
        r@ == base64_of(bytes@),
{
    base64::engine::general_purpose::STANDARD.encode(bytes)
}

/// An address that holds an image itself.
pub open spec fn data_url_of(mime: Seq<char>, bytes: Seq<u8>) -> Seq<char> {
    "data:"@ + mime + ";base64,"@ + base64_of(bytes)
}

/// Writes an image as an address that holds the image itself.
pub fn data_url(mime: &str, bytes: &[u8]) -> (r: String)
    requires
        base64_len(bytes@.len() as int) <= isize::MAX,
    ensures
        r@ == data_url_of(mime@, bytes@),
{
    let mut url: String = "data:".to_owned();
    url.append(mime);
    url.append(";base64,");
    let encoded: String = encode_base64(bytes);
    url.append(encoded.as_str());
    url
}

/// A request to read and describe an image.
pub struct VisionRequest {
    pub model: String,
    pub system: String,
    pub user: String,
    pub image_url: String,
}

pub struct VisionRequestView {
    pub model: Seq<char>,
    pub system: Seq<char>,
    pub user: Seq<char>,
    pub image_url: Seq<char>,
}

impl View for VisionRequest {
    type V = VisionRequestView;

    open spec fn view(&self) -> VisionRequestView {
        VisionRequestView {
            model: self.model@,
            system: self.system@,
            user: self.user@,
            image_url: self.image_url@,
        }
    }
}

/// The question what an image shows.
pub open spec fn vision_question(
    model: Seq<char>,
    extension: Seq<char>,
    bytes: Seq<u8>,
) -> VisionRequestView {
    VisionRequestView {
        model,
        system: llm::OCR_PROMPT@,
        user: llm::OCR_REQUEST@,
        image_url: data_url_of(guessed_mime(extension), bytes),
    }
}

/// Asks what an image shows.
pub fn vision_request(ocr: &OcrConfig, extension: &str, bytes: &[u8]) -> (r: VisionRequest)
    requires
        base64_len(bytes@.len() as int) <= isize::MAX,
    ensures
        r@ == vision_question(ocr.model@, extension@, bytes@),
{
    VisionRequest {
        model: ocr.model.clone(),
        system: llm::OCR_PROMPT.to_owned(),
        user: llm::OCR_REQUEST.to_owned(),
        image_url: data_url(guess_mime(extension), bytes),
    }
}

/// A request to speak a text.
pub struct SpeechRequest {
    pub model: String,
    pub voice: String,
    pub input: String,
    pub response_format: String,
}

pub struct SpeechRequestView {
    pub model: Seq<char>,
    pub voice: Seq<char>,
    pub input: Seq<char>,
    pub response_format: Seq<char>,
}

impl View for SpeechRequest {
    type V = SpeechRequestView;

    open spec fn view(&self) -> SpeechRequestView {
        SpeechRequestView {
            model: self.model@,
            voice: self.voice@,
            input: self.input@,
            response_format: self.response_format@,
        }
    }
}

/// The request to speak a text.
pub open spec fn speech_question(tts: TtsConfig, input: Seq<char>) -> SpeechRequestView {
    SpeechRequestView {
        model: tts.model@,
        voice: tts.voice@,
        input,
        response_format: tts.format@,
    }
}

/// Asks for a text to be spoken, in the configured voice and format.
pub fn speech_request(tts: &TtsConfig, input: &str) -> (r: SpeechRequest)
    ensures
        r@ == speech_question(*tts, input@),
{
    SpeechRequest {
        model: tts.model.clone(),
        voice: tts.voice.clone(),
        input: input.to_owned(),
        response_format: tts.format.clone(),
    }
}

// ---------------------------------------------------------------------------
// What is carried
// ---------------------------------------------------------------------------

/// Whatever form a message came in, its words are what the conversation gets: the text
/// itself, what was said or what a photo shows. Only a voice message carries a voice file
/// and only a photo an image file, each its own.
pub proof fn law_messages_carry_what_was_sent(m: IncomingMessage, t: String, file: String)
    ensures
        carries(m, Received::Text(t)) <==> m.text is Some && m.text->0@ == t@ && m.kind
            == IncomingKind::Text && m.voice_file is None && m.image_file is None,
        carries(m, Received::Voice { transcript: t, file }) <==> m.text is Some && m.text->0@ == t@
            && m.kind == IncomingKind::Voice && m.voice_file == Some(file) && m.image_file is None,
        carries(m, Received::Image { description: t, file }) <==> m.text is Some && m.text->0@
            == t@ && m.kind == IncomingKind::Image && m.voice_file is None && m.image_file == Some(
            file,
        ),
        carries(m, Received::Nothing) <==> m.text is Some && m.text->0@.len() == 0 && m.kind
            == IncomingKind::Text && m.voice_file is None && m.image_file is None,
{
    if m.text is Some && m.text->0@.len() == 0 {
        assert(m.text->0@ =~= Seq::<char>::empty());
    }
}

/// A query over the debug interface goes, as it is, to the conversation that it names, and
/// to `debug:local` where it names none.
pub proof fn law_debug_queries_have_a_conversation(
    m: IncomingMessage,
    query: String,
    named: Option<String>,
)
    requires
        is_debug_message(m, query, named),
    ensures
        m.platform@ == "debug"@,
        m.reply_target@ == "debug"@,
        named matches Some(id) ==> m.conversation_id@ == id@,
        named is None ==> m.conversation_id@ == "debug:local"@,
        m.text is Some && m.text->0@ == query@,
        m.kind == IncomingKind::Text,
{
}

/// A message names the platform, the conversation and the target that it was made with, and
/// carries what was received.
pub proof fn law_messages_name_their_origin(
    m: IncomingMessage,
    platform: Seq<char>,
    conversation_id: Seq<char>,
    reply_target: Seq<char>,
    received: Received,
)
    ensures
        is_made_of(m, platform, conversation_id, reply_target, received) <==> m.platform@
            == platform && m.conversation_id@ == conversation_id && m.reply_target@ == reply_target
            && carries(m, received),
{
}

/// A file keeps its own extension; it gets the one to fall back on, or `bin`, only without.
/// Its name is made of the service, the identifier and the extension.
pub proof fn law_files_keep_their_extension(
    service: Seq<char>,
    unique: Seq<char>,
    own: Seq<char>,
    fallback: Seq<char>,
    other: Option<Seq<char>>,
)
    ensures
        file_name(service, unique, Some(own), other) == service + "-"@ + unique + "."@ + own,
        file_name(service, unique, None, Some(fallback)) == service + "-"@ + unique + "."@
            + fallback,
        file_name(service, unique, None, None) == service + "-"@ + unique + ".bin"@,
{
    reveal_strlit(".");
    reveal_strlit("bin");
    reveal_strlit(".bin");
    assert("."@ + "bin"@ =~= ".bin"@);
    assert(service + "-"@ + unique + "."@ + "bin"@ =~= service + "-"@ + unique + ".bin"@);
}

/// Pictures in PNG, WebP and GIF go under their own media types, and every other one as
/// JPEG.
pub proof fn law_media_types_of_images(extension: Seq<char>)
    ensures
        image_mime("png"@) == "image/png"@,
        image_mime("webp"@) == "image/webp"@,
        image_mime("gif"@) == "image/gif"@,
        extension != "png"@ && extension != "webp"@ && extension != "gif"@ ==> image_mime(extension)
            == "image/jpeg"@,
        guessed_mime(extension) == image_mime(text::lowered(extension)),
{
    reveal_strlit("png");
    reveal_strlit("webp");
    reveal_strlit("gif");
    assert("png"@[0] == 'p' && "webp"@[0] == 'w' && "gif"@[0] == 'g');
}

/// A spoken reply that is sent as Ogg is named so, whatever the configured format; any other
/// is named by its format.
pub proof fn law_names_of_spoken_replies(mime: Seq<char>, format: Seq<char>)
    ensures
        voice_name("audio/ogg"@, format) == "reply.ogg"@,
        mime != "audio/ogg"@ ==> voice_name(mime, format) == "reply."@ + format,
{
    reveal_strlit("reply.");
    reveal_strlit("ogg");
    reveal_strlit("reply.ogg");
    assert("reply."@ + "ogg"@ =~= "reply.ogg"@);
}

/// A reply is spoken exactly where both the settings and the reply ask for it, however long
/// it is, and then all of it but the addresses.
pub proof fn law_when_replies_are_spoken(reply: Seq<char>, with_tts: bool, enabled: bool)
    ensures
        speech_of(reply, with_tts, enabled) is Some <==> with_tts && enabled,
        with_tts && enabled ==> speech_of(reply, with_tts, enabled) == Some(
            text::joined(audio::spoken_words(reply), " "@),
        ),
{
}

/// Every part of a reply is sent, each once and in order, and what is spoken after them.
pub proof fn law_every_part_is_sent(parts: Seq<Seq<u8>>, speech: Option<Seq<char>>, i: int)
    ensures
        sent(parts, speech).len() == parts.len() + (if speech is Some {
            1int
        } else {
            0
        }),
        0 <= i < parts.len() ==> sent(parts, speech)[i] == OutgoingView::Text(parts[i]),
        speech is Some ==> sent(parts, speech).last() == OutgoingView::Speech(speech->0),
{
}

/// The texts of a response are those of all its messages, in order, with a timer or without.
pub proof fn law_texts_of_responses(list: Seq<session::ReplyView>, minutes: u64, i: int)
    ensures
        texts_of(ResponseView::Messages(list)).len() == list.len(),
        0 <= i < list.len() ==> texts_of(ResponseView::Messages(list))[i] == list[i].text,
        texts_of(ResponseView::TimerStart { messages: list, countdown_minutes: minutes })
            == texts_of(ResponseView::Messages(list)),
{
}

/// An image is handed over whole, under the media type of its extension in whatever case; a
/// text is spoken whole, in the configured voice and format.
pub proof fn law_services_get_everything(
    model: Seq<char>,
    extension: Seq<char>,
    bytes: Seq<u8>,
    tts: TtsConfig,
    input: Seq<char>,
)
    ensures
        vision_question(model, extension, bytes).model == model,
        vision_question(model, extension, bytes).image_url == "data:"@ + image_mime(
            text::lowered(extension),
        ) + ";base64,"@ + base64_of(bytes),
        vision_question(model, extension, bytes).system == llm::OCR_PROMPT@,
        vision_question(model, extension, bytes).user == llm::OCR_REQUEST@,
        speech_question(tts, input).model == tts.model@,
        speech_question(tts, input).voice == tts.voice@,
        speech_question(tts, input).input == input,
        speech_question(tts, input).response_format == tts.format@,
{
}

/// An address that holds an image has its media type and all its bytes.
pub proof fn law_addresses_hold_the_image(mime: Seq<char>, bytes: Seq<u8>)
    ensures
        data_url_of(mime, bytes) == "data:"@ + mime + ";base64,"@ + base64_of(bytes),
        base64_len(bytes.len() as int) == 4 * ((bytes.len() + 2) / 3),
{
}

/// What is sent is seen whole and in order: messages by their bytes, speech by its words.
pub proof fn law_lists_of_what_is_sent(list: Seq<Outgoing>, i: int)
    ensures
        outgoing_views(list).len() == list.len(),
        0 <= i < list.len() ==> match list[i] {
            Outgoing::Text(t) => outgoing_views(list)[i] == OutgoingView::Text(
                utf8::encode_utf8(t@),
            ),
            Outgoing::Speech(t) => outgoing_views(list)[i] == OutgoingView::Speech(t@),
        },
{
}

/// A service can be used exactly where it is switched on, whatever else is configured.
pub proof fn law_services_are_used_when_enabled(asr: AsrConfig, ocr: OcrConfig)
    ensures
        asr.enabled <==> asr_check(asr) is Ok,
        ocr.enabled <==> ocr_check(ocr) is Ok,
        !asr.enabled ==> asr_check(asr) == Err::<(), ServiceDisabled>(ServiceDisabled::Asr),
        !ocr.enabled ==> ocr_check(ocr) == Err::<(), ServiceDisabled>(ServiceDisabled::Ocr),
{
}

} // verus!
