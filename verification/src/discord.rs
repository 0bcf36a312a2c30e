//! Messages and commands of Discord.

use vstd::prelude::*;
use vstd::utf8;

use crate::audio;
use crate::chunks;
use crate::config::TtsConfig;
use crate::delivery;
use crate::delivery::{Outgoing, OutgoingView, Received};
use crate::session::{CoreResponse, ReplyMessage, ReplyView, ResponseView};
use crate::telegram;
use crate::text;
use crate::types::IncomingMessage;

verus! {

/// How many bytes a message may have.
pub const MESSAGE_LIMIT: usize = 2000;

/// A file that came with a message.
#[derive(Clone, Debug)]
pub struct Attachment {
    pub filename: String,
    pub content_type: Option<String>,
    pub url: String,
}

/// Whether a file is of a medium: its type starts with the medium, or its name ends with
/// one of some endings, in either case.
pub open spec fn is_of(
    filename: Seq<char>,
    content_type: Option<Seq<char>>,
    medium: Seq<char>,
    endings: Seq<Seq<char>>,
) -> bool {
    let given = match content_type {
        Some(t) => t,
        None => Seq::<char>::empty(),
    };
    text::starts(text::lowered(given), medium) || exists|i: int|
        0 <= i < endings.len() && text::ends(text::lowered(filename), #[trigger] endings[i])
}

/// The endings of audio files.
pub open spec fn audio_endings() -> Seq<Seq<char>> {
    seq!["ogg"@, "mp3"@, "wav"@, "m4a"@, "aac"@, "flac"@, "webm"@]
}

/// The endings of image files.
pub open spec fn image_endings() -> Seq<Seq<char>> {
    seq!["png"@, "jpg"@, "jpeg"@, "webp"@, "gif"@]
}

/// Whether a file is audio.
pub fn is_audio_attachment(filename: &str, content_type: Option<&str>) -> (r: bool)
    ensures
        r == is_of(filename@, delivery::view_of(content_type), "audio/"@, audio_endings()),
{
    let name: String = text::to_ascii_lower(filename);
    let kind: String = match content_type {
        Some(t) => text::to_ascii_lower(t),
        None => text::to_ascii_lower(""),
    };
    proof {
        reveal_strlit("");
        assert(""@ =~= Seq::<char>::empty());
        let e = audio_endings();
        let n = text::lowered(filename@);
        assert(e[0] == "ogg"@ && e[1] == "mp3"@ && e[2] == "wav"@ && e[3] == "m4a"@ && e[4]
            == "aac"@ && e[5] == "flac"@ && e[6] == "webm"@);
        assert((exists|i: int| 0 <= i < e.len() && text::ends(n, #[trigger] e[i])) <==> (text::ends(
            n,
            e[0],
        ) || text::ends(n, e[1]) || text::ends(n, e[2]) || text::ends(n, e[3]) || text::ends(
            n,
            e[4],
        ) || text::ends(n, e[5]) || text::ends(n, e[6])));
    }
    let l: &str = name.as_str();
    text::starts_with(kind.as_str(), "audio/") || text::ends_with(l, "ogg") || text::ends_with(
        l,
        "mp3",
    ) || text::ends_with(l, "wav") || text::ends_with(l, "m4a") || text::ends_with(l, "aac")
        || text::ends_with(l, "flac") || text::ends_with(l, "webm")
}

/// Whether a file is an image.
pub fn is_image_attachment(filename: &str, content_type: Option<&str>) -> (r: bool)
    ensures
        r == is_of(filename@, delivery::view_of(content_type), "image/"@, image_endings()),
{
    let name: String = text::to_ascii_lower(filename);
    let kind: String = match content_type {
        Some(t) => text::to_ascii_lower(t),
        None => text::to_ascii_lower(""),
    };
    proof {
        reveal_strlit("");
        assert(""@ =~= Seq::<char>::empty());
        let e = image_endings();
        let n = text::lowered(filename@);
        assert(e[0] == "png"@ && e[1] == "jpg"@ && e[2] == "jpeg"@ && e[3] == "webp"@ && e[4]
            == "gif"@);
        assert((exists|i: int| 0 <= i < e.len() && text::ends(n, #[trigger] e[i])) <==> (text::ends(
            n,
            e[0],
        ) || text::ends(n, e[1]) || text::ends(n, e[2]) || text::ends(n, e[3]) || text::ends(
            n,
            e[4],
        )));
    }
    let l: &str = name.as_str();
    text::starts_with(kind.as_str(), "image/") || text::ends_with(l, "png") || text::ends_with(
        l,
        "jpg",
    ) || text::ends_with(l, "jpeg") || text::ends_with(l, "webp") || text::ends_with(l, "gif")
}

/// Whether a file that came with a message is audio.
pub open spec fn holds_audio(a: Attachment) -> bool {
    is_of(a.filename@, type_of(a), "audio/"@, audio_endings())
}

/// Whether a file that came with a message is an image.
pub open spec fn holds_image(a: Attachment) -> bool {
    is_of(a.filename@, type_of(a), "image/"@, image_endings())
}

/// The type of a file that came with a message, if it is known.
pub open spec fn type_of(a: Attachment) -> Option<Seq<char>> {
    match a.content_type {
        Some(t) => Some(t@),
        None => None,
    }
}

/// A message in a channel.
#[derive(Clone, Debug)]
pub struct DiscordMessage {
    pub from_bot: bool,
    pub content: String,
    pub files: Vec<Attachment>,
}

/// What of a message is used.
#[derive(Clone, Copy, Debug, PartialEq, Eq, Structural)]
pub enum DiscordInput {
    /// The message is not answered at all.
    Ignored,
    /// Its text.
    Text,
    /// The audio file at a place among its files.
    Audio(usize),
    /// The image file at a place among its files.
    Image(usize),
    Nothing,
}

/// The place of the first file that passes.
pub open spec fn first_file(
    list: Seq<Attachment>,
    pred: spec_fn(Attachment) -> bool,
) -> Option<int>
    decreases list.len(),
{
    if list.len() == 0 {
        None
    } else if pred(list[0]) {
        Some(0int)
    } else {
        match first_file(list.drop_first(), pred) {
            Some(i) => Some(i + 1),
            None => None,
        }
    }
}

/// What of a message is used: nothing of one from a bot; else its text unless it is blank,
/// else its first audio file, else its first image file.
pub open spec fn input_of(m: DiscordMessage) -> DiscordInput {
    let files = m.files@;
    if m.from_bot {
        DiscordInput::Ignored
    } else if text::trimmed(m.content@).len() > 0 {
        DiscordInput::Text
    } else {
        match (
            first_file(files, |a: Attachment| holds_audio(a)),
            first_file(files, |a: Attachment| holds_image(a)),
        ) {
            (Some(i), _) => DiscordInput::Audio(i as usize),
            (None, Some(i)) => DiscordInput::Image(i as usize),
            (None, None) => DiscordInput::Nothing,
        }
    }
}

proof fn lemma_first_file(list: Seq<Attachment>, pred: spec_fn(Attachment) -> bool, i: int)
    requires
        0 <= i <= list.len(),
        forall|k: int| 0 <= k < i ==> !pred(#[trigger] list[k]),
        i < list.len() ==> pred(list[i]),
    ensures
        first_file(list, pred) == (if i < list.len() {
            Some(i)
        } else {
            None
        }),
    decreases list.len(),
{
    if list.len() > 0 && i > 0 {
        let t = list.drop_first();
        assert(!pred(list[0]));
        assert forall|k: int| 0 <= k < i - 1 implies !pred(#[trigger] t[k]) by {
            assert(t[k] == list[k + 1]);
        }
        lemma_first_file(t, pred, i - 1);
    }
}

fn kind_of(a: &Attachment) -> (r: Option<&str>)
    ensures
        delivery::view_of(r) == type_of(*a),
{
    match &a.content_type {
        Some(t) => Some(t.as_str()),
        None => None,
    }
}

/// Decides what of a message is used.
pub fn select_input(message: &DiscordMessage) -> (r: DiscordInput)
    ensures
        r == input_of(*message),
{
    if message.from_bot {
        return DiscordInput::Ignored;
    }
    let files: &Vec<Attachment> = &message.files;
    let trimmed: String = text::trim(message.content.as_str());
    if !trimmed.as_str().is_empty() {
        return DiscordInput::Text;
    }
    let ghost audio = |a: Attachment| holds_audio(a);
    let ghost image = |a: Attachment| holds_image(a);
    let mut i: usize = 0;
    while i < files.len()
        invariant
            i <= files@.len(),
            !message.from_bot,
            files == &message.files,
            text::trimmed(message.content@).len() == 0,
            audio == (|a: Attachment| holds_audio(a)),
            forall|k: int| 0 <= k < i ==> !audio(#[trigger] files@[k]),
        decreases files@.len() - i,
    {
        let kind: Option<&str> = kind_of(&files[i]);
        if is_audio_attachment(files[i].filename.as_str(), kind) {
            proof {
                lemma_first_file(files@, audio, i as int);
            }
            return DiscordInput::Audio(i);
        }
        i = i + 1;
    }
    proof {
        lemma_first_file(files@, audio, i as int);
    }
    let mut j: usize = 0;
    while j < files.len()
        invariant
            j <= files@.len(),
            !message.from_bot,
            files == &message.files,
            text::trimmed(message.content@).len() == 0,
            image == (|a: Attachment| holds_image(a)),
            first_file(files@, |a: Attachment| holds_audio(a)) is None,
            forall|k: int| 0 <= k < j ==> !image(#[trigger] files@[k]),
        decreases files@.len() - j,
    {
        let kind: Option<&str> = kind_of(&files[j]);
        if is_image_attachment(files[j].filename.as_str(), kind) {
            proof {
                lemma_first_file(files@, image, j as int);
            }
            return DiscordInput::Image(j);
        }
        j = j + 1;
    }
    proof {
        lemma_first_file(files@, image, j as int);
    }
    DiscordInput::Nothing
}

/// The name of the conversation with a user in a channel.
pub open spec fn conversation_of(channel: u64, user: u64) -> Seq<char> {
    "discord:"@ + text::decimal(channel as nat) + ":"@ + text::decimal(user as nat)
}

/// Names the conversation with a user in a channel.
pub fn conversation_id(channel: u64, user: u64) -> (r: String)
    ensures
        r@ == conversation_of(channel, user),
{
    let mut id: String = "discord:".to_owned();
    let first: String = text::decimal_text(channel);
    id.append(first.as_str());
    id.append(":");
    let second: String = text::decimal_text(user);
    id.append(second.as_str());
    id
}

/// Whether a message for the conversations is made from what a user sent in a channel.
pub open spec fn is_from(m: IncomingMessage, channel: u64, user: u64, received: Received) -> bool {
    delivery::is_made_of(
        m,
        "discord"@,
        conversation_of(channel, user),
        text::decimal(channel as nat),
        received,
    )
}

/// Makes a message for the conversations from what a user sent in a channel.
pub fn incoming_message(channel: u64, user: u64, received: Received) -> (r: IncomingMessage)
    ensures
        is_from(r, channel, user, received),
{
    delivery::incoming_message(
        "discord",
        conversation_id(channel, user),
        text::decimal_text(channel),
        received,
    )
}

/// Whether a slash command starts a conversation over.
pub open spec fn starts_by(name: Seq<char>) -> bool {
    name == "start"@ || name == "new"@
}

/// Whether a slash command starts a conversation over.
pub fn is_start_command(name: &str) -> (r: bool)
    ensures
        r == starts_by(name@),
{
    text::same(name, "start") || text::same(name, "new")
}

/// The answer to a slash command: the first message of the response, or a plain word
/// where it has none; none at all to a response with a timer.
pub open spec fn command_answer(r: ResponseView) -> Option<Seq<char>> {
    match r {
        ResponseView::Messages(list) => if list.len() > 0 {
            Some(list[0].text)
        } else {
            Some("New session started."@)
        },
        ResponseView::TimerStart { .. } => None,
    }
}

/// Answers a slash command.
pub fn command_reply(response: &CoreResponse) -> (r: Option<String>)
    ensures
        match r {
            Some(t) => Some(t@),
            None => None,
        } == command_answer(response@),
{
    match response {
        CoreResponse::Messages(list) => {
            if list.len() > 0 {
                Some(list[0].text.clone())
            } else {
                Some("New session started.".to_owned())
            }
        },
        CoreResponse::TimerStart { .. } => None,
    }
}

/// What is sent for a reply that can be split, in order: its text in messages that are short
/// enough, and then what is spoken.
pub open spec fn sent_for(reply: Seq<char>, with_tts: bool, enabled: bool) -> Seq<OutgoingView> {
    delivery::sent(
        chunks::message_parts(utf8::encode_utf8(reply), MESSAGE_LIMIT as int),
        delivery::speech_of(reply, with_tts, enabled),
    )
}

/// What is sent for a reply, if it can be split.
pub open spec fn sending(reply: Seq<char>, with_tts: bool, enabled: bool) -> Option<
    Seq<OutgoingView>,
> {
    if chunks::splittable(utf8::encode_utf8(reply), MESSAGE_LIMIT as int) {
        Some(sent_for(reply, with_tts, enabled))
    } else {
        None
    }
}

/// The views of a list of things to send that may be missing.
pub open spec fn outgoing_in(list: Option<Vec<Outgoing>>) -> Option<Seq<OutgoingView>> {
    match list {
        Some(l) => Some(delivery::outgoing_views(l@)),
        None => None,
    }
}

/// Lists what is sent for a reply, in order: its text in messages that are short enough,
/// and then what is spoken; `None` where a part would have to end within a character.
pub fn outgoing<'a>(reply: &'a ReplyMessage, tts: &TtsConfig) -> (r: Option<Vec<Outgoing<'a>>>)
    ensures
        r is Some == chunks::splittable(utf8::encode_utf8(reply.text@), MESSAGE_LIMIT as int),
        outgoing_in(r) == sending(reply.text@, reply.with_tts, tts.enabled),
{
    match chunks::try_split_message(reply.text.as_str(), MESSAGE_LIMIT) {
        Some(parts) => Some(
            delivery::outgoing_of(
                parts,
                delivery::spoken_text(reply.text.as_str(), reply.with_tts, tts),
            ),
        ),
        None => None,
    }
}

// ---------------------------------------------------------------------------
// Names of conversations
// ---------------------------------------------------------------------------

proof fn lemma_digit_injective(a: nat, b: nat)
    requires
        a < 10,
        b < 10,
        text::digit(a) == text::digit(b),
    ensures
        a == b,
{
    assert(text::digit(a) as int == 48 + a);
    assert(text::digit(b) as int == 48 + b);
}

/// A number and what is written for it determine each other.
proof fn lemma_decimal_injective(a: nat, b: nat)
    requires
        text::decimal(a) == text::decimal(b),
    ensures
        a == b,
    decreases a,
{
    let x = text::decimal(a);
    let y = text::decimal(b);
    text::lemma_decimal_is_digits(a);
    text::lemma_decimal_is_digits(b);
    assert(x.last() == y.last());
    if a >= 10 && b >= 10 {
        assert(x.drop_last() =~= text::decimal(a / 10));
        assert(y.drop_last() =~= text::decimal(b / 10));
        lemma_decimal_injective(a / 10, b / 10);
        assert(x.last() == text::digit(a % 10));
        assert(y.last() == text::digit(b % 10));
        lemma_digit_injective(a % 10, b % 10);
    } else if a < 10 && b < 10 {
        assert(x[0] == text::digit(a));
        assert(y[0] == text::digit(b));
        lemma_digit_injective(a, b);
    }
}

/// Two conversations on Discord have the same name only if both the channel and the user
/// are the same; two on Telegram only if the chat is; and one on Discord never has the
/// name of one on Telegram.
pub proof fn law_names_tell_conversations_apart(
    channel: u64,
    user: u64,
    other_channel: u64,
    other_user: u64,
    chat: i64,
    other_chat: i64,
)
    ensures
        conversation_of(channel, user) == conversation_of(other_channel, other_user) ==> channel
            == other_channel && user == other_user,
        telegram::conversation_of(chat) == telegram::conversation_of(other_chat) ==> chat
            == other_chat,
        conversation_of(channel, user) != telegram::conversation_of(chat),
{
    reveal_strlit("discord:");
    reveal_strlit("telegram:");
    reveal_strlit(":");
    let x = conversation_of(channel, user);
    let y = conversation_of(other_channel, other_user);
    let t = telegram::conversation_of(chat);
    let u = telegram::conversation_of(other_chat);
    assert(x[0] == 'd' && t[0] == 't');
    if t == u {
        let a = text::signed_decimal(chat as int);
        let b = text::signed_decimal(other_chat as int);
        assert(a =~= t.skip(9));
        assert(b =~= u.skip(9));
        lemma_signed_injective(chat as int, other_chat as int);
    }
    if x == y {
        let c1 = text::decimal(channel as nat);
        let c2 = text::decimal(other_channel as nat);
        let u1 = text::decimal(user as nat);
        let u2 = text::decimal(other_user as nat);
        text::lemma_decimal_is_digits(channel as nat);
        text::lemma_decimal_is_digits(other_channel as nat);
        let n1 = c1.len() as int;
        let n2 = c2.len() as int;
        assert(x[8 + n1] == ':');
        assert(y[8 + n2] == ':');
        if n1 < n2 {
            assert(y[8 + n1] == c2[n1]);
        }
        if n2 < n1 {
            assert(x[8 + n2] == c1[n2]);
        }
        assert(c1 =~= x.subrange(8, 8 + n1));
        assert(c2 =~= y.subrange(8, 8 + n2));
        assert(u1 =~= x.skip(9 + n1));
        assert(u2 =~= y.skip(9 + n2));
        lemma_decimal_injective(channel as nat, other_channel as nat);
        lemma_decimal_injective(user as nat, other_user as nat);
    }
}

proof fn lemma_signed_injective(a: int, b: int)
    requires
        text::signed_decimal(a) == text::signed_decimal(b),
    ensures
        a == b,
{
    let x = text::signed_decimal(a);
    let y = text::signed_decimal(b);
    if a < 0 && b < 0 {
        assert(x.skip(1) =~= text::decimal((-a) as nat));
        assert(y.skip(1) =~= text::decimal((-b) as nat));
        lemma_decimal_injective((-a) as nat, (-b) as nat);
    } else if a >= 0 && b >= 0 {
        lemma_decimal_injective(a as nat, b as nat);
    } else if a < 0 {
        text::lemma_decimal_is_digits(b as nat);
        assert(x[0] == '-');
    } else {
        text::lemma_decimal_is_digits(a as nat);
        assert(y[0] == '-');
    }
}

// ---------------------------------------------------------------------------
// What is used and sent
// ---------------------------------------------------------------------------

/// A file is audio, or an image, if its type says so or its name ends that way, both in
/// whatever case.
pub proof fn law_what_files_are(a: Attachment)
    ensures
        ({
            let name = text::lowered(a.filename@);
            let given = a.content_type is Some;
            let kind = text::lowered(a.content_type->0@);
            &&& holds_audio(a) <==> {
                ||| given && text::starts(kind, "audio/"@)
                ||| text::ends(name, "ogg"@) || text::ends(name, "mp3"@) || text::ends(name, "wav"@)
                    || text::ends(name, "m4a"@) || text::ends(name, "aac"@) || text::ends(
                    name,
                    "flac"@,
                ) || text::ends(name, "webm"@)
            }
            &&& holds_image(a) <==> {
                ||| given && text::starts(kind, "image/"@)
                ||| text::ends(name, "png"@) || text::ends(name, "jpg"@) || text::ends(
                    name,
                    "jpeg"@,
                ) || text::ends(name, "webp"@) || text::ends(name, "gif"@)
            }
        }),
{
    reveal_strlit("audio/");
    reveal_strlit("image/");
    let name = text::lowered(a.filename@);
    let none = Seq::<char>::empty();
    assert(text::lowered(none) =~= none);
    let e = audio_endings();
    assert(e[0] == "ogg"@ && e[1] == "mp3"@ && e[2] == "wav"@ && e[3] == "m4a"@ && e[4] == "aac"@
        && e[5] == "flac"@ && e[6] == "webm"@);
    let f = image_endings();
    assert(f[0] == "png"@ && f[1] == "jpg"@ && f[2] == "jpeg"@ && f[3] == "webp"@ && f[4]
        == "gif"@);
}

/// What of a message is used: nothing of a bot's; else its text unless that is blank; else
/// its first audio file, however many files there are; else its first image file.
pub proof fn law_what_of_a_message_is_used(m: DiscordMessage, i: int)
    requires
        0 <= i < m.files@.len() || m.files@.len() == 0,
        m.files@.len() <= usize::MAX,
    ensures
        m.from_bot ==> input_of(m) == DiscordInput::Ignored,
        !m.from_bot && !text::is_blank(m.content@) ==> input_of(m) == DiscordInput::Text,
        !m.from_bot && text::is_blank(m.content@) ==> {
            let files = m.files@;
            &&& files.len() > 0 && holds_audio(files[i]) && (forall|k: int|
                0 <= k < i ==> !holds_audio(#[trigger] files[k])) ==> input_of(m)
                == DiscordInput::Audio(i as usize)
            &&& files.len() > 0 && holds_image(files[i]) && (forall|k: int|
                0 <= k < i ==> !holds_image(#[trigger] files[k])) && (forall|k: int|
                0 <= k < files.len() ==> !holds_audio(#[trigger] files[k])) ==> input_of(m)
                == DiscordInput::Image(i as usize)
            &&& (forall|k: int|
                0 <= k < files.len() ==> !holds_audio(#[trigger] files[k]) && !holds_image(
                    files[k],
                )) ==> input_of(m) == DiscordInput::Nothing
        },
{
    text::law_blank_is_what_trims_away(m.content@);
    let files = m.files@;
    let audio = |a: Attachment| holds_audio(a);
    let image = |a: Attachment| holds_image(a);
    if files.len() > 0 && holds_audio(files[i]) && (forall|k: int|
        0 <= k < i ==> !holds_audio(#[trigger] files[k])) {
        assert forall|k: int| 0 <= k < i implies !audio(#[trigger] files[k]) by {}
        lemma_first_file(files, audio, i);
    }
    if forall|k: int| 0 <= k < files.len() ==> !holds_audio(#[trigger] files[k]) {
        assert forall|k: int| 0 <= k < files.len() implies !audio(#[trigger] files[k]) by {}
        lemma_first_file(files, audio, files.len() as int);
        if files.len() > 0 && holds_image(files[i]) && (forall|k: int|
            0 <= k < i ==> !holds_image(#[trigger] files[k])) {
            assert forall|k: int| 0 <= k < i implies !image(#[trigger] files[k]) by {}
            lemma_first_file(files, image, i);
        }
    }
    if forall|k: int|
        0 <= k < files.len() ==> !holds_audio(#[trigger] files[k]) && !holds_image(files[k]) {
        assert forall|k: int| 0 <= k < files.len() implies !audio(#[trigger] files[k]) by {}
        assert forall|k: int| 0 <= k < files.len() implies !image(#[trigger] files[k]) by {}
        lemma_first_file(files, audio, files.len() as int);
        lemma_first_file(files, image, files.len() as int);
    }
}

/// A slash command is answered with the first message of the response, whatever follows it,
/// with a plain word where it has none, and not at all where a timer starts.
pub proof fn law_answers_to_commands(list: Seq<ReplyView>, minutes: u64, name: Seq<char>)
    ensures
        list.len() > 0 ==> command_answer(ResponseView::Messages(list)) == Some(list[0].text),
        list.len() == 0 ==> command_answer(ResponseView::Messages(list)) == Some(
            "New session started."@,
        ),
        command_answer(ResponseView::TimerStart { messages: list, countdown_minutes: minutes })
            is None,
        starts_by(name) <==> seq!["start"@, "new"@].contains(name),
{
    let e = seq!["start"@, "new"@];
    assert(e[0] == "start"@ && e[1] == "new"@);
}

/// A reply is sent in parts of at most two thousand bytes, and then spoken as a whole if
/// that is asked for. A conversation is named by its channel and its user.
pub proof fn law_replies_are_sent_in_parts(
    reply: Seq<char>,
    with_tts: bool,
    enabled: bool,
    channel: u64,
    user: u64,
)
    ensures
        with_tts && enabled ==> sent_for(reply, with_tts, enabled) == chunks::message_parts(
            utf8::encode_utf8(reply),
            2000,
        ).map_values(|t: Seq<u8>| OutgoingView::Text(t)).push(
            OutgoingView::Speech(text::joined(audio::spoken_words(reply), " "@)),
        ),
        !with_tts || !enabled ==> sent_for(reply, with_tts, enabled) == chunks::message_parts(
            utf8::encode_utf8(reply),
            2000,
        ).map_values(|t: Seq<u8>| OutgoingView::Text(t)),
        MESSAGE_LIMIT == 2000,
        chunks::splittable(utf8::encode_utf8(reply), 2000) ==> sending(reply, with_tts, enabled)
            == Some(sent_for(reply, with_tts, enabled)),
        !chunks::splittable(utf8::encode_utf8(reply), 2000) ==> sending(reply, with_tts, enabled)
            is None,
        utf8::encode_utf8(reply).len() <= 2000 ==> sending(reply, with_tts, enabled) == Some(
            delivery::sent(
                seq![utf8::encode_utf8(reply)],
                delivery::speech_of(reply, with_tts, enabled),
            ),
        ),
        conversation_of(channel, user) == "discord:"@ + text::decimal(channel as nat) + ":"@
            + text::decimal(user as nat),
{
    chunks::law_how_messages_are_split(utf8::encode_utf8(reply), 2000);
    let parts = chunks::message_parts(utf8::encode_utf8(reply), 2000).map_values(
        |t: Seq<u8>| OutgoingView::Text(t),
    );
    if with_tts && enabled {
        assert(sent_for(reply, with_tts, enabled) =~= parts.push(
            OutgoingView::Speech(text::joined(audio::spoken_words(reply), " "@)),
        ));
    } else {
        assert(sent_for(reply, with_tts, enabled) =~= parts);
    }
}

/// A message from a channel is answered in that channel and belongs to the conversation
/// with its user there.
pub proof fn law_messages_come_from_their_channel(
    m: IncomingMessage,
    channel: u64,
    user: u64,
    received: Received,
)
    requires
        is_from(m, channel, user, received),
    ensures
        m.platform@ == "discord"@,
        m.conversation_id@ == "discord:"@ + text::decimal(channel as nat) + ":"@ + text::decimal(
            user as nat,
        ),
        m.reply_target@ == text::decimal(channel as nat),
        delivery::carries(m, received),
{
}

} // verus!
