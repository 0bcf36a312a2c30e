//! Messages of Telegram.

use vstd::prelude::*;
use vstd::utf8;

use crate::audio;
use crate::chunks;
use crate::config::TtsConfig;
use crate::delivery;
use crate::delivery::{Outgoing, OutgoingView, Received};
use crate::session::ReplyMessage;
use crate::text;
use crate::types::IncomingMessage;

verus! {

/// A voice message.
#[derive(Clone, Debug)]
pub struct TelegramVoice {
    pub file_id: String,
    pub mime_type: Option<String>,
}

/// One of the sizes in which a photo can be had.
#[derive(Clone, Debug)]
pub struct TelegramPhotoSize {
    pub file_id: String,
    pub width: i64,
    pub height: i64,
}

/// A message from a chat.
#[derive(Clone, Debug)]
pub struct TelegramMessage {
    pub chat_id: i64,
    pub text: Option<String>,
    pub voice: Option<TelegramVoice>,
    pub photo: Option<Vec<TelegramPhotoSize>>,
}

/// What of a message is used.
pub enum TelegramInput {
    Text(String),
    Voice {
        file_id: String,
        /// The media type of the voice message, also the name to fall back on for its
        /// file.
        mime: String,
    },
    Photo { file_id: String },
    Nothing,
}

pub enum TelegramInputView {
    Text(Seq<char>),
    Voice { file_id: Seq<char>, mime: Seq<char> },
    Photo { file_id: Seq<char> },
    Nothing,
}

impl View for TelegramInput {
    type V = TelegramInputView;

    open spec fn view(&self) -> TelegramInputView {
        match self {
            TelegramInput::Text(t) => TelegramInputView::Text(t@),
            TelegramInput::Voice { file_id, mime } => TelegramInputView::Voice {
                file_id: file_id@,
                mime: mime@,
            },
            TelegramInput::Photo { file_id } => TelegramInputView::Photo { file_id: file_id@ },
            TelegramInput::Nothing => TelegramInputView::Nothing,
        }
    }
}

/// The area of a photo.
pub open spec fn area(p: TelegramPhotoSize) -> int {
    p.width * p.height
}

/// Whether all areas can be worked out.
pub open spec fn areas_fit(list: Seq<TelegramPhotoSize>) -> bool {
    forall|i: int| 0 <= i < list.len() ==> i64::MIN <= area(#[trigger] list[i]) <= i64::MAX
}

/// The largest photo, and the last of them where several are.
pub open spec fn largest(list: Seq<TelegramPhotoSize>) -> int
    decreases list.len(),
{
    if list.len() <= 1 {
        0
    } else {
        let before = largest(list.drop_last());
        if area(list.last()) >= area(list[before]) {
            list.len() - 1
        } else {
            before
        }
    }
}

/// What of a message is used: its text, else its voice message, else its largest photo.
pub open spec fn input_of(m: TelegramMessage) -> TelegramInputView {
    match (m.text, m.voice, m.photo) {
        (Some(t), _, _) => TelegramInputView::Text(t@),
        (None, Some(v), _) => TelegramInputView::Voice {
            file_id: v.file_id@,
            mime: match v.mime_type {
                Some(t) => t@,
                None => "audio/ogg"@,
            },
        },
        (None, None, Some(p)) => if p@.len() == 0 {
            TelegramInputView::Nothing
        } else {
            TelegramInputView::Photo { file_id: p@[largest(p@)].file_id@ }
        },
        (None, None, None) => TelegramInputView::Nothing,
    }
}

/// No photo is larger than the one that is used, and those behind it are smaller.
pub proof fn law_largest_photo_is_used(list: Seq<TelegramPhotoSize>)
    requires
        list.len() > 0,
    ensures
        0 <= largest(list) < list.len(),
        forall|i: int| 0 <= i < list.len() ==> area(#[trigger] list[i]) <= area(list[largest(list)]),
        forall|i: int|
            largest(list) < i < list.len() ==> area(#[trigger] list[i]) < area(list[largest(list)]),
    decreases list.len(),
{
    if list.len() > 1 {
        let t = list.drop_last();
        law_largest_photo_is_used(t);
        assert forall|i: int| 0 <= i < list.len() implies area(#[trigger] list[i]) <= area(
            list[largest(list)],
        ) by {
            if i < t.len() {
                assert(t[i] == list[i]);
            }
        }
        assert forall|i: int| largest(list) < i < list.len() implies area(#[trigger] list[i])
            < area(list[largest(list)]) by {
            if i < t.len() {
                assert(t[i] == list[i]);
            }
        }
    }
}

/// Finds the largest photo.
fn best_photo(list: &Vec<TelegramPhotoSize>) -> (r: usize)
    requires
        list@.len() > 0,
        areas_fit(list@),
    ensures
        r == largest(list@),
        r < list@.len(),
{
    let mut best: usize = 0;
    let mut i: usize = 1;
    while i < list.len()
        invariant
            1 <= i <= list@.len(),
            best < i,
            areas_fit(list@),
            best == largest(list@.take(i as int)),
        decreases list@.len() - i,
    {
        assert(area(list@[i as int]) <= i64::MAX && area(list@[best as int]) <= i64::MAX);
        let here: i64 = list[i].width * list[i].height;
        let there: i64 = list[best].width * list[best].height;
        assert(list@.take(i + 1).drop_last() =~= list@.take(i as int));
        assert(list@.take(i + 1)[best as int] == list@[best as int]);
        if here >= there {
            best = i;
        }
        i = i + 1;
    }
    assert(list@.take(i as int) =~= list@);
    best
}

/// Decides what of a message is used.
pub fn select_input(message: &TelegramMessage) -> (r: TelegramInput)
    requires
        message.text is None && message.voice is None && message.photo is Some ==> areas_fit(
            message.photo->0@,
        ),
    ensures
        r@ == input_of(*message),
{
    if let Some(t) = &message.text {
        return TelegramInput::Text(t.clone());
    }
    if let Some(v) = &message.voice {
        let mime: String = match &v.mime_type {
            Some(t) => t.clone(),
            None => "audio/ogg".to_owned(),
        };
        return TelegramInput::Voice { file_id: v.file_id.clone(), mime };
    }
    if let Some(photos) = &message.photo {
        if photos.len() > 0 {
            let best: usize = best_photo(photos);
            return TelegramInput::Photo { file_id: photos[best].file_id.clone() };
        }
    }
    TelegramInput::Nothing
}

/// The name of the conversation in a chat.
pub open spec fn conversation_of(chat_id: i64) -> Seq<char> {
    "telegram:"@ + text::signed_decimal(chat_id as int)
}

/// What is sent for a reply, in order: the text, and then the same to be spoken.
pub open spec fn sent_for(reply: Seq<char>, with_tts: bool, enabled: bool) -> Seq<OutgoingView> {
    delivery::sent(
        seq![utf8::encode_utf8(reply)],
        delivery::speech_of(reply, with_tts, enabled),
    )
}

/// Lists what is sent for a reply, in order: the text, and then the same to be spoken.
pub fn outgoing<'a>(reply: &'a ReplyMessage, tts: &TtsConfig) -> (r: Vec<Outgoing<'a>>)
    ensures
        delivery::outgoing_views(r@) == sent_for(reply.text@, reply.with_tts, tts.enabled),
{
    let mut parts: Vec<&'a str> = Vec::new();
    parts.push(reply.text.as_str());
    assert(chunks::encodings(parts@) =~= seq![utf8::encode_utf8(reply.text@)]);
    delivery::outgoing_of(parts, delivery::spoken_text(reply.text.as_str(), reply.with_tts, tts))
}

/// Names the conversation in a chat.
pub fn conversation_id(chat_id: i64) -> (r: String)
    ensures
        r@ == conversation_of(chat_id),
{
    let mut id: String = "telegram:".to_owned();
    let number: String = text::signed_decimal_text(chat_id);
    id.append(number.as_str());
    id
}

/// Whether a message for the conversations is made from what came in a chat.
pub open spec fn is_from(m: IncomingMessage, chat_id: i64, received: Received) -> bool {
    delivery::is_made_of(
        m,
        "telegram"@,
        conversation_of(chat_id),
        text::signed_decimal(chat_id as int),
        received,
    )
}

/// Makes a message for the conversations from what came in a chat.
pub fn incoming_message(chat_id: i64, received: Received) -> (r: IncomingMessage)
    ensures
        is_from(r, chat_id, received),
{
    delivery::incoming_message(
        "telegram",
        conversation_id(chat_id),
        text::signed_decimal_text(chat_id),
        received,
    )
}

/// From which update on the next poll asks: behind the last one that was received, and as
/// before where none was.
pub open spec fn offset_after(offset: i64, received: Seq<i64>) -> int {
    if received.len() == 0 {
        offset as int
    } else {
        received.last() + 1
    }
}

/// From which update on the next poll asks: behind the last one that was received, and as
/// before where none was.
pub fn next_offset(offset: i64, received: &Vec<i64>) -> (r: i64)
    requires
        received@.len() > 0 ==> received@.last() < i64::MAX,
    ensures
        r == offset_after(offset, received@),
{
    if received.len() == 0 {
        offset
    } else {
        received[received.len() - 1] + 1
    }
}

// ---------------------------------------------------------------------------
// Polling
// ---------------------------------------------------------------------------

/// Where the polling stands.
#[derive(Clone, Copy, Debug, PartialEq, Eq, Structural)]
pub struct Polling {
    /// From which update on the next poll asks.
    pub offset: i64,
    /// How many updates the last poll brought.
    pub received: usize,
    /// How many of them were taken care of.
    pub handled: usize,
}

/// What happens to the polling.
pub enum PollEvent {
    /// A poll failed.
    Failed,
    /// A poll brought updates with these numbers.
    Received(Vec<i64>),
    /// An update was taken care of, well or with an error in reading or answering it.
    Handled { well: bool },
}

pub enum PollEventView {
    Failed,
    Received(Seq<i64>),
    Handled { well: bool },
}

impl View for PollEvent {
    type V = PollEventView;

    open spec fn view(&self) -> PollEventView {
        match self {
            PollEvent::Failed => PollEventView::Failed,
            PollEvent::Received(ids) => PollEventView::Received(ids@),
            PollEvent::Handled { well } => PollEventView::Handled { well: *well },
        }
    }
}

/// What comes next. The polling never ends.
#[derive(Clone, Copy, Debug, PartialEq, Eq, Structural)]
pub enum PollAction {
    /// Ask for updates.
    Poll { offset: i64 },
    /// Wait, and then ask for updates.
    WaitAndPoll { seconds: u64, offset: i64 },
    /// Take care of one of the updates that the last poll brought.
    Handle { index: usize },
}

/// How long to wait after a poll that failed.
pub const RETRY_SECONDS: u64 = 5;

/// The polling at its start.
pub open spec fn first_polling() -> Polling {
    Polling { offset: 0, received: 0, handled: 0 }
}

/// Whether the numbers of the updates leave room for the next one.
pub open spec fn can_count(event: PollEventView) -> bool {
    event matches PollEventView::Received(ids) ==> ids.len() > 0 ==> ids.last() < i64::MAX
}

/// The polling after an event. A poll that failed leaves the offset alone, and so does an
/// update, however it was taken care of.
pub open spec fn polled(p: Polling, event: PollEventView) -> Polling {
    match event {
        PollEventView::Failed => Polling { received: 0, handled: 0, ..p },
        PollEventView::Received(ids) => Polling {
            offset: if ids.len() == 0 {
                p.offset
            } else {
                (ids.last() + 1) as i64
            },
            received: ids.len() as usize,
            handled: 0,
        },
        PollEventView::Handled { .. } => if p.handled < p.received {
            Polling { handled: (p.handled + 1) as usize, ..p }
        } else {
            p
        },
    }
}

/// What comes next after an event that led to `p`: the updates are taken care of one by
/// one, and then the next poll asks.
pub open spec fn action_after(p: Polling, event: PollEventView) -> PollAction {
    if event is Failed {
        PollAction::WaitAndPoll { seconds: RETRY_SECONDS, offset: p.offset }
    } else if p.handled < p.received {
        PollAction::Handle { index: p.handled }
    } else {
        PollAction::Poll { offset: p.offset }
    }
}

/// Starts the polling: the first poll asks for all updates.
pub fn start_polling() -> (r: (Polling, PollAction))
    ensures
        r == (first_polling(), PollAction::Poll { offset: 0 }),
{
    (Polling { offset: 0, received: 0, handled: 0 }, PollAction::Poll { offset: 0 })
}

/// Goes on after an event.
pub fn next_poll_action(polling: Polling, event: &PollEvent) -> (r: (Polling, PollAction))
    requires
        can_count(event@),
    ensures
        r.0 == polled(polling, event@),
        r.1 == action_after(r.0, event@),
{
    let next: Polling = match event {
        PollEvent::Failed => Polling { offset: polling.offset, received: 0, handled: 0 },
        PollEvent::Received(ids) => Polling {
            offset: next_offset(polling.offset, ids),
            received: ids.len(),
            handled: 0,
        },
        PollEvent::Handled { .. } => {
            if polling.handled < polling.received {
                Polling {
                    offset: polling.offset,
                    received: polling.received,
                    handled: polling.handled + 1,
                }
            } else {
                polling
            }
        },
    };
    let action: PollAction = match event {
        PollEvent::Failed => PollAction::WaitAndPoll {
            seconds: RETRY_SECONDS,
            offset: next.offset,
        },
        _ => {
            if next.handled < next.received {
                PollAction::Handle { index: next.handled }
            } else {
                PollAction::Poll { offset: next.offset }
            }
        },
    };
    (next, action)
}

/// The polling after a series of events.
pub open spec fn polled_all(p: Polling, events: Seq<PollEventView>) -> Polling
    decreases events.len(),
{
    if events.len() == 0 {
        p
    } else {
        polled(polled_all(p, events.drop_last()), events.last())
    }
}

/// The numbers of all updates that a series of events brought, in order.
pub open spec fn all_received(events: Seq<PollEventView>) -> Seq<i64>
    decreases events.len(),
{
    if events.len() == 0 {
        seq![]
    } else {
        all_received(events.drop_last()) + (match events.last() {
            PollEventView::Received(ids) => ids,
            _ => seq![],
        })
    }
}

/// Whatever polls brought or failed, and however the updates were taken care of, every
/// poll asks behind the last update that was received so far, and from the start while
/// none was; the only wait is the one after a poll that failed.
pub proof fn law_polls_ask_behind_the_last_update(events: Seq<PollEventView>)
    requires
        forall|i: int| 0 <= i < events.len() ==> can_count(#[trigger] events[i]),
    ensures
        ({
            let p = polled_all(first_polling(), events);
            let all = all_received(events);
            let offset = if all.len() == 0 {
                0
            } else {
                all.last() + 1
            };
            &&& p.offset == offset
            &&& events.len() > 0 ==> match action_after(p, events.last()) {
                PollAction::Poll { offset: o } => o == offset && !(events.last() is Failed),
                PollAction::WaitAndPoll { seconds, offset: o } => o == offset && seconds
                    == RETRY_SECONDS && events.last() is Failed,
                PollAction::Handle { index } => index < p.received && !(events.last() is Failed),
            }
        }),
    decreases events.len(),
{
    if events.len() > 0 {
        let init = events.drop_last();
        assert forall|i: int| 0 <= i < init.len() implies can_count(#[trigger] init[i]) by {
            assert(init[i] == events[i]);
        }
        law_polls_ask_behind_the_last_update(init);
        assert(can_count(events[events.len() - 1]));
        if let PollEventView::Received(ids) = events.last() {
            let all = all_received(events);
            if ids.len() > 0 {
                assert(all.last() == ids.last());
            } else {
                assert(all =~= all_received(init));
            }
        } else {
            assert(all_received(events) =~= all_received(init));
        }
    }
}

/// However an update was taken care of makes no difference to what comes next: the updates
/// of a poll are each taken care of once, in order, and then the next poll asks.
pub proof fn law_updates_are_handled_in_order(p: Polling, ids: Seq<i64>, outcomes: Seq<bool>)
    requires
        can_count(PollEventView::Received(ids)),
        ids.len() <= usize::MAX,
        outcomes.len() <= ids.len(),
    ensures
        ({
            let received = PollEventView::Received(ids);
            let handled = outcomes.map_values(|well: bool| PollEventView::Handled { well });
            let q = polled_all(polled(p, received), handled);
            let last = if outcomes.len() == 0 {
                received
            } else {
                handled.last()
            };
            &&& q.handled == outcomes.len()
            &&& q.received == ids.len()
            &&& q.offset == polled(p, received).offset
            &&& action_after(q, last) == (if outcomes.len() < ids.len() {
                PollAction::Handle { index: outcomes.len() as usize }
            } else {
                PollAction::Poll { offset: q.offset }
            })
        }),
    decreases outcomes.len(),
{
    if outcomes.len() > 0 {
        law_updates_are_handled_in_order(p, ids, outcomes.drop_last());
        let handled = outcomes.map_values(|well: bool| PollEventView::Handled { well });
        assert(handled.drop_last() =~= outcomes.drop_last().map_values(
            |well: bool| PollEventView::Handled { well },
        ));
    }
}

/// The address of the interface for a bot.
pub open spec fn base_of(bot_token: Seq<char>) -> Seq<char> {
    "https://api.telegram.org/bot"@ + bot_token
}

/// The address of a method of the interface.
pub open spec fn method_at(base: Seq<char>, method: Seq<char>) -> Seq<char> {
    base + "/"@ + method
}

/// The address of a file.
pub open spec fn file_at(bot_token: Seq<char>, remote_path: Seq<char>) -> Seq<char> {
    "https://api.telegram.org/file/bot"@ + bot_token + "/"@ + remote_path
}

/// The address of the interface for a bot.
pub fn api_base(bot_token: &str) -> (r: String)
    ensures
        r@ == base_of(bot_token@),
{
    let mut url: String = "https://api.telegram.org/bot".to_owned();
    url.append(bot_token);
    url
}

/// The address of a method of the interface.
pub fn method_url(base: &str, method: &str) -> (r: String)
    ensures
        r@ == method_at(base@, method@),
{
    let mut url: String = base.to_owned();
    url.append("/");
    url.append(method);
    url
}

/// The address of a file.
pub fn file_url(bot_token: &str, remote_path: &str) -> (r: String)
    ensures
        r@ == file_at(bot_token@, remote_path@),
{
    let mut url: String = "https://api.telegram.org/file/bot".to_owned();
    url.append(bot_token);
    url.append("/");
    url.append(remote_path);
    url
}

// ---------------------------------------------------------------------------
// What is used and asked for
// ---------------------------------------------------------------------------

/// The text of a message is used where there is one, else its voice message, else a photo
/// of it of which no size is larger; of several that large, the last. A voice message
/// without a media type counts as Ogg.
pub proof fn law_what_of_a_message_is_used(m: TelegramMessage)
    ensures
        m.text is Some ==> input_of(m) == TelegramInputView::Text(m.text->0@),
        m.text is None && m.voice is Some ==> input_of(m) == (TelegramInputView::Voice {
            file_id: m.voice->0.file_id@,
            mime: if m.voice->0.mime_type is Some {
                m.voice->0.mime_type->0@
            } else {
                "audio/ogg"@
            },
        }),
        m.text is None && m.voice is None && m.photo is Some && m.photo->0@.len() > 0 ==> exists|
            i: int,
        |
            0 <= i < m.photo->0@.len() && input_of(m) == (TelegramInputView::Photo {
                file_id: (#[trigger] m.photo->0@[i]).file_id@,
            }) && (forall|j: int|
                0 <= j < m.photo->0@.len() ==> (#[trigger] m.photo->0@[j]).width
                    * m.photo->0@[j].height <= m.photo->0@[i].width * m.photo->0@[i].height) && (
            forall|j: int|
                i < j < m.photo->0@.len() ==> (#[trigger] m.photo->0@[j]).width
                    * m.photo->0@[j].height < m.photo->0@[i].width * m.photo->0@[i].height),
        m.text is None && m.voice is None && (m.photo is None || m.photo->0@.len() == 0)
            ==> input_of(m) == TelegramInputView::Nothing,
{
    if m.text is None && m.voice is None && m.photo is Some && m.photo->0@.len() > 0 {
        let list = m.photo->0@;
        law_largest_photo_is_used(list);
        let i = largest(list);
        assert(input_of(m) == (TelegramInputView::Photo { file_id: list[i].file_id@ }));
        assert forall|j: int| 0 <= j < list.len() implies (#[trigger] list[j]).width
            * list[j].height <= list[i].width * list[i].height by {
            assert(area(list[j]) <= area(list[i]));
        }
        assert forall|j: int| i < j < list.len() implies (#[trigger] list[j]).width * list[j].height
            < list[i].width * list[i].height by {
            assert(area(list[j]) < area(list[i]));
        }
    }
}

/// A reply is sent in one piece, and then spoken if that is asked for.
pub proof fn law_replies_are_sent_whole(reply: Seq<char>, with_tts: bool, enabled: bool)
    ensures
        with_tts && enabled ==> sent_for(reply, with_tts, enabled) == seq![
            OutgoingView::Text(utf8::encode_utf8(reply)),
            OutgoingView::Speech(text::joined(audio::spoken_words(reply), " "@)),
        ],
        !with_tts || !enabled ==> sent_for(reply, with_tts, enabled) == seq![
            OutgoingView::Text(utf8::encode_utf8(reply)),
        ],
{
    if with_tts && enabled {
        assert(sent_for(reply, with_tts, enabled) =~= seq![
            OutgoingView::Text(utf8::encode_utf8(reply)),
            OutgoingView::Speech(text::joined(audio::spoken_words(reply), " "@)),
        ]);
    } else {
        assert(sent_for(reply, with_tts, enabled) =~= seq![
            OutgoingView::Text(utf8::encode_utf8(reply)),
        ]);
    }
}

/// What each event does to the polling, from wherever it stands: updates move the offset
/// behind the last of them and are all to be taken care of; a failure and an update that was
/// taken care of leave the offset alone, and after a failure nothing is left to be done but
/// to wait and ask again.
pub proof fn law_what_events_do(p: Polling, ids: Seq<i64>, well: bool)
    requires
        can_count(PollEventView::Received(ids)),
        0 < ids.len() <= usize::MAX,
    ensures
        polled(p, PollEventView::Received(ids)) == (Polling {
            offset: (ids[ids.len() - 1] + 1) as i64,
            received: ids.len() as usize,
            handled: 0,
        }),
        polled(p, PollEventView::Received(Seq::empty())) == (Polling {
            offset: p.offset,
            received: 0,
            handled: 0,
        }),
        polled(p, PollEventView::Failed) == (Polling {
            offset: p.offset,
            received: 0,
            handled: 0,
        }),
        p.handled < p.received ==> polled(p, PollEventView::Handled { well }) == (Polling {
            offset: p.offset,
            received: p.received,
            handled: (p.handled + 1) as usize,
        }),
        p.handled >= p.received ==> polled(p, PollEventView::Handled { well }) == p,
        action_after(p, PollEventView::Failed) == (PollAction::WaitAndPoll {
            seconds: 5,
            offset: p.offset,
        }),
        forall|event: PollEventView|
            !(event is Failed) && p.handled < p.received ==> #[trigger] action_after(p, event) == (
            PollAction::Handle { index: p.handled }),
        forall|event: PollEventView|
            !(event is Failed) && p.handled >= p.received ==> #[trigger] action_after(p, event) == (
            PollAction::Poll { offset: p.offset }),
        offset_after(p.offset, ids) == ids[ids.len() - 1] + 1,
        offset_after(p.offset, Seq::empty()) == p.offset,
        first_polling() == (Polling { offset: 0, received: 0, handled: 0 }),
{
}

/// The numbers of updates can be counted on exactly where the last is not the largest that
/// there is.
pub proof fn law_what_can_be_counted(ids: Seq<i64>, well: bool)
    ensures
        can_count(PollEventView::Failed),
        can_count(PollEventView::Handled { well }),
        can_count(PollEventView::Received(ids)) <==> ids.len() == 0 || ids[ids.len() - 1]
            < 0x7fff_ffff_ffff_ffff,
{
}

/// The addresses of the interface, of its methods and of files, for every bot, and the name
/// of a conversation.
pub proof fn law_addresses(token: Seq<char>, base: Seq<char>, method: Seq<char>, chat_id: i64)
    ensures
        base_of(token) == "https://api.telegram.org/bot"@ + token,
        method_at(base, method) == base + "/"@ + method,
        file_at(token, method) == "https://api.telegram.org/file/bot"@ + token + "/"@ + method,
        conversation_of(chat_id) == "telegram:"@ + text::signed_decimal(chat_id as int),
{
}

/// A message from a chat is answered in that chat and belongs to its conversation.
pub proof fn law_messages_come_from_their_chat(
    m: IncomingMessage,
    chat_id: i64,
    received: Received,
)
    requires
        is_from(m, chat_id, received),
    ensures
        m.platform@ == "telegram"@,
        m.conversation_id@ == "telegram:"@ + text::signed_decimal(chat_id as int),
        m.reply_target@ == text::signed_decimal(chat_id as int),
        delivery::carries(m, received),
{
}

/// The areas of photos can be worked out where each is a number that an `i64` holds.
pub proof fn law_which_areas_fit(list: Seq<TelegramPhotoSize>)
    ensures
        areas_fit(list) <==> forall|i: int|
            0 <= i < list.len() ==> -0x8000_0000_0000_0000 <= (#[trigger] list[i]).width
                * list[i].height <= 0x7fff_ffff_ffff_ffff,
{
    if forall|i: int|
        0 <= i < list.len() ==> -0x8000_0000_0000_0000 <= (#[trigger] list[i]).width
            * list[i].height <= 0x7fff_ffff_ffff_ffff {
        assert forall|i: int| 0 <= i < list.len() implies i64::MIN <= area(#[trigger] list[i])
            <= i64::MAX by {}
    }
    if areas_fit(list) {
        assert forall|i: int| 0 <= i < list.len() implies -0x8000_0000_0000_0000 <= (
        #[trigger] list[i]).width * list[i].height <= 0x7fff_ffff_ffff_ffff by {
            assert(i64::MIN <= area(list[i]) <= i64::MAX);
        }
    }
}

} // verus!
