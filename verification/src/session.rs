//! The conversations: which step each message, answer and timer leads to.
//!
//! A turn starts with a message. Each step either answers the visitor or names the
//! outside work that the next step needs; its outcome is handed to the function for that
//! step.

use vstd::prelude::*;
use vstd::hash_map::StringHashMap;

use crate::clock::Instant;
use crate::config::Config;
use crate::llm;
use crate::llm::{ChatRequest, ChatRequestView};
use crate::matching;
use crate::replies;
use crate::replies::SearchModes;
use crate::text;
use crate::types;
use crate::types::{Artwork, ArtworkDecision, ArtworkView, ChatMessage, ChatMessageView,
    DecisionView, DiscussionIntent, IncomingMessage, IntentView, SessionStage, SessionView,
    StageView, UserSession};

verus! {

// ---------------------------------------------------------------------------
// State
// ---------------------------------------------------------------------------

/// Everything that the companion remembers.
pub struct CoreState {
    pub config: Config,
    pub modes: SearchModes,
    pub artworks: Vec<Artwork>,
    pub sessions: StringHashMap<UserSession>,
    /// The timers that were handed out, and whether each was cancelled.
    pub timers: Vec<bool>,
}

pub struct StateView {
    pub config: Config,
    pub modes: SearchModes,
    pub artworks: Seq<ArtworkView>,
    pub sessions: Map<Seq<char>, SessionView>,
    pub timers: Seq<bool>,
}

impl View for CoreState {
    type V = StateView;

    open spec fn view(&self) -> StateView {
        StateView {
            config: self.config,
            modes: self.modes,
            artworks: types::collection(self.artworks@),
            sessions: self.sessions@.map_values(|s: UserSession| s@),
            timers: self.timers@,
        }
    }
}

impl StateView {
    /// The conversation with a name, if there is one.
    pub open spec fn session(self, id: Seq<char>) -> Option<SessionView> {
        if self.sessions.contains_key(id) {
            Some(self.sessions[id])
        } else {
            None
        }
    }

    /// What was said in a conversation.
    pub open spec fn history(self, id: Seq<char>) -> Seq<ChatMessageView> {
        match self.session(id) {
            Some(s) => s.history,
            None => seq![],
        }
    }

    /// The state with a conversation put in its place.
    pub open spec fn with_session(self, id: Seq<char>, s: SessionView) -> StateView {
        StateView { sessions: self.sessions.insert(id, s), ..self }
    }

    /// What holds of every state: a conversation's timer is one that was handed out, it
    /// is not cancelled, and no other conversation has it; and an artwork is discussed
    /// for one to sixty minutes.
    pub open spec fn wf(self) -> bool {
        &&& forall|id: Seq<char>| #[trigger]
            self.sessions.contains_key(id) ==> {
                let s = self.sessions[id];
                &&& s.timer_cancel < self.timers.len()
                &&& !self.timers[s.timer_cancel as int]
                &&& replies::is_discussing(s) ==> 1 <= s.countdown_minutes <= 60
            }
        &&& forall|a: Seq<char>, b: Seq<char>|
            self.sessions.contains_key(a) && self.sessions.contains_key(b) && a != b ==> (
            #[trigger] self.sessions[a]).timer_cancel != (#[trigger] self.sessions[b]).timer_cancel
    }
}

/// A companion without conversations.
pub open spec fn untouched(config: Config, artworks: Seq<ArtworkView>) -> StateView {
    StateView {
        config,
        modes: SearchModes { image: true, audio_id: false },
        artworks,
        sessions: Map::empty(),
        timers: seq![],
    }
}

impl CoreState {
    /// A companion without conversations, which finds artworks by embeddings unless its
    /// modes are changed.
    pub fn new(config: Config, artworks: Vec<Artwork>) -> (r: CoreState)
        ensures
            r@ == untouched(config, types::collection(artworks@)),
            r@.wf(),
    {
        let r = CoreState {
            config,
            modes: SearchModes { image: true, audio_id: false },
            artworks,
            sessions: StringHashMap::new(),
            timers: Vec::new(),
        };
        assert(r@.sessions =~= Map::empty());
        r
    }
}

// ---------------------------------------------------------------------------
// Replies and steps
// ---------------------------------------------------------------------------

/// A reply to a visitor, and whether it is also spoken.
pub struct ReplyMessage {
    pub text: String,
    pub with_tts: bool,
}

pub struct ReplyView {
    pub text: Seq<char>,
    pub with_tts: bool,
}

impl View for ReplyMessage {
    type V = ReplyView;

    open spec fn view(&self) -> ReplyView {
        ReplyView { text: self.text@, with_tts: self.with_tts }
    }
}

/// What a turn ends with.
pub enum CoreResponse {
    Messages(Vec<ReplyMessage>),
    /// Messages, the last of which gets a live timer.
    TimerStart { messages: Vec<ReplyMessage>, countdown_minutes: u64 },
}

pub enum ResponseView {
    Messages(Seq<ReplyView>),
    TimerStart { messages: Seq<ReplyView>, countdown_minutes: u64 },
}

/// The views of a list of replies.
pub open spec fn replies_of(list: Seq<ReplyMessage>) -> Seq<ReplyView> {
    list.map_values(|m: ReplyMessage| m@)
}

impl View for CoreResponse {
    type V = ResponseView;

    open spec fn view(&self) -> ResponseView {
        match self {
            CoreResponse::Messages(list) => ResponseView::Messages(replies_of(list@)),
            CoreResponse::TimerStart { messages, countdown_minutes } => ResponseView::TimerStart {
                messages: replies_of(messages@),
                countdown_minutes: *countdown_minutes,
            },
        }
    }
}

/// What comes next in a turn.
pub enum Step {
    /// The turn is over.
    Respond(CoreResponse),
    /// The detector is asked whether `query` names a stop of the audio guide; what it
    /// says goes to `handle_detected_stop`.
    DetectStop { query: String, again: bool },
    /// The collection is searched for `query`; what is found goes to
    /// `handle_artwork_decision`.
    FindArtwork { query: String, again: bool },
    /// The classifier is asked what the visitor wants; its answer goes to
    /// `handle_discussion_intent`.
    ClassifyIntent { artwork: Artwork, text: String, request: ChatRequest },
    /// The model is asked for a reply, the `first` one of a discussion or a later one;
    /// it goes to `handle_generated_reply`.
    GenerateReply { first: bool, request: ChatRequest },
}

pub enum StepView {
    Respond(ResponseView),
    DetectStop { query: Seq<char>, again: bool },
    FindArtwork { query: Seq<char>, again: bool },
    ClassifyIntent { artwork: ArtworkView, text: Seq<char>, request: ChatRequestView },
    GenerateReply { first: bool, request: ChatRequestView },
}

impl View for Step {
    type V = StepView;

    open spec fn view(&self) -> StepView {
        match self {
            Step::Respond(r) => StepView::Respond(r@),
            Step::DetectStop { query, again } => StepView::DetectStop {
                query: query@,
                again: *again,
            },
            Step::FindArtwork { query, again } => StepView::FindArtwork {
                query: query@,
                again: *again,
            },
            Step::ClassifyIntent { artwork, text, request } => StepView::ClassifyIntent {
                artwork: artwork@,
                text: text@,
                request: request@,
            },
            Step::GenerateReply { first, request } => StepView::GenerateReply {
                first: *first,
                request: request@,
            },
        }
    }
}

/// A single reply.
pub open spec fn single(reply: Seq<char>, with_tts: bool) -> Seq<ReplyView> {
    seq![ReplyView { text: reply, with_tts }]
}

fn single_reply(reply: String, with_tts: bool) -> (r: Vec<ReplyMessage>)
    ensures
        replies_of(r@) == single(reply@, with_tts),
{
    let mut list: Vec<ReplyMessage> = Vec::new();
    list.push(ReplyMessage { text: reply, with_tts });
    assert(replies_of(list@) =~= single(reply@, with_tts));
    list
}

// ---------------------------------------------------------------------------
// What was said
// ---------------------------------------------------------------------------

pub const ASSISTANT: &'static str = "assistant";

pub const USER: &'static str = "user";

/// The last messages of a conversation, as many as are kept.
pub open spec fn truncated(history: Seq<ChatMessageView>, max: usize) -> Seq<ChatMessageView> {
    if history.len() > max {
        history.skip(history.len() - max)
    } else {
        history
    }
}

/// A conversation with one more message.
pub open spec fn said(s: SessionView, role: Seq<char>, content: Seq<char>) -> SessionView {
    SessionView { history: s.history.push(ChatMessageView { role, content }), ..s }
}

/// A conversation cut to the messages that are kept.
pub open spec fn kept(s: SessionView, max: usize) -> SessionView {
    SessionView { history: truncated(s.history, max), ..s }
}

/// Drops the oldest messages of a conversation that has more than are kept.
pub fn truncate_history(session: &mut UserSession, max_history_messages: usize)
    ensures
        final(session)@ == kept(old(session)@, max_history_messages),
{
    if session.history.len() > max_history_messages {
        let from: usize = session.history.len() - max_history_messages;
        session.history = types::messages_from(&session.history, from);
    }
}

fn say(session: &mut UserSession, role: &str, content: &str)
    ensures
        final(session)@ == said(old(session)@, role@, content@),
{
    let ghost before = session.history@;
    let message = ChatMessage { role: role.to_owned(), content: content.to_owned() };
    session.history.push(message);
    assert(types::transcript(before.push(message)) =~= types::transcript(before).push(message@));
}

// ---------------------------------------------------------------------------
// Conversations in the state
// ---------------------------------------------------------------------------

/// A conversation that begins now.
pub open spec fn fresh(
    st: StateView,
    history: Seq<ChatMessageView>,
    now: Instant,
) -> SessionView {
    SessionView {
        stage: StageView::WaitingForArtwork,
        history,
        started_at: now,
        countdown_minutes: st.config.session.countdown_minutes,
        timer_cancel: st.timers.len(),
        rejected_artwork_ids: seq![],
    }
}

/// The state with one more timer, which is not cancelled.
pub open spec fn with_timer(st: StateView) -> StateView {
    StateView { timers: st.timers.push(false), ..st }
}

/// The state in which the timer of a conversation is cancelled and it has a new one.
pub open spec fn renewed(st: StateView, id: Seq<char>, s: SessionView) -> StateView {
    let cancelled = StateView { timers: st.timers.update(s.timer_cancel as int, true), ..st };
    with_timer(cancelled).with_session(
        id,
        SessionView { timer_cancel: st.timers.len(), ..s },
    )
}

fn put(state: &mut CoreState, id: &str, session: UserSession)
    ensures
        final(state)@ == old(state)@.with_session(id@, session@),
{
    let ghost before = state.sessions@;
    state.sessions.insert(id.to_owned(), session);
    assert(before.insert(id@, session).map_values(|s: UserSession| s@) =~= before.map_values(
        |s: UserSession| s@,
    ).insert(id@, session@));
}

fn find(state: &CoreState, id: &str) -> (r: Option<UserSession>)
    ensures
        match r {
            Some(s) => Some(s@),
            None => None,
        } == state@.session(id@),
{
    match state.sessions.get(id) {
        Some(s) => Some(s.clone()),
        None => None,
    }
}

fn hand_out_timer(state: &mut CoreState) -> (r: usize)
    ensures
        r == old(state)@.timers.len(),
        final(state)@ == with_timer(old(state)@),
{
    let id: usize = state.timers.len();
    state.timers.push(false);
    id
}

fn put_with_new_timer(state: &mut CoreState, id: &str, session: UserSession)
    requires
        session.timer_cancel < old(state).timers@.len(),
    ensures
        final(state)@ == renewed(old(state)@, id@, session@),
{
    let mut session = session;
    state.timers.set(session.timer_cancel, true);
    session.timer_cancel = hand_out_timer(state);
    put(state, id, session);
}

fn begin(state: &mut CoreState, history: Vec<ChatMessage>, now: Instant) -> (r: UserSession)
    ensures
        r@ == fresh(old(state)@, types::transcript(history@), now),
        final(state)@ == with_timer(old(state)@),
{
    let timer_cancel: usize = hand_out_timer(state);
    UserSession {
        stage: SessionStage::WaitingForArtwork,
        history,
        started_at: now,
        countdown_minutes: state.config.session.countdown_minutes,
        timer_cancel,
        rejected_artwork_ids: Vec::new(),
    }
}

/// What was said in a conversation.
fn history_of(state: &CoreState, id: &str) -> (r: Vec<ChatMessage>)
    ensures
        types::transcript(r@) == state@.history(id@),
{
    match find(state, id) {
        Some(s) => s.history,
        None => {
            let none: Vec<ChatMessage> = Vec::new();
            assert(types::transcript(none@) =~= seq![]);
            none
        },
    }
}

// ---------------------------------------------------------------------------
// Starting over
// ---------------------------------------------------------------------------

/// The state after a conversation was started over. Its old timer, if it had one, is
/// left to run out.
pub open spec fn started(st: StateView, id: Seq<char>, now: Instant) -> StateView {
    let first = ChatMessageView { role: ASSISTANT@, content: replies::opening(st.modes) };
    with_timer(st).with_session(id, fresh(st, seq![first], now))
}

/// The reply to a visitor who starts over.
pub open spec fn welcome(st: StateView) -> ResponseView {
    ResponseView::Messages(single(replies::opening(st.modes), false))
}

/// A new conversation with a timer of its own keeps the state well-formed.
proof fn lemma_new_session_wf(st: StateView, id: Seq<char>, s: SessionView)
    requires
        s.timer_cancel == st.timers.len(),
        !replies::is_discussing(s),
    ensures
        st.wf() ==> with_timer(st).with_session(id, s).wf(),
{
    let next = with_timer(st).with_session(id, s);
    if st.wf() {
        assert forall|k: Seq<char>| #[trigger] next.sessions.contains_key(k) implies {
            let t = next.sessions[k];
            &&& t.timer_cancel < next.timers.len()
            &&& !next.timers[t.timer_cancel as int]
            &&& replies::is_discussing(t) ==> 1 <= t.countdown_minutes <= 60
        } by {
            if k != id {
                assert(st.sessions.contains_key(k));
            }
        }
        assert forall|a: Seq<char>, b: Seq<char>|
            next.sessions.contains_key(a) && next.sessions.contains_key(b) && a != b implies (
        #[trigger] next.sessions[a]).timer_cancel != (#[trigger] next.sessions[b]).timer_cancel by {
            if a != id {
                assert(st.sessions.contains_key(a));
            }
            if b != id {
                assert(st.sessions.contains_key(b));
            }
            if a != id && b != id {
                assert(st.sessions[a].timer_cancel != st.sessions[b].timer_cancel);
            }
        }
    }
}

/// Starts a conversation over.
pub fn start_session(state: &mut CoreState, conversation_id: &str, now: Instant) -> (r:
    CoreResponse)
    ensures
        final(state)@ == started(old(state)@, conversation_id@, now),
        r@ == welcome(old(state)@),
        old(state)@.wf() ==> final(state)@.wf(),
{
    let opening: String = replies::opening_text(state.modes);
    let first = ChatMessage { role: ASSISTANT.to_owned(), content: opening.clone() };
    let mut history: Vec<ChatMessage> = Vec::new();
    history.push(first);
    assert(types::transcript(history@) =~= seq![first@]);
    let session: UserSession = begin(state, history, now);
    put(state, conversation_id, session);
    proof {
        lemma_new_session_wf(old(state)@, conversation_id@, session@);
    }
    CoreResponse::Messages(single_reply(opening, false))
}

// ---------------------------------------------------------------------------
// The invariant
// ---------------------------------------------------------------------------

/// A conversation that keeps its timer can take the place of the one before.
proof fn lemma_put_wf(st: StateView, id: Seq<char>, s: SessionView)
    requires
        st.wf(),
        st.sessions.contains_key(id),
        s.timer_cancel == st.sessions[id].timer_cancel,
        replies::is_discussing(s) ==> 1 <= s.countdown_minutes <= 60,
    ensures
        st.with_session(id, s).wf(),
{
    let next = st.with_session(id, s);
    assert forall|k: Seq<char>| #[trigger] next.sessions.contains_key(k) implies {
        let t = next.sessions[k];
        &&& t.timer_cancel < next.timers.len()
        &&& !next.timers[t.timer_cancel as int]
        &&& replies::is_discussing(t) ==> 1 <= t.countdown_minutes <= 60
    } by {
        assert(st.sessions.contains_key(k));
    }
    assert forall|a: Seq<char>, b: Seq<char>|
        next.sessions.contains_key(a) && next.sessions.contains_key(b) && a != b implies (
    #[trigger] next.sessions[a]).timer_cancel != (#[trigger] next.sessions[b]).timer_cancel by {
        assert(st.sessions.contains_key(a) && st.sessions.contains_key(b));
        assert(st.sessions[a].timer_cancel != st.sessions[b].timer_cancel);
    }
}

/// A conversation with a new timer can take the place of the one before.
proof fn lemma_renewed_wf(st: StateView, id: Seq<char>, s: SessionView)
    requires
        st.wf(),
        st.sessions.contains_key(id),
        s.timer_cancel == st.sessions[id].timer_cancel,
        replies::is_discussing(s) ==> 1 <= s.countdown_minutes <= 60,
    ensures
        renewed(st, id, s).wf(),
{
    let next = renewed(st, id, s);
    assert forall|k: Seq<char>| #[trigger] next.sessions.contains_key(k) implies {
        let t = next.sessions[k];
        &&& t.timer_cancel < next.timers.len()
        &&& !next.timers[t.timer_cancel as int]
        &&& replies::is_discussing(t) ==> 1 <= t.countdown_minutes <= 60
    } by {
        assert(st.sessions.contains_key(k));
        if k != id {
            assert(st.sessions[k].timer_cancel != st.sessions[id].timer_cancel);
        }
    }
    assert forall|a: Seq<char>, b: Seq<char>|
        next.sessions.contains_key(a) && next.sessions.contains_key(b) && a != b implies (
    #[trigger] next.sessions[a]).timer_cancel != (#[trigger] next.sessions[b]).timer_cancel by {
        assert(st.sessions.contains_key(a) && st.sessions.contains_key(b));
        assert(st.sessions[a].timer_cancel != st.sessions[b].timer_cancel);
    }
}

// ---------------------------------------------------------------------------
// Ends of turns
// ---------------------------------------------------------------------------

/// How many messages of a conversation are kept.
pub open spec fn max_history(st: StateView) -> usize {
    st.config.session.max_history_messages
}

/// The state after a conversation was taken to another stage with a reply; nothing
/// happens to a conversation that is not there.
pub open spec fn moved(
    st: StateView,
    id: Seq<char>,
    stage: StageView,
    reply: Seq<char>,
) -> StateView {
    match st.session(id) {
        Some(s) => st.with_session(
            id,
            kept(said(SessionView { stage, ..s }, ASSISTANT@, reply), max_history(st)),
        ),
        None => st,
    }
}

/// The state after a reply in a conversation that stays where it is.
pub open spec fn answered(st: StateView, id: Seq<char>, reply: Seq<char>) -> StateView {
    match st.session(id) {
        Some(s) => st.with_session(id, kept(said(s, ASSISTANT@, reply), max_history(st))),
        None => st,
    }
}

/// The end of a turn. While an artwork is discussed the reply has a time note, the
/// timer of the reply before is cancelled, and a new one starts.
pub open spec fn settled(st: StateView, id: Seq<char>, reply: Seq<char>, now: Instant) -> (
    StateView,
    StepView,
) {
    match st.session(id) {
        Some(s) => {
            let shown = replies::timed(Some(s), reply, s.countdown_minutes, now);
            if replies::is_discussing(s) {
                (
                    renewed(st, id, s),
                    StepView::Respond(
                        ResponseView::TimerStart {
                            messages: single(shown, true),
                            countdown_minutes: s.countdown_minutes,
                        },
                    ),
                )
            } else {
                (st, StepView::Respond(ResponseView::Messages(single(shown, true))))
            }
        },
        None => (st, StepView::Respond(ResponseView::Messages(single(reply, true)))),
    }
}

fn move_to(state: &mut CoreState, id: &str, stage: SessionStage, reply: &str)
    requires
        old(state)@.wf(),
        !(stage is DiscussingArtwork),
    ensures
        final(state)@ == moved(old(state)@, id@, stage@, reply@),
        final(state)@.wf(),
{
    if let Some(found) = find(state, id) {
        let mut session: UserSession = found;
        session.stage = stage;
        say(&mut session, ASSISTANT, reply);
        truncate_history(&mut session, state.config.session.max_history_messages);
        proof {
            lemma_put_wf(state@, id@, session@);
        }
        put(state, id, session);
    }
}

fn answer(state: &mut CoreState, id: &str, reply: &str)
    requires
        old(state)@.wf(),
    ensures
        final(state)@ == answered(old(state)@, id@, reply@),
        final(state)@.wf(),
{
    if let Some(found) = find(state, id) {
        let mut session: UserSession = found;
        say(&mut session, ASSISTANT, reply);
        truncate_history(&mut session, state.config.session.max_history_messages);
        proof {
            lemma_put_wf(state@, id@, session@);
        }
        put(state, id, session);
    }
}

fn settle(state: &mut CoreState, id: &str, reply: String, now: Instant) -> (r: Step)
    requires
        old(state)@.wf(),
    ensures
        (final(state)@, r@) == settled(old(state)@, id@, reply@, now),
        final(state)@.wf(),
{
    match find(state, id) {
        None => Step::Respond(CoreResponse::Messages(single_reply(reply, true))),
        Some(session) => {
            proof {
                assert(state@.sessions.contains_key(id@));
            }
            let countdown: u64 = session.countdown_minutes;
            let shown: String = replies::with_session_time_suffix(
                Some(&session),
                reply.as_str(),
                countdown,
                now,
            );
            let discussing: bool = match &session.stage {
                SessionStage::DiscussingArtwork { .. } => true,
                _ => false,
            };
            if discussing {
                proof {
                    lemma_renewed_wf(state@, id@, session@);
                }
                put_with_new_timer(state, id, session);
                Step::Respond(
                    CoreResponse::TimerStart {
                        messages: single_reply(shown, true),
                        countdown_minutes: countdown,
                    },
                )
            } else {
                Step::Respond(CoreResponse::Messages(single_reply(shown, true)))
            }
        },
    }
}

// ---------------------------------------------------------------------------
// Messages
// ---------------------------------------------------------------------------

/// Whether a message asks for a new conversation.
pub open spec fn starts_over(message: Seq<char>) -> bool {
    text::trimmed(message) == "/start"@ || text::trimmed(message) == "/new"@
}

/// The state after the visitor said something; a visitor who was not known yet begins a
/// conversation by it.
pub open spec fn heard(st: StateView, id: Seq<char>, message: Seq<char>, now: Instant) -> StateView {
    match st.session(id) {
        Some(s) => st.with_session(id, kept(said(s, USER@, message), max_history(st))),
        None => with_timer(st).with_session(
            id,
            kept(said(fresh(st, seq![], now), USER@, message), max_history(st)),
        ),
    }
}

/// The minutes that a visitor asks for, between one and sixty.
pub open spec fn clamped_minutes(n: u64) -> u64 {
    if n < 1 {
        1
    } else if n > 60 {
        60
    } else {
        n
    }
}

/// How long an artwork is discussed when the visitor names no time.
pub const DEFAULT_MINUTES: u64 = 5;

/// The conversation when its discussion begins.
pub open spec fn discussing(
    s: SessionView,
    artwork: ArtworkView,
    minutes: u64,
    now: Instant,
) -> SessionView {
    SessionView {
        stage: StageView::DiscussingArtwork { artwork },
        started_at: now,
        countdown_minutes: minutes,
        ..s
    }
}

/// The state after a conversation was taken to another stage with a reply, and its
/// history was not cut; nothing happens to a conversation that is not there.
pub open spec fn moved_uncut(
    st: StateView,
    id: Seq<char>,
    stage: StageView,
    reply: Seq<char>,
) -> StateView {
    match st.session(id) {
        Some(s) => st.with_session(id, said(SessionView { stage, ..s }, ASSISTANT@, reply)),
        None => st,
    }
}

/// A normalized answer to the question whether the right artwork was found. Here the
/// history is not cut after the reply.
pub open spec fn on_confirmation(
    st: StateView,
    id: Seq<char>,
    artwork: ArtworkView,
    answer: Seq<char>,
    now: Instant,
) -> (StateView, StepView) {
    if matching::means_yes(answer) {
        let reply = replies::time_question(artwork.official_name, artwork.description);
        let stage = StageView::AwaitingTimeSelection { artwork };
        settled(moved_uncut(st, id, stage, reply), id, reply, now)
    } else if matching::means_no(answer) {
        let reply = replies::TRY_AGAIN@;
        settled(moved_uncut(st, id, StageView::WaitingForArtwork, reply), id, reply, now)
    } else {
        settled(st, id, replies::yes_or_no(artwork.official_name), now)
    }
}

/// An answer to the question how long the artwork is to be discussed: a number of
/// minutes, or else the first words of the discussion.
pub open spec fn on_time_selection(
    st: StateView,
    id: Seq<char>,
    artwork: ArtworkView,
    message: Seq<char>,
    now: Instant,
) -> (StateView, StepView) {
    let s = st.sessions[id];
    match text::parsed_number(text::trimmed(message)) {
        Some(n) => {
            let minutes = clamped_minutes(n);
            let reply = replies::beginning(minutes, artwork.official_name);
            let next = kept(
                said(discussing(s, artwork, minutes, now), ASSISTANT@, reply),
                max_history(st),
            );
            (
                renewed(st, id, next),
                StepView::Respond(
                    ResponseView::TimerStart {
                        messages: single(replies::timed(Some(next), reply, minutes, now), true),
                        countdown_minutes: minutes,
                    },
                ),
            )
        },
        None => {
            let next = discussing(s, artwork, DEFAULT_MINUTES, now);
            (
                renewed(st, id, next),
                StepView::GenerateReply {
                    first: true,
                    request: llm::companion_question(st.config.llm.model@, artwork, s.history),
                },
            )
        },
    }
}

/// The first step of a turn.
pub open spec fn on_message(st: StateView, id: Seq<char>, message: Seq<char>, now: Instant) -> (
    StateView,
    StepView,
) {
    if starts_over(message) {
        (started(st, id, now), StepView::Respond(welcome(st)))
    } else {
        let next = heard(st, id, message, now);
        match next.sessions[id].stage {
            StageView::WaitingForArtwork => (
                next,
                StepView::DetectStop { query: message, again: false },
            ),
            StageView::AwaitingConfirmation { artwork } => on_confirmation(
                next,
                id,
                artwork,
                matching::normalized(message),
                now,
            ),
            StageView::AwaitingTimeSelection { artwork } => on_time_selection(
                next,
                id,
                artwork,
                message,
                now,
            ),
            StageView::DiscussingArtwork { artwork } => (
                next,
                StepView::ClassifyIntent {
                    artwork,
                    text: message,
                    request: llm::classifier_question(
                        st.config.llm.model@,
                        artwork,
                        next.history(id),
                        message,
                    ),
                },
            ),
        }
    }
}

fn hear(state: &mut CoreState, id: &str, message: &str, now: Instant) -> (r: UserSession)
    requires
        old(state)@.wf(),
    ensures
        final(state)@ == heard(old(state)@, id@, message@, now),
        final(state)@.wf(),
        final(state)@.session(id@) == Some(r@),
{
    match find(state, id) {
        Some(found) => {
            let mut session: UserSession = found;
            say(&mut session, USER, message);
            truncate_history(&mut session, state.config.session.max_history_messages);
            proof {
                lemma_put_wf(state@, id@, session@);
            }
            let copy: UserSession = session.clone();
            put(state, id, session);
            copy
        },
        None => {
            let none: Vec<ChatMessage> = Vec::new();
            assert(types::transcript(none@) =~= seq![]);
            let mut session: UserSession = begin(state, none, now);
            say(&mut session, USER, message);
            truncate_history(&mut session, state.config.session.max_history_messages);
            proof {
                lemma_new_session_wf(old(state)@, id@, session@);
            }
            let copy: UserSession = session.clone();
            put(state, id, session);
            copy
        },
    }
}

fn move_to_uncut(state: &mut CoreState, id: &str, stage: SessionStage, reply: &str)
    requires
        old(state)@.wf(),
        !(stage is DiscussingArtwork),
    ensures
        final(state)@ == moved_uncut(old(state)@, id@, stage@, reply@),
        final(state)@.wf(),
{
    if let Some(found) = find(state, id) {
        let mut session: UserSession = found;
        session.stage = stage;
        say(&mut session, ASSISTANT, reply);
        proof {
            lemma_put_wf(state@, id@, session@);
        }
        put(state, id, session);
    }
}

/// Takes a normalized answer to the question whether the right artwork was found.
pub fn handle_confirmation(
    state: &mut CoreState,
    id: &str,
    artwork: Artwork,
    answer: &str,
    now: Instant,
) -> (r: Step)
    requires
        old(state)@.wf(),
    ensures
        (final(state)@, r@) == on_confirmation(old(state)@, id@, artwork@, answer@, now),
        final(state)@.wf(),
{
    if matching::is_yes(answer) {
        let reply: String = replies::time_selection_prompt(&artwork);
        let stage = SessionStage::AwaitingTimeSelection { artwork };
        move_to_uncut(state, id, stage, reply.as_str());
        settle(state, id, reply, now)
    } else if matching::is_no(answer) {
        let reply: String = replies::TRY_AGAIN.to_owned();
        move_to_uncut(state, id, SessionStage::WaitingForArtwork, reply.as_str());
        settle(state, id, reply, now)
    } else {
        let reply: String = replies::yes_or_no_prompt(artwork.official_name.as_str());
        settle(state, id, reply, now)
    }
}

fn handle_time_selection(
    state: &mut CoreState,
    id: &str,
    session: UserSession,
    artwork: Artwork,
    message: &str,
    now: Instant,
) -> (r: Step)
    requires
        old(state)@.wf(),
        old(state)@.session(id@) == Some(session@),
    ensures
        (final(state)@, r@) == on_time_selection(old(state)@, id@, artwork@, message@, now),
        final(state)@.wf(),
{
    assert(state@.sessions.contains_key(id@));
    let trimmed: String = text::trim(message);
    let mut session = session;
    session.started_at = now;
    match text::parse_number(trimmed.as_str()) {
        Some(n) => {
            let minutes: u64 = if n < 1 {
                1
            } else if n > 60 {
                60
            } else {
                n
            };
            let reply: String = replies::beginning_text(minutes, artwork.official_name.as_str());
            session.stage = SessionStage::DiscussingArtwork { artwork };
            session.countdown_minutes = minutes;
            say(&mut session, ASSISTANT, reply.as_str());
            truncate_history(&mut session, state.config.session.max_history_messages);
            let shown: String = replies::with_session_time_suffix(
                Some(&session),
                reply.as_str(),
                minutes,
                now,
            );
            proof {
                lemma_renewed_wf(state@, id@, session@);
            }
            put_with_new_timer(state, id, session);
            Step::Respond(
                CoreResponse::TimerStart {
                    messages: single_reply(shown, true),
                    countdown_minutes: minutes,
                },
            )
        },
        None => {
            let request: ChatRequest = llm::companion_request(
                &state.config.llm,
                &artwork,
                &session.history,
            );
            session.stage = SessionStage::DiscussingArtwork { artwork };
            session.countdown_minutes = DEFAULT_MINUTES;
            proof {
                lemma_renewed_wf(state@, id@, session@);
            }
            put_with_new_timer(state, id, session);
            Step::GenerateReply { first: true, request }
        },
    }
}

/// Takes a message from a visitor.
pub fn handle_text_message(state: &mut CoreState, msg: &IncomingMessage, now: Instant) -> (r: Step)
    requires
        old(state)@.wf(),
    ensures
        (final(state)@, r@) == on_message(
            old(state)@,
            msg.conversation_id@,
            types::text_or_empty(msg.text),
            now,
        ),
        final(state)@.wf(),
{
    let message: String = match &msg.text {
        Some(t) => t.clone(),
        None => {
            let none = String::new();
            assert(none@ =~= Seq::<char>::empty());
            none
        },
    };
    let id: &str = msg.conversation_id.as_str();
    let trimmed: String = text::trim(message.as_str());
    if text::same(trimmed.as_str(), "/start") || text::same(trimmed.as_str(), "/new") {
        return Step::Respond(start_session(state, id, now));
    }
    let session: UserSession = hear(state, id, message.as_str(), now);
    assert(state@.sessions.contains_key(id@));
    match session.stage.clone() {
        SessionStage::WaitingForArtwork => Step::DetectStop { query: message, again: false },
        SessionStage::AwaitingConfirmation { artwork } => {
            let answer: String = matching::normalize_text(message.as_str());
            handle_confirmation(state, id, artwork, answer.as_str(), now)
        },
        SessionStage::AwaitingTimeSelection { artwork } => {
            handle_time_selection(state, id, session, artwork, message.as_str(), now)
        },
        SessionStage::DiscussingArtwork { artwork } => {
            let request: ChatRequest = llm::classifier_request(
                &state.config.llm,
                &artwork,
                &session.history,
                message.as_str(),
            );
            Step::ClassifyIntent { artwork, text: message, request }
        },
    }
}

// ---------------------------------------------------------------------------
// Stops of the audio guide
// ---------------------------------------------------------------------------

/// The artwork of a stop of the audio guide.
pub open spec fn artwork_of_stop(artworks: Seq<ArtworkView>, stop_number: i64) -> Option<
    ArtworkView,
> {
    matching::first_where(artworks, |a: ArtworkView| a.audio_guide_id == Some(stop_number))
}

/// A visitor named a stop of the audio guide. While an artwork is discussed, the reply to
/// an unknown stop has a time note that counts by the configured time.
pub open spec fn on_stop(st: StateView, id: Seq<char>, stop_number: i64, now: Instant) -> (
    StateView,
    StepView,
) {
    match artwork_of_stop(st.artworks, stop_number) {
        None => {
            let shown = replies::timed(
                st.session(id),
                replies::stop_unknown(stop_number),
                st.config.session.countdown_minutes,
                now,
            );
            (st, StepView::Respond(ResponseView::Messages(single(shown, true))))
        },
        Some(artwork) => {
            let reply = replies::stop_time_question(stop_number, artwork.official_name);
            (
                moved(st, id, StageView::AwaitingTimeSelection { artwork }, reply),
                StepView::Respond(ResponseView::Messages(single(reply, true))),
            )
        },
    }
}

/// The step after the detector: the artwork of the stop that it found, or a search.
pub open spec fn on_detected(
    st: StateView,
    id: Seq<char>,
    query: Seq<char>,
    again: bool,
    stop: Option<i64>,
    now: Instant,
) -> (StateView, StepView) {
    match stop {
        Some(n) => on_stop(st, id, n, now),
        None => (st, StepView::FindArtwork { query, again }),
    }
}

/// Finds the artwork of a stop of the audio guide.
pub fn find_artwork_of_stop(artworks: &Vec<Artwork>, stop_number: i64) -> (r: Option<Artwork>)
    ensures
        match r {
            Some(a) => Some(a@),
            None => None,
        } == artwork_of_stop(types::collection(artworks@), stop_number),
{
    let ghost list = types::collection(artworks@);
    let ghost pred = |a: ArtworkView| a.audio_guide_id == Some(stop_number);
    let mut i: usize = 0;
    while i < artworks.len()
        invariant
            i <= artworks@.len(),
            list == types::collection(artworks@),
            pred == (|a: ArtworkView| a.audio_guide_id == Some(stop_number)),
            forall|k: int| 0 <= k < i ==> !pred(#[trigger] list[k]),
        decreases artworks@.len() - i,
    {
        assert(list[i as int] == artworks@[i as int]@);
        let fits: bool = match artworks[i].audio_guide_id {
            Some(n) => n == stop_number,
            None => false,
        };
        if fits {
            proof {
                matching::lemma_first_where_at(list, pred, i as int);
            }
            return Some(artworks[i].clone());
        }
        i = i + 1;
    }
    proof {
        matching::lemma_first_where_at(list, pred, i as int);
    }
    None
}

/// Whether the reply to an unknown stop needs a time note that cannot be worked out: the
/// configured minutes are more seconds than a number can hold.
pub open spec fn note_overflows(st: StateView, id: Seq<char>, stop_number: i64) -> bool {
    &&& artwork_of_stop(st.artworks, stop_number) is None
    &&& st.session(id) is Some
    &&& replies::is_discussing(st.session(id)->0)
    &&& st.config.session.countdown_minutes * 60 > u64::MAX
}

/// Looks up a stop of the audio guide that the visitor named.
pub fn handle_audio_stop_lookup_by_db(
    state: &mut CoreState,
    conversation_id: &str,
    stop_number: i64,
    now: Instant,
) -> (r: Step)
    requires
        old(state)@.wf(),
        !note_overflows(old(state)@, conversation_id@, stop_number),
    ensures
        (final(state)@, r@) == on_stop(old(state)@, conversation_id@, stop_number, now),
        final(state)@.wf(),
{
    match find_artwork_of_stop(&state.artworks, stop_number) {
        None => {
            let reply: String = replies::stop_unknown_text(stop_number);
            let found: Option<UserSession> = find(state, conversation_id);
            let session: Option<&UserSession> = match &found {
                Some(s) => Some(s),
                None => None,
            };
            let shown: String = replies::with_session_time_suffix(
                session,
                reply.as_str(),
                state.config.session.countdown_minutes,
                now,
            );
            Step::Respond(CoreResponse::Messages(single_reply(shown, true)))
        },
        Some(artwork) => {
            let reply: String = replies::stop_time_prompt(
                stop_number,
                artwork.official_name.as_str(),
            );
            move_to(
                state,
                conversation_id,
                SessionStage::AwaitingTimeSelection { artwork },
                reply.as_str(),
            );
            Step::Respond(CoreResponse::Messages(single_reply(reply, true)))
        },
    }
}

/// Takes what the detector said of `query`.
pub fn handle_detected_stop(
    state: &mut CoreState,
    conversation_id: &str,
    query: String,
    again: bool,
    stop: Option<i64>,
    now: Instant,
) -> (r: Step)
    requires
        old(state)@.wf(),
        stop matches Some(n) ==> !note_overflows(old(state)@, conversation_id@, n),
    ensures
        (final(state)@, r@) == on_detected(
            old(state)@,
            conversation_id@,
            query@,
            again,
            stop,
            now,
        ),
        final(state)@.wf(),
{
    match stop {
        Some(n) => handle_audio_stop_lookup_by_db(state, conversation_id, n, now),
        None => Step::FindArtwork { query, again },
    }
}

// ---------------------------------------------------------------------------
// Searches
// ---------------------------------------------------------------------------

/// The step after a search, the first one or one made `again` during a discussion.
pub open spec fn on_decision(
    st: StateView,
    id: Seq<char>,
    again: bool,
    decision: DecisionView,
    now: Instant,
) -> (StateView, StepView) {
    match decision {
        DecisionView::AutoAccept { artwork, .. } => {
            let reply = replies::time_question(artwork.official_name, artwork.description);
            let stage = StageView::AwaitingTimeSelection { artwork };
            settled(moved(st, id, stage, reply), id, reply, now)
        },
        DecisionView::NeedsConfirmation { artwork, .. } => {
            let reply = replies::confirm_question(again, artwork.official_name);
            let stage = StageView::AwaitingConfirmation { artwork };
            settled(moved(st, id, stage, reply), id, reply, now)
        },
        DecisionView::NoMatch => if again {
            let reply = replies::MAYBE_WRONG@;
            settled(answered(st, id, reply), id, reply, now)
        } else {
            settled(st, id, replies::NOT_IDENTIFIED@, now)
        },
    }
}

/// Takes what a search came to.
pub fn handle_artwork_decision(
    state: &mut CoreState,
    conversation_id: &str,
    again: bool,
    decision: ArtworkDecision,
    now: Instant,
) -> (r: Step)
    requires
        old(state)@.wf(),
    ensures
        (final(state)@, r@) == on_decision(
            old(state)@,
            conversation_id@,
            again,
            decision@,
            now,
        ),
        final(state)@.wf(),
{
    match decision {
        ArtworkDecision::AutoAccept { artwork, .. } => {
            let reply: String = replies::time_selection_prompt(&artwork);
            move_to(
                state,
                conversation_id,
                SessionStage::AwaitingTimeSelection { artwork },
                reply.as_str(),
            );
            settle(state, conversation_id, reply, now)
        },
        ArtworkDecision::NeedsConfirmation { artwork, .. } => {
            let reply: String = replies::confirm_prompt(again, artwork.official_name.as_str());
            move_to(
                state,
                conversation_id,
                SessionStage::AwaitingConfirmation { artwork },
                reply.as_str(),
            );
            settle(state, conversation_id, reply, now)
        },
        ArtworkDecision::NoMatch => {
            if again {
                let reply: String = replies::MAYBE_WRONG.to_owned();
                answer(state, conversation_id, reply.as_str());
                settle(state, conversation_id, reply, now)
            } else {
                settle(state, conversation_id, replies::NOT_IDENTIFIED.to_owned(), now)
            }
        },
    }
}

// ---------------------------------------------------------------------------
// Discussions
// ---------------------------------------------------------------------------

/// The step after the classifier: a reply about the artwork, or a new search.
pub open spec fn on_intent(
    st: StateView,
    id: Seq<char>,
    artwork: ArtworkView,
    intent: IntentView,
) -> StepView {
    match intent {
        IntentView::Reply => StepView::GenerateReply {
            first: false,
            request: llm::companion_question(st.config.llm.model@, artwork, st.history(id)),
        },
        IntentView::SearchArtwork { query } => StepView::DetectStop { query, again: true },
    }
}

/// Takes what the visitor wants during a discussion.
pub fn handle_discussion_intent(
    state: &CoreState,
    conversation_id: &str,
    artwork: &Artwork,
    intent: DiscussionIntent,
) -> (r: Step)
    ensures
        r@ == on_intent(state@, conversation_id@, artwork@, intent@),
{
    match intent {
        DiscussionIntent::Reply => {
            let history: Vec<ChatMessage> = history_of(state, conversation_id);
            let request: ChatRequest = llm::companion_request(
                &state.config.llm,
                artwork,
                &history,
            );
            Step::GenerateReply { first: false, request }
        },
        DiscussionIntent::SearchArtwork { query } => Step::DetectStop { query, again: true },
    }
}

/// The step after the model wrote a reply, the `first` one of a discussion or a later
/// one. The timer of the first one was handed out when the discussion began.
pub open spec fn on_reply(
    st: StateView,
    id: Seq<char>,
    first: bool,
    reply: Seq<char>,
    now: Instant,
) -> (StateView, StepView) {
    let next = answered(st, id, reply);
    if first {
        let shown = replies::timed(next.session(id), reply, DEFAULT_MINUTES, now);
        (
            next,
            StepView::Respond(
                ResponseView::TimerStart {
                    messages: single(shown, true),
                    countdown_minutes: DEFAULT_MINUTES,
                },
            ),
        )
    } else {
        settled(next, id, reply, now)
    }
}

/// Takes a reply that the model wrote.
pub fn handle_generated_reply(
    state: &mut CoreState,
    conversation_id: &str,
    first: bool,
    reply: String,
    now: Instant,
) -> (r: Step)
    requires
        old(state)@.wf(),
    ensures
        (final(state)@, r@) == on_reply(old(state)@, conversation_id@, first, reply@, now),
        final(state)@.wf(),
{
    answer(state, conversation_id, reply.as_str());
    if first {
        let found: Option<UserSession> = find(state, conversation_id);
        let session: Option<&UserSession> = match &found {
            Some(s) => Some(s),
            None => None,
        };
        let shown: String = replies::with_session_time_suffix(
            session,
            reply.as_str(),
            DEFAULT_MINUTES,
            now,
        );
        Step::Respond(
            CoreResponse::TimerStart {
                messages: single_reply(shown, true),
                countdown_minutes: DEFAULT_MINUTES,
            },
        )
    } else {
        settle(state, conversation_id, reply, now)
    }
}

// ---------------------------------------------------------------------------
// Timers
// ---------------------------------------------------------------------------

/// What a live timer of a conversation goes by.
pub struct LiveTimer {
    /// Its number, and none for a timer that never runs.
    pub id: Option<usize>,
    /// When the discussion began.
    pub start: Instant,
}

/// Whether a timer is the one of a conversation as it stands, or one that never runs where
/// the conversation is not there.
pub open spec fn is_timer_of(t: LiveTimer, st: StateView, id: Seq<char>, now: Instant) -> bool {
    match st.session(id) {
        Some(s) => t.id is Some && t.id->0 == s.timer_cancel && t.start == s.started_at,
        None => t.id is None && t.start == now,
    }
}

/// The timer of a conversation as it stands, and one that never runs for a conversation
/// that is not there.
pub fn timer_of(state: &CoreState, conversation_id: &str, now: Instant) -> (r: LiveTimer)
    ensures
        is_timer_of(r, state@, conversation_id@, now),
{
    match state.sessions.get(conversation_id) {
        Some(s) => LiveTimer { id: Some(s.timer_cancel), start: s.started_at },
        None => LiveTimer { id: None, start: now },
    }
}

/// Whether a timer no longer runs: it was cancelled, or it was never handed out.
pub open spec fn timer_is_over(st: StateView, id: Option<usize>) -> bool {
    match id {
        Some(i) => i >= st.timers.len() || st.timers[i as int],
        None => true,
    }
}

/// Whether a timer no longer runs.
pub fn is_cancelled(state: &CoreState, timer: &LiveTimer) -> (r: bool)
    ensures
        r == timer_is_over(state@, timer.id),
{
    match timer.id {
        Some(i) => i >= state.timers.len() || state.timers[i],
        None => true,
    }
}

} // verus!
