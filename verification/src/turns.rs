//! What each step of a turn does, case by case, in terms of what the visitor, the detector,
//! the search and the model said and of the conversation as it was.

use vstd::prelude::*;

use crate::clock;
use crate::clock::Instant;
use crate::config::Config;
use crate::llm;
use crate::llm::ChatRequestView;
use crate::matching;
use crate::replies;
use crate::session;
use crate::session::{LiveTimer, ReplyMessage, ReplyView, ResponseView, StateView, StepView};
use crate::text;
use crate::types::{ArtworkView, ChatMessageView, DecisionView, IntentView, SessionView, StageView};

verus! {

/// The last `n` messages of a conversation, or all of them where there are no more.
pub open spec fn last_messages(history: Seq<ChatMessageView>, n: usize) -> Seq<ChatMessageView> {
    if history.len() <= n {
        history
    } else {
        history.subrange(history.len() - n, history.len() as int)
    }
}

/// A message of the visitor.
pub open spec fn from_visitor(content: Seq<char>) -> ChatMessageView {
    ChatMessageView { role: "user"@, content }
}

/// A message of the companion.
pub open spec fn from_companion(content: Seq<char>) -> ChatMessageView {
    ChatMessageView { role: "assistant"@, content }
}

/// The end of a turn with one message that is also spoken.
pub open spec fn replied(reply: Seq<char>) -> StepView {
    StepView::Respond(ResponseView::Messages(seq![ReplyView { text: reply, with_tts: true }]))
}

/// The end of a turn with one message that is also spoken, and a live timer under it.
pub open spec fn replied_with_timer(reply: Seq<char>, minutes: u64) -> StepView {
    StepView::Respond(
        ResponseView::TimerStart {
            messages: seq![ReplyView { text: reply, with_tts: true }],
            countdown_minutes: minutes,
        },
    )
}

/// A reply under which the time since a conversation's start is noted.
pub open spec fn with_note(reply: Seq<char>, s: SessionView, minutes: u64, now: Instant) -> Seq<
    char,
> {
    reply + replies::time_note(clock::elapsed(s.started_at, now), minutes)
}

/// The state with a conversation put in its place, and nothing else changed.
pub open spec fn put(st: StateView, id: Seq<char>, s: SessionView) -> StateView {
    StateView {
        config: st.config,
        modes: st.modes,
        artworks: st.artworks,
        sessions: st.sessions.insert(id, s),
        timers: st.timers,
    }
}

/// The state with a conversation put in its place that has a new timer instead of its old
/// one, which is cancelled.
pub open spec fn put_with_new_timer(st: StateView, id: Seq<char>, s: SessionView) -> StateView {
    StateView {
        config: st.config,
        modes: st.modes,
        artworks: st.artworks,
        sessions: st.sessions.insert(id, SessionView { timer_cancel: st.timers.len(), ..s }),
        timers: st.timers.update(s.timer_cancel as int, true).push(false),
    }
}

// ---------------------------------------------------------------------------
// What is kept
// ---------------------------------------------------------------------------

/// Of a history as many messages are kept as are configured, the last ones, in order: what
/// goes is at the front.
pub proof fn law_oldest_messages_go_first(
    old_part: Seq<ChatMessageView>,
    new_part: Seq<ChatMessageView>,
    max: usize,
)
    ensures
        new_part.len() == max ==> session::truncated(old_part + new_part, max) == new_part,
        new_part.len() <= max ==> session::truncated(new_part, max) == new_part,
{
    if new_part.len() == max {
        let all = old_part + new_part;
        if all.len() > max {
            assert(all.skip(all.len() - max) =~= new_part);
        } else {
            assert(all =~= new_part);
        }
    }
}

proof fn lemma_truncated(history: Seq<ChatMessageView>, max: usize)
    ensures
        session::truncated(history, max) == last_messages(history, max),
{
}

/// Each conversation is found under its own name, with its own history; one that never
/// began is not found and has none.
pub proof fn law_conversations_are_found_by_name(st: StateView, id: Seq<char>)
    ensures
        st.sessions.contains_key(id) ==> st.session(id) == Some(st.sessions[id]) && st.history(id)
            == st.sessions[id].history,
        !st.sessions.contains_key(id) ==> st.session(id) is None && st.history(id) == Seq::<
            ChatMessageView,
        >::empty(),
{
    assert(!st.sessions.contains_key(id) ==> st.history(id) =~= Seq::<ChatMessageView>::empty());
}

// ---------------------------------------------------------------------------
// Messages
// ---------------------------------------------------------------------------

/// A conversation is started over by `/start` and by `/new`, with white space round them or
/// without, and by nothing else.
pub proof fn law_what_starts_over(before: Seq<char>, command: Seq<char>, behind: Seq<char>)
    requires
        text::is_blank(before),
        text::is_blank(behind),
        command.len() > 0 ==> !text::is_space(command[0]) && !text::is_space(command.last()),
    ensures
        session::starts_over(before + command + behind) <==> command == "/start"@ || command
            == "/new"@,
{
    text::law_trimming_leaves_the_middle(before, command, behind);
}

/// The opening words say what can be sent, in every way that the companion was built.
pub proof fn law_opening_fits_the_search(image: bool)
    ensures
        ({
            let both = replies::SearchModes { image, audio_id: true };
            let described = replies::SearchModes { image: true, audio_id: false };
            let neither = replies::SearchModes { image: false, audio_id: false };
            &&& replies::opening(both) == replies::OPENING_START@
                + " You can say the audio guide number, or read the title from the label."@
                + replies::OPENING_END@
            &&& replies::opening(described) == replies::OPENING_START@
                + " Describe what you see, or read the title from the label."@
                + replies::OPENING_END@
            &&& replies::opening(neither) == replies::OPENING_START@ + replies::OPENING_END@
        }),
{
    assert(replies::OPENING_START@ + Seq::<char>::empty() =~= replies::OPENING_START@);
}

/// Whoever starts over begins anew, whatever was said before: the conversation waits for an
/// artwork, knows the welcome alone, has a timer that was never handed out, and nothing else
/// changes. The welcome is not spoken.
pub proof fn law_starting_over_begins_anew(
    st: StateView,
    id: Seq<char>,
    message: Seq<char>,
    now: Instant,
)
    requires
        text::trimmed(message) == "/start"@ || text::trimmed(message) == "/new"@,
    ensures
        session::on_message(st, id, message, now) == (
            StateView {
                config: st.config,
                modes: st.modes,
                artworks: st.artworks,
                sessions: st.sessions.insert(
                    id,
                    SessionView {
                        stage: StageView::WaitingForArtwork,
                        history: seq![from_companion(replies::opening(st.modes))],
                        started_at: now,
                        countdown_minutes: st.config.session.countdown_minutes,
                        timer_cancel: st.timers.len(),
                        rejected_artwork_ids: Seq::<i64>::empty(),
                    },
                ),
                timers: st.timers.push(false),
            },
            StepView::Respond(
                ResponseView::Messages(
                    seq![ReplyView { text: replies::opening(st.modes), with_tts: false }],
                ),
            ),
        ),
        session::started(st, id, now) == session::on_message(st, id, message, now).0,
        StepView::Respond(session::welcome(st)) == session::on_message(st, id, message, now).1,
{
}

/// The first message of a visitor begins a conversation, and the detector is asked about it.
pub proof fn law_first_message_begins_a_conversation(
    st: StateView,
    id: Seq<char>,
    message: Seq<char>,
    now: Instant,
)
    requires
        text::trimmed(message) != "/start"@,
        text::trimmed(message) != "/new"@,
        !st.sessions.contains_key(id),
    ensures
        session::on_message(st, id, message, now) == (
            StateView {
                config: st.config,
                modes: st.modes,
                artworks: st.artworks,
                sessions: st.sessions.insert(
                    id,
                    SessionView {
                        stage: StageView::WaitingForArtwork,
                        history: last_messages(
                            seq![from_visitor(message)],
                            st.config.session.max_history_messages,
                        ),
                        started_at: now,
                        countdown_minutes: st.config.session.countdown_minutes,
                        timer_cancel: st.timers.len(),
                        rejected_artwork_ids: Seq::<i64>::empty(),
                    },
                ),
                timers: st.timers.push(false),
            },
            StepView::DetectStop { query: message, again: false },
        ),
{
    let none = Seq::<ChatMessageView>::empty();
    assert(none.push(from_visitor(message)) =~= seq![from_visitor(message)]);
    lemma_truncated(seq![from_visitor(message)], session::max_history(st));
}

/// What a visitor says while an artwork is looked for is added to the history, and the
/// detector is asked about just that message.
pub proof fn law_waiting_asks_the_detector(
    st: StateView,
    id: Seq<char>,
    message: Seq<char>,
    now: Instant,
)
    requires
        text::trimmed(message) != "/start"@,
        text::trimmed(message) != "/new"@,
        st.sessions.contains_key(id),
        st.sessions[id].stage == StageView::WaitingForArtwork,
    ensures
        ({
            let s = st.sessions[id];
            let said = last_messages(
                s.history.push(from_visitor(message)),
                st.config.session.max_history_messages,
            );
            session::on_message(st, id, message, now) == (
                put(st, id, SessionView { history: said, ..s }),
                StepView::DetectStop { query: message, again: false },
            )
        }),
{
    let s = st.sessions[id];
    lemma_truncated(s.history.push(from_visitor(message)), session::max_history(st));
}

/// An answer to the question whether the right artwork was found is taken by its meaning. A
/// yes leads to the question how long, a no back to looking for an artwork, and anything
/// else to the same question once more; each is the reply, and the first two are remembered.
pub proof fn law_confirmation_goes_by_the_answer(
    st: StateView,
    id: Seq<char>,
    message: Seq<char>,
    artwork: ArtworkView,
    now: Instant,
)
    requires
        text::trimmed(message) != "/start"@,
        text::trimmed(message) != "/new"@,
        st.sessions.contains_key(id),
        st.sessions[id].stage == (StageView::AwaitingConfirmation { artwork }),
    ensures
        ({
            let s = st.sessions[id];
            let said = last_messages(
                s.history.push(from_visitor(message)),
                st.config.session.max_history_messages,
            );
            let answer = matching::normalized(message);
            let how_long = replies::time_question(artwork.official_name, artwork.description);
            let anew = "Okay — tell me the title or anything from the museum label, and I’ll try again."@;
            let turn = session::on_message(st, id, message, now);
            &&& matching::means_yes(answer) ==> turn == (
                put(
                    st,
                    id,
                    SessionView {
                        stage: StageView::AwaitingTimeSelection { artwork },
                        history: said.push(from_companion(how_long)),
                        ..s
                    },
                ),
                replied(how_long),
            )
            &&& matching::means_no(answer) ==> turn == (
                put(
                    st,
                    id,
                    SessionView {
                        stage: StageView::WaitingForArtwork,
                        history: said.push(from_companion(anew)),
                        ..s
                    },
                ),
                replied(anew),
            )
            &&& !matching::means_yes(answer) && !matching::means_no(answer) ==> turn == (
                put(st, id, SessionView { history: said, ..s }),
                replied(
                    "Just answer yes or no — do you mean \""@ + artwork.official_name + "\"?"@,
                ),
            )
        }),
{
    let s = st.sessions[id];
    let said = s.history.push(from_visitor(message));
    let max = session::max_history(st);
    lemma_truncated(said, max);
    matching::law_yes_and_no_exclude_each_other(matching::normalized(message));
    let heard = session::heard(st, id, message, now);
    assert(heard.session(id) == Some(SessionView { history: last_messages(said, max), ..s }));
    let how_long = replies::time_question(artwork.official_name, artwork.description);
    let a = session::moved_uncut(
        heard,
        id,
        StageView::AwaitingTimeSelection { artwork },
        how_long,
    );
    let b = session::moved_uncut(heard, id, StageView::WaitingForArtwork, replies::TRY_AGAIN@);
    assert(heard.sessions.insert(id, a.sessions[id]) =~= st.sessions.insert(id, a.sessions[id]));
    assert(heard.sessions.insert(id, b.sessions[id]) =~= st.sessions.insert(id, b.sessions[id]));
}

/// A number of minutes starts a discussion of as long, and at least one and at most sixty
/// minutes; the words that start it are the reply, with the time under them and a new timer.
pub proof fn law_minutes_start_a_discussion(
    st: StateView,
    id: Seq<char>,
    message: Seq<char>,
    artwork: ArtworkView,
    n: u64,
    now: Instant,
)
    requires
        text::trimmed(message) != "/start"@,
        text::trimmed(message) != "/new"@,
        text::parsed_number(text::trimmed(message)) == Some(n),
        st.sessions.contains_key(id),
        st.sessions[id].stage == (StageView::AwaitingTimeSelection { artwork }),
    ensures
        ({
            let s = st.sessions[id];
            let max = st.config.session.max_history_messages;
            let minutes: u64 = if n == 0 {
                1
            } else if n >= 60 {
                60
            } else {
                n
            };
            let begun = replies::beginning(minutes, artwork.official_name);
            let said = last_messages(s.history.push(from_visitor(message)), max);
            let next = SessionView {
                stage: StageView::DiscussingArtwork { artwork },
                history: last_messages(said.push(from_companion(begun)), max),
                started_at: now,
                countdown_minutes: minutes,
                ..s
            };
            session::on_message(st, id, message, now) == (
                put_with_new_timer(st, id, next),
                replied_with_timer(with_note(begun, next, minutes, now), minutes),
            )
        }),
{
    let s = st.sessions[id];
    let max = session::max_history(st);
    let said = s.history.push(from_visitor(message));
    lemma_truncated(said, max);
    let minutes = session::clamped_minutes(n);
    let begun = replies::beginning(minutes, artwork.official_name);
    let more = last_messages(said, max).push(from_companion(begun));
    lemma_truncated(more, max);
    let heard = session::heard(st, id, message, now);
    let next = SessionView {
        stage: StageView::DiscussingArtwork { artwork },
        history: last_messages(more, max),
        started_at: now,
        countdown_minutes: minutes,
        timer_cancel: st.timers.len(),
        ..s
    };
    assert(heard.sessions.insert(id, next) =~= st.sessions.insert(id, next));
}

/// Any other words start a discussion of five minutes, and the model is asked for a reply to
/// the whole kept conversation, with these words as its last.
pub proof fn law_other_words_start_a_discussion(
    st: StateView,
    id: Seq<char>,
    message: Seq<char>,
    artwork: ArtworkView,
    now: Instant,
)
    requires
        text::trimmed(message) != "/start"@,
        text::trimmed(message) != "/new"@,
        text::parsed_number(text::trimmed(message)) is None,
        st.sessions.contains_key(id),
        st.sessions[id].stage == (StageView::AwaitingTimeSelection { artwork }),
    ensures
        ({
            let s = st.sessions[id];
            let said = last_messages(
                s.history.push(from_visitor(message)),
                st.config.session.max_history_messages,
            );
            let next = SessionView {
                stage: StageView::DiscussingArtwork { artwork },
                history: said,
                started_at: now,
                countdown_minutes: 5,
                ..s
            };
            session::on_message(st, id, message, now) == (
                put_with_new_timer(st, id, next),
                StepView::GenerateReply {
                    first: true,
                    request: ChatRequestView {
                        model: st.config.llm.model@,
                        system: llm::COMPANION_PROMPT@ + artwork.official_name
                            + ". Full artwork context: "@ + artwork.description,
                        user: llm::lines(said),
                        temperature_tenths: 8,
                    },
                },
            )
        }),
{
    let s = st.sessions[id];
    let max = session::max_history(st);
    let said = s.history.push(from_visitor(message));
    lemma_truncated(said, max);
    let heard = session::heard(st, id, message, now);
    let next = SessionView {
        stage: StageView::DiscussingArtwork { artwork },
        history: last_messages(said, max),
        started_at: now,
        countdown_minutes: 5,
        timer_cancel: st.timers.len(),
        ..s
    };
    assert(heard.sessions.insert(id, next) =~= st.sessions.insert(id, next));
}

/// During a discussion the classifier is asked what the visitor wants: about the message and
/// the artwork, with the whole kept conversation.
pub proof fn law_discussion_asks_the_classifier(
    st: StateView,
    id: Seq<char>,
    message: Seq<char>,
    artwork: ArtworkView,
    now: Instant,
)
    requires
        text::trimmed(message) != "/start"@,
        text::trimmed(message) != "/new"@,
        st.sessions.contains_key(id),
        st.sessions[id].stage == (StageView::DiscussingArtwork { artwork }),
    ensures
        ({
            let s = st.sessions[id];
            let said = last_messages(
                s.history.push(from_visitor(message)),
                st.config.session.max_history_messages,
            );
            session::on_message(st, id, message, now) == (
                put(st, id, SessionView { history: said, ..s }),
                StepView::ClassifyIntent {
                    artwork,
                    text: message,
                    request: ChatRequestView {
                        model: st.config.llm.model@,
                        system: llm::CLASSIFIER_PROMPT_TITLE@ + artwork.official_name
                            + llm::CLASSIFIER_PROMPT_HISTORY@ + llm::lines(said),
                        user: message,
                        temperature_tenths: 0,
                    },
                },
            )
        }),
{
    let s = st.sessions[id];
    lemma_truncated(s.history.push(from_visitor(message)), session::max_history(st));
}

// ---------------------------------------------------------------------------
// Stops
// ---------------------------------------------------------------------------

/// Whenever the detector has found a stop, in a first search or in one made again, that stop
/// is looked up: the first artwork of the collection that has it is the one whose time is
/// asked for, by its name and the number of the stop, and the question is remembered. No
/// search is made.
pub proof fn law_found_stop_is_looked_up(
    st: StateView,
    id: Seq<char>,
    query: Seq<char>,
    again: bool,
    n: i64,
    i: int,
    now: Instant,
)
    requires
        0 <= i < st.artworks.len(),
        st.artworks[i].audio_guide_id == Some(n),
        forall|k: int| 0 <= k < i ==> (#[trigger] st.artworks[k]).audio_guide_id != Some(n),
    ensures
        ({
            let asked = "Got it — audio stop "@ + text::signed_decimal(n as int) + " is \""@
                + st.artworks[i].official_name
                + "\". \n\nHow long would you like to discuss it? Reply with a number of minutes (e.g. 1, 3, 5, or 10)."@;
            let turn = session::on_detected(st, id, query, again, Some(n), now);
            &&& turn.1 == replied(asked)
            &&& !st.sessions.contains_key(id) ==> turn.0 == st
            &&& st.sessions.contains_key(id) ==> turn.0 == put(
                st,
                id,
                SessionView {
                    stage: StageView::AwaitingTimeSelection { artwork: st.artworks[i] },
                    history: last_messages(
                        st.sessions[id].history.push(from_companion(asked)),
                        st.config.session.max_history_messages,
                    ),
                    ..st.sessions[id]
                },
            )
            &&& session::on_stop(st, id, n, now) == turn
        }),
{
    let pred = |a: ArtworkView| a.audio_guide_id == Some(n);
    assert forall|k: int| 0 <= k < i implies !pred(#[trigger] st.artworks[k]) by {}
    matching::lemma_first_where_at(st.artworks, pred, i);
    let name = st.artworks[i].official_name;
    replies::law_replies_name_their_subject(name, name, n, again, 1);
    let asked = replies::stop_time_question(n, name);
    lemma_truncated(
        st.sessions[id].history.push(from_companion(asked)),
        session::max_history(st),
    );
}

/// A stop that no artwork has is regretted by its number, in a first search or in one made
/// again: nothing is remembered or searched for. During a discussion the time is noted under
/// the regret.
pub proof fn law_unknown_stop_is_regretted(
    st: StateView,
    id: Seq<char>,
    query: Seq<char>,
    again: bool,
    n: i64,
    now: Instant,
)
    requires
        forall|k: int|
            0 <= k < st.artworks.len() ==> (#[trigger] st.artworks[k]).audio_guide_id != Some(n),
    ensures
        ({
            let regret = "I couldn’t find audio guide number "@ + text::signed_decimal(n as int)
                + " in my database. Please try another number or send the artwork name."@;
            let turn = session::on_detected(st, id, query, again, Some(n), now);
            let s = st.sessions[id];
            &&& turn.0 == st
            &&& turn.1 == (if st.sessions.contains_key(id) && s.stage is DiscussingArtwork {
                replied(with_note(regret, s, st.config.session.countdown_minutes, now))
            } else {
                replied(regret)
            })
            &&& session::on_stop(st, id, n, now) == turn
        }),
{
    let pred = |a: ArtworkView| a.audio_guide_id == Some(n);
    assert forall|k: int| 0 <= k < st.artworks.len() implies !pred(#[trigger] st.artworks[k]) by {}
    matching::lemma_first_where_at(st.artworks, pred, st.artworks.len() as int);
}

/// A search is made only where the detector found no stop: for the query that it was asked
/// about, with nothing changed.
pub proof fn law_search_only_without_a_stop(
    st: StateView,
    id: Seq<char>,
    query: Seq<char>,
    again: bool,
    stop: Option<i64>,
    now: Instant,
)
    ensures
        session::on_detected(st, id, query, again, stop, now).1 is FindArtwork <==> stop is None,
        stop is None ==> session::on_detected(st, id, query, again, stop, now) == (
            st,
            StepView::FindArtwork { query, again },
        ),
{
}

/// The regret about a stop cannot be timed only during a discussion, where no artwork has
/// the stop and the configured minutes are too many to count in seconds.
pub proof fn law_when_a_regret_cannot_be_timed(st: StateView, id: Seq<char>, n: i64)
    ensures
        session::note_overflows(st, id, n) <==> {
            &&& forall|k: int|
                0 <= k < st.artworks.len() ==> (#[trigger] st.artworks[k]).audio_guide_id != Some(n)
            &&& st.sessions.contains_key(id)
            &&& st.sessions[id].stage is DiscussingArtwork
            &&& st.config.session.countdown_minutes * 60 > 0xffff_ffff_ffff_ffff
        },
{
    let pred = |a: ArtworkView| a.audio_guide_id == Some(n);
    matching::lemma_first_where(st.artworks, pred);
    if session::artwork_of_stop(st.artworks, n) is None {
        assert forall|k: int| 0 <= k < st.artworks.len() implies (
        #[trigger] st.artworks[k]).audio_guide_id != Some(n) by {
            assert(!pred(st.artworks[k]));
        }
    } else {
        let a = session::artwork_of_stop(st.artworks, n)->0;
        let k = choose|k: int| 0 <= k < st.artworks.len() && st.artworks[k] == a;
        assert(st.artworks[k].audio_guide_id == Some(n));
    }
}

// ---------------------------------------------------------------------------
// Searches
// ---------------------------------------------------------------------------

/// A turn ends with the reply alone outside a discussion, with nothing changed. In one the
/// reply has the time under it, the timer before it is cancelled and a new one starts.
pub proof fn law_how_turns_end(st: StateView, id: Seq<char>, reply: Seq<char>, now: Instant)
    ensures
        ({
            let s = st.sessions[id];
            let end = session::settled(st, id, reply, now);
            if st.sessions.contains_key(id) && s.stage is DiscussingArtwork {
                end == (
                    put_with_new_timer(st, id, s),
                    replied_with_timer(
                        with_note(reply, s, s.countdown_minutes, now),
                        s.countdown_minutes,
                    ),
                )
            } else {
                end == (st, replied(reply))
            }
        }),
{
}

/// An artwork that is found for certain is the one whose time is asked for; one that is
/// found with a doubt is asked about. In both cases the question names it, is the reply and
/// is remembered, whatever the conversation was doing, and no time is noted.
pub proof fn law_found_artwork_is_asked_about(
    st: StateView,
    id: Seq<char>,
    again: bool,
    decision: DecisionView,
    artwork: ArtworkView,
    now: Instant,
)
    requires
        st.sessions.contains_key(id),
        match decision {
            DecisionView::AutoAccept { artwork: a, .. } => a == artwork,
            DecisionView::NeedsConfirmation { artwork: a, .. } => a == artwork,
            DecisionView::NoMatch => false,
        },
    ensures
        ({
            let s = st.sessions[id];
            let max = st.config.session.max_history_messages;
            let turn = session::on_decision(st, id, again, decision, now);
            let how_long = replies::time_question(artwork.official_name, artwork.description);
            let is_it = (if again {
                "I think you may actually mean \""@
            } else {
                "I think you probably mean \""@
            }) + artwork.official_name + "\". Is that the one? Reply yes or no."@;
            &&& decision is AutoAccept ==> turn == (
                put(
                    st,
                    id,
                    SessionView {
                        stage: StageView::AwaitingTimeSelection { artwork },
                        history: last_messages(s.history.push(from_companion(how_long)), max),
                        ..s
                    },
                ),
                replied(how_long),
            )
            &&& decision is NeedsConfirmation ==> turn == (
                put(
                    st,
                    id,
                    SessionView {
                        stage: StageView::AwaitingConfirmation { artwork },
                        history: last_messages(s.history.push(from_companion(is_it)), max),
                        ..s
                    },
                ),
                replied(is_it),
            )
        }),
{
    let s = st.sessions[id];
    let max = session::max_history(st);
    let how_long = replies::time_question(artwork.official_name, artwork.description);
    let is_it = replies::confirm_question(again, artwork.official_name);
    lemma_truncated(s.history.push(from_companion(how_long)), max);
    lemma_truncated(s.history.push(from_companion(is_it)), max);
}

/// Where nothing is found, a visitor who looks for an artwork is asked to try again, and
/// nothing is remembered. Who was taken to mean another artwork than the one under
/// discussion is told so, and that is remembered. Either way the conversation stays where it
/// is.
pub proof fn law_nothing_found_is_said(st: StateView, id: Seq<char>, now: Instant)
    ensures
        session::on_decision(st, id, false, DecisionView::NoMatch, now) == session::settled(
            st,
            id,
            "I couldn’t identify the artwork yet. Try the title or a short description from the label beside it."@,
            now,
        ),
        ({
            let regret = "Okay — I may have the wrong artwork. Tell me the title or give me a short visual description and I’ll try to identify it again."@;
            let s = st.sessions[id];
            let said = last_messages(
                s.history.push(from_companion(regret)),
                st.config.session.max_history_messages,
            );
            let told = if st.sessions.contains_key(id) {
                put(st, id, SessionView { history: said, ..s })
            } else {
                st
            };
            session::on_decision(st, id, true, DecisionView::NoMatch, now) == session::settled(
                told,
                id,
                regret,
                now,
            )
        }),
{
    let s = st.sessions[id];
    lemma_truncated(s.history.push(from_companion(replies::MAYBE_WRONG@)), session::max_history(st));
}

/// The outcome of a search changes nothing for a conversation that is not there: the reply
/// is given all the same.
pub proof fn law_search_without_a_conversation(
    st: StateView,
    id: Seq<char>,
    again: bool,
    decision: DecisionView,
    now: Instant,
)
    requires
        !st.sessions.contains_key(id),
    ensures
        session::on_decision(st, id, again, decision, now) == (
            st,
            match decision {
                DecisionView::AutoAccept { artwork, .. } => replied(
                    replies::time_question(artwork.official_name, artwork.description),
                ),
                DecisionView::NeedsConfirmation { artwork, .. } => replied(
                    replies::confirm_question(again, artwork.official_name),
                ),
                DecisionView::NoMatch => replied(
                    if again {
                        "Okay — I may have the wrong artwork. Tell me the title or give me a short visual description and I’ll try to identify it again."@
                    } else {
                        "I couldn’t identify the artwork yet. Try the title or a short description from the label beside it."@
                    },
                ),
            },
        ),
{
}

/// An answer that is taken for a conversation in any stage goes by its meaning as well: a
/// yes asks for the time of the artwork, a no starts the search anew, and any other answer
/// leads to the question for a plain yes or no.
pub proof fn law_answers_are_taken_in_any_stage(
    st: StateView,
    id: Seq<char>,
    artwork: ArtworkView,
    answer: Seq<char>,
    now: Instant,
)
    ensures
        ({
            let s = st.sessions[id];
            let how_long = replies::time_question(artwork.official_name, artwork.description);
            let anew = "Okay — tell me the title or anything from the museum label, and I’ll try again."@;
            let turn = session::on_confirmation(st, id, artwork, answer, now);
            let asked = SessionView {
                stage: StageView::AwaitingTimeSelection { artwork },
                history: s.history.push(from_companion(how_long)),
                ..s
            };
            let waiting = SessionView {
                stage: StageView::WaitingForArtwork,
                history: s.history.push(from_companion(anew)),
                ..s
            };
            let known = st.sessions.contains_key(id);
            &&& matching::means_yes(answer) ==> turn == (
                if known {
                    put(st, id, asked)
                } else {
                    st
                },
                replied(how_long),
            )
            &&& matching::means_no(answer) ==> turn == (
                if known {
                    put(st, id, waiting)
                } else {
                    st
                },
                replied(anew),
            )
            &&& !matching::means_yes(answer) && !matching::means_no(answer) ==> turn
                == session::settled(
                st,
                id,
                "Just answer yes or no — do you mean \""@ + artwork.official_name + "\"?"@,
                now,
            )
        }),
{
    matching::law_yes_and_no_exclude_each_other(answer);
}

// ---------------------------------------------------------------------------
// Discussions
// ---------------------------------------------------------------------------

/// The question for a later reply carries the whole kept conversation: the text for the
/// model has one line for each message of the history, all of them, in order, with the role,
/// a colon and the content; its task names the artwork and its whole description. A new
/// search is made with the query that the visitor's words came to, as one made again.
pub proof fn law_later_replies_see_the_whole_conversation(
    st: StateView,
    id: Seq<char>,
    artwork: ArtworkView,
    query: Seq<char>,
    i: int,
)
    ensures
        ({
            let history = if st.sessions.contains_key(id) {
                st.sessions[id].history
            } else {
                Seq::<ChatMessageView>::empty()
            };
            let step = session::on_intent(st, id, artwork, IntentView::Reply);
            let request = step->GenerateReply_request;
            &&& step is GenerateReply
            &&& !step->first
            &&& request.model == st.config.llm.model@
            &&& request.system == llm::COMPANION_PROMPT@ + artwork.official_name
                + ". Full artwork context: "@ + artwork.description
            &&& request.temperature_tenths == 8
            &&& request.user == llm::lines(history)
            &&& history.len() == 0 ==> request.user == Seq::<char>::empty()
            &&& 0 <= i < history.len() ==> {
                let m = history[i];
                request.user == (if i > 0 {
                    llm::lines(history.take(i)) + "\n"@
                } else {
                    Seq::<char>::empty()
                }) + (m.role + ": "@ + m.content) + (if i + 1 < history.len() {
                    "\n"@ + llm::lines(history.skip(i + 1))
                } else {
                    Seq::<char>::empty()
                })
            }
        }),
        session::on_intent(st, id, artwork, IntentView::SearchArtwork { query }) == (
        StepView::DetectStop { query, again: true }),
{
    let history = if st.sessions.contains_key(id) {
        st.sessions[id].history
    } else {
        Seq::<ChatMessageView>::empty()
    };
    law_conversations_are_found_by_name(st, id);
    let blank = ChatMessageView { role: query, content: query };
    llm::law_transcripts_are_whole(history, history, blank);
    if history.len() == 0 {
        assert(history =~= Seq::<ChatMessageView>::empty());
    }
    if 0 <= i < history.len() {
        llm::law_every_message_is_in_the_transcript(history, i);
    }
}

/// A reply of the model is remembered as it was written. The first one of a discussion is
/// shown with the time of five minutes under it and starts the timer that the discussion
/// has; a later one ends its turn as every turn ends.
pub proof fn law_model_replies_are_passed_on(
    st: StateView,
    id: Seq<char>,
    reply: Seq<char>,
    now: Instant,
)
    ensures
        ({
            let s = st.sessions[id];
            let said = last_messages(
                s.history.push(from_companion(reply)),
                st.config.session.max_history_messages,
            );
            let next = if st.sessions.contains_key(id) {
                put(st, id, SessionView { history: said, ..s })
            } else {
                st
            };
            &&& session::on_reply(st, id, true, reply, now) == (
                next,
                replied_with_timer(
                    if st.sessions.contains_key(id) && s.stage is DiscussingArtwork {
                        with_note(reply, s, 5, now)
                    } else {
                        reply
                    },
                    5,
                ),
            )
            &&& session::on_reply(st, id, false, reply, now) == session::settled(
                next,
                id,
                reply,
                now,
            )
        }),
{
    let s = st.sessions[id];
    lemma_truncated(s.history.push(from_companion(reply)), session::max_history(st));
}

// ---------------------------------------------------------------------------
// Timers
// ---------------------------------------------------------------------------

/// A timer runs just as long as it was handed out and not cancelled.
pub proof fn law_when_timers_run(st: StateView, i: usize)
    ensures
        session::timer_is_over(st, None),
        i >= st.timers.len() ==> session::timer_is_over(st, Some(i)),
        i < st.timers.len() ==> (session::timer_is_over(st, Some(i)) <==> st.timers[i as int]),
{
}

/// A live timer goes by the timer and the start of its conversation as they stand; where
/// there is none, it never runs.
pub proof fn law_timers_go_by_their_conversation(
    st: StateView,
    id: Seq<char>,
    t: LiveTimer,
    now: Instant,
)
    ensures
        session::is_timer_of(t, st, id, now) && st.sessions.contains_key(id) ==> t.start
            == st.sessions[id].started_at && t.id is Some && t.id->0 as nat
            == st.sessions[id].timer_cancel && (st.wf() ==> !session::timer_is_over(st, t.id)),
        session::is_timer_of(t, st, id, now) && !st.sessions.contains_key(id) ==> t.start == now
            && session::timer_is_over(st, t.id),
{
}

/// A companion begins with its collection, without conversations or timers, and looks for
/// artworks by their descriptions.
pub proof fn law_beginning_of_a_companion(config: Config, artworks: Seq<ArtworkView>, id: Seq<char>)
    ensures
        ({
            let st = session::untouched(config, artworks);
            &&& st.config == config
            &&& st.artworks == artworks
            &&& !st.sessions.contains_key(id)
            &&& st.timers.len() == 0
            &&& st.modes.image
            &&& !st.modes.audio_id
            &&& st.wf()
        }),
{
}

/// The messages of a response are seen whole and in order, with whether they are spoken.
pub proof fn law_lists_of_replies(list: Seq<ReplyMessage>, i: int)
    ensures
        session::replies_of(list).len() == list.len(),
        0 <= i < list.len() ==> session::replies_of(list)[i] == (ReplyView {
            text: list[i].text@,
            with_tts: list[i].with_tts,
        }),
{
}

} // verus!
