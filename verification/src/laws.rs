//! What holds of the conversations as a whole, whatever visitors and models say.

use vstd::prelude::*;

use crate::clock::Instant;
use crate::matching;
use crate::replies;
use crate::session;
use crate::session::{ResponseView, StateView, StepView};
use crate::text;
use crate::types::{ArtworkView, ChatMessageView, DecisionView, SessionView, StageView};

verus! {

/// Whether the second state differs from the first at most in one conversation and in
/// timers.
pub open spec fn only_touches(before: StateView, after: StateView, id: Seq<char>) -> bool {
    &&& after.config == before.config
    &&& after.modes == before.modes
    &&& after.artworks == before.artworks
    &&& forall|other: Seq<char>|
        other != id ==> #[trigger] after.session(other) == before.session(other)
}

/// Conversations are independent: no step of one changes another, nor the collection or
/// the settings.
pub proof fn law_conversations_are_independent(
    st: StateView,
    id: Seq<char>,
    message: Seq<char>,
    query: Seq<char>,
    again: bool,
    stop: Option<i64>,
    decision: DecisionView,
    first: bool,
    reply: Seq<char>,
    now: Instant,
)
    ensures
        only_touches(st, session::on_message(st, id, message, now).0, id),
        only_touches(st, session::on_detected(st, id, query, again, stop, now).0, id),
        only_touches(st, session::on_decision(st, id, again, decision, now).0, id),
        only_touches(st, session::on_reply(st, id, first, reply, now).0, id),
{
}

/// Starting over forgets everything: whatever was said before, the conversation waits
/// for an artwork, its history is the welcome alone, its time starts now, and the
/// welcome is the reply, which is not spoken.
pub proof fn law_starting_over_is_fresh(
    st: StateView,
    id: Seq<char>,
    message: Seq<char>,
    now: Instant,
)
    requires
        session::starts_over(message),
    ensures
        ({
            let (next, step) = session::on_message(st, id, message, now);
            let welcome = replies::opening(st.modes);
            &&& next.session(id) matches Some(s)
            &&& s.stage == StageView::WaitingForArtwork
            &&& s.history == seq![
                ChatMessageView { role: session::ASSISTANT@, content: welcome },
            ]
            &&& s.started_at == now
            &&& s.countdown_minutes == st.config.session.countdown_minutes
            &&& s.timer_cancel == st.timers.len()
            &&& step == StepView::Respond(
                ResponseView::Messages(session::single(welcome, false)),
            )
        }),
{
}

/// Whether every history is at most one message longer than what is kept.
pub open spec fn bounded(st: StateView) -> bool {
    forall|id: Seq<char>|
        (#[trigger] st.session(id)) matches Some(s) ==> s.history.len() <= session::max_history(st)
            + 1
}

/// Histories do not grow without end: no step makes one more than a message longer than
/// what is kept.
pub proof fn law_histories_stay_bounded(
    st: StateView,
    id: Seq<char>,
    message: Seq<char>,
    query: Seq<char>,
    again: bool,
    stop: Option<i64>,
    decision: DecisionView,
    first: bool,
    reply: Seq<char>,
    now: Instant,
)
    requires
        bounded(st),
    ensures
        bounded(session::on_message(st, id, message, now).0),
        bounded(session::on_detected(st, id, query, again, stop, now).0),
        bounded(session::on_decision(st, id, again, decision, now).0),
        bounded(session::on_reply(st, id, first, reply, now).0),
{
    law_conversations_are_independent(
        st,
        id,
        message,
        query,
        again,
        stop,
        decision,
        first,
        reply,
        now,
    );
    let a = session::on_message(st, id, message, now).0;
    let b = session::on_detected(st, id, query, again, stop, now).0;
    let c = session::on_decision(st, id, again, decision, now).0;
    let d = session::on_reply(st, id, first, reply, now).0;
    lemma_bounded(st, a, id);
    lemma_bounded(st, b, id);
    lemma_bounded(st, c, id);
    lemma_bounded(st, d, id);
}

proof fn lemma_bounded(before: StateView, after: StateView, id: Seq<char>)
    requires
        bounded(before),
        only_touches(before, after, id),
        after.session(id) matches Some(s) ==> s.history.len() <= session::max_history(before) + 1,
    ensures
        bounded(after),
{
    assert forall|k: Seq<char>| (#[trigger] after.session(k)) is Some implies after.session(
        k,
    )->0.history.len() <= session::max_history(after) + 1 by {
        if k != id {
            assert(after.session(k) == before.session(k));
        }
    }
}

/// The last words are never dropped: unless nothing at all is kept, what a visitor says
/// is the last message of the history that the next question to the model is made from.
pub proof fn law_last_words_are_kept(
    st: StateView,
    id: Seq<char>,
    message: Seq<char>,
    now: Instant,
)
    requires
        session::max_history(st) > 0,
    ensures
        ({
            let heard = session::heard(st, id, message, now).history(id);
            &&& 0 < heard.len() <= session::max_history(st)
            &&& heard.last() == (ChatMessageView { role: session::USER@, content: message })
        }),
{
}

/// Whether the last message of a conversation is what the visitor was told.
pub open spec fn remembers(after: StateView, id: Seq<char>, reply: Seq<char>) -> bool {
    let h = after.history(id);
    &&& h.len() > 0
    &&& h.last() == (ChatMessageView { role: session::ASSISTANT@, content: reply })
}

/// What the visitor is told is remembered: unless nothing at all is kept, the question
/// about the time, the question whether the right artwork was found, the regret during a
/// discussion and every reply of the model are the last message of the history, without
/// a time note.
pub proof fn law_replies_are_remembered(
    st: StateView,
    id: Seq<char>,
    again: bool,
    stop_number: i64,
    decision: DecisionView,
    first: bool,
    reply: Seq<char>,
    now: Instant,
)
    requires
        session::max_history(st) > 0,
        st.session(id) is Some,
    ensures
        session::artwork_of_stop(st.artworks, stop_number) matches Some(a) ==> remembers(
            session::on_stop(st, id, stop_number, now).0,
            id,
            replies::stop_time_question(stop_number, a.official_name),
        ),
        match decision {
            DecisionView::AutoAccept { artwork, .. } => remembers(
                session::on_decision(st, id, again, decision, now).0,
                id,
                replies::time_question(artwork.official_name, artwork.description),
            ),
            DecisionView::NeedsConfirmation { artwork, .. } => remembers(
                session::on_decision(st, id, again, decision, now).0,
                id,
                replies::confirm_question(again, artwork.official_name),
            ),
            DecisionView::NoMatch => again ==> remembers(
                session::on_decision(st, id, again, decision, now).0,
                id,
                replies::MAYBE_WRONG@,
            ),
        },
        remembers(session::on_reply(st, id, first, reply, now).0, id, reply),
{
}

/// Whether a conversation that discusses an artwork afterwards did so before, or was
/// asked for its time.
pub open spec fn discussion_is_earned(before: Option<SessionView>, after: Option<SessionView>) -> bool {
    after matches Some(s) ==> s.stage matches StageView::DiscussingArtwork { artwork } ==> {
        &&& before is Some
        &&& before->0.stage == (StageView::AwaitingTimeSelection { artwork }) || before->0.stage
            == (StageView::DiscussingArtwork { artwork })
    }
}

/// Whether a conversation that discusses an artwork afterwards discussed the same one
/// before.
pub open spec fn discussion_goes_on(before: Option<SessionView>, after: Option<SessionView>) -> bool {
    after matches Some(s) ==> replies::is_discussing(s) ==> before is Some && before->0.stage
        == s.stage
}

/// An artwork is only discussed once the visitor was asked how long: a message leads to
/// a discussion from that question or from the same discussion alone, and no answer of a
/// model starts one or changes its artwork.
pub proof fn law_discussion_follows_the_question(
    st: StateView,
    id: Seq<char>,
    message: Seq<char>,
    query: Seq<char>,
    again: bool,
    stop: Option<i64>,
    decision: DecisionView,
    first: bool,
    reply: Seq<char>,
    now: Instant,
)
    ensures
        discussion_is_earned(
            st.session(id),
            session::on_message(st, id, message, now).0.session(id),
        ),
        discussion_goes_on(
            st.session(id),
            session::on_detected(st, id, query, again, stop, now).0.session(id),
        ),
        discussion_goes_on(
            st.session(id),
            session::on_decision(st, id, again, decision, now).0.session(id),
        ),
        discussion_goes_on(
            st.session(id),
            session::on_reply(st, id, first, reply, now).0.session(id),
        ),
{
}

/// Whether a step that starts a live timer leaves the conversation in a discussion of as
/// many minutes, with a timer that is not cancelled.
pub open spec fn timer_is_live(after: StateView, id: Seq<char>, step: StepView) -> bool {
    step matches StepView::Respond(
        ResponseView::TimerStart { countdown_minutes, .. },
    ) ==> {
        &&& after.session(id) matches Some(s)
        &&& replies::is_discussing(s)
        &&& s.countdown_minutes == countdown_minutes
        &&& s.timer_cancel < after.timers.len()
        &&& !after.timers[s.timer_cancel as int]
    }
}

/// A live timer is only ever started in a discussion, for the minutes that the discussion
/// has.
pub proof fn law_timers_belong_to_discussions(
    st: StateView,
    id: Seq<char>,
    message: Seq<char>,
    query: Seq<char>,
    again: bool,
    stop: Option<i64>,
    decision: DecisionView,
    reply: Seq<char>,
    now: Instant,
)
    requires
        st.wf(),
    ensures
        ({
            let (next, step) = session::on_message(st, id, message, now);
            timer_is_live(next, id, step)
        }),
        ({
            let (next, step) = session::on_detected(st, id, query, again, stop, now);
            timer_is_live(next, id, step)
        }),
        ({
            let (next, step) = session::on_decision(st, id, again, decision, now);
            timer_is_live(next, id, step)
        }),
        ({
            let (next, step) = session::on_reply(st, id, false, reply, now);
            timer_is_live(next, id, step)
        }),
{
    assert(st.session(id) is Some ==> st.sessions.contains_key(id));
}

/// Each reply in a discussion has the only live timer: it cancels the timer of the reply
/// before and starts one that was never handed out.
pub proof fn law_reply_takes_over_the_timer(
    st: StateView,
    id: Seq<char>,
    reply: Seq<char>,
    now: Instant,
)
    requires
        st.wf(),
        st.session(id) is Some,
        replies::is_discussing(st.session(id)->0),
    ensures
        ({
            let next = session::on_reply(st, id, false, reply, now).0;
            let old_timer = st.sessions[id].timer_cancel as int;
            let new_timer = next.sessions[id].timer_cancel as int;
            &&& next.timers[old_timer]
            &&& new_timer == st.timers.len()
            &&& !next.timers[new_timer]
        }),
{
    assert(st.sessions.contains_key(id));
}

/// A discussion begins with the only live timer, whether the visitor names a time or just
/// starts to talk: the timer from before is cancelled, and one that was never handed out
/// takes its place. Where the model has to write the first reply, it leaves that timer as
/// it is, and the reply starts it for the minutes that the discussion has.
pub proof fn law_discussion_begins_with_its_timer(
    st: StateView,
    id: Seq<char>,
    message: Seq<char>,
    now: Instant,
    reply: Seq<char>,
    later: Instant,
)
    requires
        st.wf(),
        !session::starts_over(message),
        st.session(id) is Some,
        st.session(id)->0.stage is AwaitingTimeSelection,
    ensures
        ({
            let (begun, step) = session::on_message(st, id, message, now);
            let (next, answer) = session::on_reply(begun, id, true, reply, later);
            let old_timer = st.sessions[id].timer_cancel as int;
            let new_timer = st.timers.len() as int;
            &&& begun.sessions[id].timer_cancel == new_timer
            &&& begun.timers[old_timer]
            &&& !begun.timers[new_timer]
            &&& timer_is_live(begun, id, step)
            &&& step matches StepView::GenerateReply { first, .. } ==> {
                &&& first
                &&& answer is Respond
                &&& answer->Respond_0 is TimerStart
                &&& timer_is_live(next, id, answer)
                &&& next.sessions[id].timer_cancel == new_timer
                &&& next.timers == begun.timers
            }
        }),
{
    assert(st.sessions.contains_key(id));
}

/// The model is asked for a first reply only when a discussion begins so.
pub proof fn law_first_replies_begin_discussions(
    st: StateView,
    id: Seq<char>,
    message: Seq<char>,
    now: Instant,
)
    ensures
        session::on_message(st, id, message, now).1 matches StepView::GenerateReply { first, .. }
            ==> {
            &&& first
            &&& !session::starts_over(message)
            &&& st.session(id) is Some
            &&& st.session(id)->0.stage is AwaitingTimeSelection
        },
{
}

/// Whether every timer that was cancelled stays so.
pub open spec fn cancellations_stay(before: StateView, after: StateView) -> bool {
    &&& before.timers.len() <= after.timers.len()
    &&& forall|i: int|
        0 <= i < before.timers.len() && before.timers[i] ==> #[trigger] after.timers[i]
}

/// A timer that was cancelled is never revived.
pub proof fn law_cancelled_timers_stay_cancelled(
    st: StateView,
    id: Seq<char>,
    message: Seq<char>,
    query: Seq<char>,
    again: bool,
    stop: Option<i64>,
    decision: DecisionView,
    first: bool,
    reply: Seq<char>,
    now: Instant,
)
    requires
        st.wf(),
    ensures
        cancellations_stay(st, session::on_message(st, id, message, now).0),
        cancellations_stay(st, session::on_detected(st, id, query, again, stop, now).0),
        cancellations_stay(st, session::on_decision(st, id, again, decision, now).0),
        cancellations_stay(st, session::on_reply(st, id, first, reply, now).0),
{
    assert(st.session(id) is Some ==> st.sessions.contains_key(id));
}

/// A stop of the audio guide only leads to an artwork of the collection that has it.
pub proof fn law_stops_lead_into_the_collection(
    st: StateView,
    id: Seq<char>,
    stop_number: i64,
    now: Instant,
)
    ensures
        session::artwork_of_stop(st.artworks, stop_number) matches Some(a) ==> {
            let after = session::on_stop(st, id, stop_number, now).0.session(id);
            &&& st.artworks.contains(a)
            &&& a.audio_guide_id == Some(stop_number)
            &&& st.session(id) is Some ==> after is Some && after->0.stage
                == (StageView::AwaitingTimeSelection { artwork: a })
        },
        session::artwork_of_stop(st.artworks, stop_number) is None ==> session::on_stop(
            st,
            id,
            stop_number,
            now,
        ).0 == st && forall|i: int|
            0 <= i < st.artworks.len() ==> (#[trigger] st.artworks[i]).audio_guide_id != Some(
                stop_number,
            ),
{
    let pred = |a: ArtworkView| a.audio_guide_id == Some(stop_number);
    matching::lemma_first_where(st.artworks, pred);
    assert forall|i: int| session::artwork_of_stop(st.artworks, stop_number) is None && 0 <= i
        < st.artworks.len() implies (#[trigger] st.artworks[i]).audio_guide_id != Some(
        stop_number,
    ) by {
        assert(!pred(st.artworks[i]));
    }
}

/// Outside a discussion no reply has a time note: what a search or a stop is answered
/// with is shown as it stands in the history.
pub proof fn law_no_time_note_before_a_discussion(
    st: StateView,
    id: Seq<char>,
    reply: Seq<char>,
    now: Instant,
)
    requires
        st.session(id) matches Some(s) ==> !replies::is_discussing(s),
    ensures
        session::settled(st, id, reply, now) == (
            st,
            StepView::Respond(ResponseView::Messages(session::single(reply, true))),
        ),
{
}

/// Every turn comes to an end: a reply of the model, the outcome of a search and a stop
/// that was named are each answered at once.
pub proof fn law_turns_end(
    st: StateView,
    id: Seq<char>,
    again: bool,
    stop_number: i64,
    decision: DecisionView,
    first: bool,
    reply: Seq<char>,
    now: Instant,
)
    ensures
        session::on_stop(st, id, stop_number, now).1 is Respond,
        session::on_decision(st, id, again, decision, now).1 is Respond,
        session::on_reply(st, id, first, reply, now).1 is Respond,
{
}

/// A visitor who asks for a number of minutes gets it, cut to between one and sixty; any
/// other words start a discussion of the default length.
pub proof fn law_time_is_what_was_asked_for(
    st: StateView,
    id: Seq<char>,
    artwork: ArtworkView,
    message: Seq<char>,
    now: Instant,
)
    requires
        !session::starts_over(message),
        st.session(id) is Some,
        st.session(id)->0.stage == (StageView::AwaitingTimeSelection { artwork }),
    ensures
        ({
            let next = session::on_message(st, id, message, now).0;
            &&& next.session(id) matches Some(s)
            &&& s.stage == StageView::DiscussingArtwork { artwork }
            &&& s.started_at == now
            &&& s.countdown_minutes == (match text::parsed_number(text::trimmed(message)) {
                Some(n) => session::clamped_minutes(n),
                None => session::DEFAULT_MINUTES,
            })
            &&& 1 <= s.countdown_minutes <= 60
        }),
{
}

} // verus!
