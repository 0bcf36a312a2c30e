//! Questions to the language model, and what its answers mean.

use vstd::prelude::*;

use crate::config::{Config, ProviderConfig};
use crate::json;
use crate::json::{Json, JsonView, ReplyError};
use crate::matching;
use crate::score::{Score, SIX_TENTHS_BITS, ZERO_BITS};
use crate::text;
use crate::types;
use crate::types::{Artwork, ArtworkDecision, ArtworkView, ChatMessage, ChatMessageView,
    DecisionView, DiscussionIntent, IntentView};

verus! {

// ---------------------------------------------------------------------------
// Questions
// ---------------------------------------------------------------------------

/// A question to the language model.
pub struct ChatRequest {
    pub model: String,
    pub system: String,
    pub user: String,
    /// The temperature of the answer, in tenths.
    pub temperature_tenths: u8,
}

pub struct ChatRequestView {
    pub model: Seq<char>,
    pub system: Seq<char>,
    pub user: Seq<char>,
    pub temperature_tenths: u8,
}

impl View for ChatRequest {
    type V = ChatRequestView;

    open spec fn view(&self) -> ChatRequestView {
        ChatRequestView {
            model: self.model@,
            system: self.system@,
            user: self.user@,
            temperature_tenths: self.temperature_tenths,
        }
    }
}

pub const DETECTOR_PROMPT: &'static str = "You classify whether a museum visitor message refers to an audio guide number. Return strict JSON only in the format {\"is_audio_guide_number\": true|false, \"number\": integer|null, \"confidence\": 0..1, \"reason\": \"short string\"}. If the message clearly refers to a stop/audio/guide number, set true and extract the integer. Otherwise set false.";

pub const RESOLVER_PROMPT: &'static str = "You resolve a museum visitor's description to the best matching artwork from a candidate shortlist. Choose the candidate that best semantically fits the user’s description, even if the wording is indirect. Ignore incidental keyword overlap in unrelated candidates. If one candidate is clearly the famous or direct match, select it. Return strict JSON only in the format {\"matched_id\": integer|null, \"confidence\": 0..1, \"reason\": \"short string\"}. User text: ";

pub const CLASSIFIER_PROMPT_TITLE: &'static str = "You are a tiny classifier for a museum bot. The current selected artwork is titled: ";

pub const CLASSIFIER_PROMPT_HISTORY: &'static str = ". Decide whether the visitor is still discussing this artwork, or whether they are indicating that this is the wrong artwork and providing a new description that should trigger a fresh artwork search. Return strict JSON only in one of these forms: {\"action\":\"reply\"} or {\"action\":\"search_artwork\",\"query\":\"short search query\"}. Use search_artwork only when there is meaningful evidence the visitor is correcting the artwork or describing a different one. Keep query short and based mainly on the latest user message. Conversation history:\n";

pub const COMPANION_PROMPT: &'static str = "You are 10 Minute Art, a calm museum companion. The visitor is standing in front of an artwork for a sustained viewing session. Use the artwork context and conversation history to respond in 2-3 concise paragraphs. Tell the user something interesting they have not already discussed or described, and guide their attention toward fresh details, relationships, emotions, texture, composition, symbolism, or technique. Avoid repeating their own words. Always end your response with a specific question or observation prompt that invites the visitor to look more closely or share what they notice — for example, 'Can you spot the small figure in the lower left corner?' or 'What emotion does the central figure's expression convey to you?' Keep your total response under 1800 characters. Artwork title: ";

pub const OCR_PROMPT: &'static str = "Extract any readable text from the image, and if it appears to be an artwork photo or museum label, briefly describe the visible content in plain text. Return plain text only.";

pub const OCR_REQUEST: &'static str = "Please OCR and describe this image.";

/// A message as a line of a transcript.
pub open spec fn line(m: ChatMessageView) -> Seq<char> {
    m.role + ": "@ + m.content
}

/// A conversation as a transcript.
pub open spec fn lines(history: Seq<ChatMessageView>) -> Seq<char> {
    text::joined(history.map_values(|m: ChatMessageView| line(m)), "\n"@)
}

/// Writes a conversation as a transcript.
pub fn transcript_text(history: &Vec<ChatMessage>) -> (r: String)
    ensures
        r@ == lines(types::transcript(history@)),
{
    let ghost all = types::transcript(history@).map_values(|m: ChatMessageView| line(m));
    let mut out: Vec<String> = Vec::new();
    let mut i: usize = 0;
    while i < history.len()
        invariant
            i <= history@.len(),
            all == types::transcript(history@).map_values(|m: ChatMessageView| line(m)),
            text::views(out@) == all.take(i as int),
        decreases history@.len() - i,
    {
        let mut entry: String = history[i].role.clone();
        entry.append(": ");
        entry.append(history[i].content.as_str());
        let ghost before = out@;
        out.push(entry);
        proof {
            text::lemma_views_push(before, entry);
            assert(entry@ == line(history@[i as int]@));
            assert(all.take(i + 1) =~= all.take(i as int).push(entry@));
        }
        i = i + 1;
    }
    assert(all.take(i as int) =~= all);
    text::join(&out, "\n")
}

/// How much of a description the resolver sees.
pub const EXCERPT_CHARS: usize = 400;

/// The start of a description.
pub open spec fn excerpt(description: Seq<char>) -> Seq<char> {
    if description.len() <= EXCERPT_CHARS {
        description
    } else {
        description.take(EXCERPT_CHARS as int)
    }
}

/// An artwork as a line of a shortlist.
pub open spec fn candidate_line(a: ArtworkView) -> Seq<char> {
    "ID: "@ + text::signed_decimal(a.id as int) + " | Title: "@ + a.official_name
        + " | Description: "@ + excerpt(a.description)
}

/// Candidates as a shortlist.
pub open spec fn shortlist(candidates: Seq<ArtworkView>) -> Seq<char> {
    text::joined(candidates.map_values(|a: ArtworkView| candidate_line(a)), "\n"@)
}

/// Writes candidates as a shortlist.
pub fn shortlist_text(candidates: &Vec<Artwork>) -> (r: String)
    ensures
        r@ == shortlist(types::collection(candidates@)),
{
    let ghost all = types::collection(candidates@).map_values(|a: ArtworkView| candidate_line(a));
    let mut out: Vec<String> = Vec::new();
    let mut i: usize = 0;
    while i < candidates.len()
        invariant
            i <= candidates@.len(),
            all == types::collection(candidates@).map_values(|a: ArtworkView| candidate_line(a)),
            text::views(out@) == all.take(i as int),
        decreases candidates@.len() - i,
    {
        let art: &Artwork = &candidates[i];
        let chars: Vec<char> = text::chars_of(art.description.as_str());
        let end: usize = if chars.len() <= EXCERPT_CHARS {
            chars.len()
        } else {
            EXCERPT_CHARS
        };
        let description: String = text::text_between(&chars, 0, end);
        assert(description@ =~= excerpt(art.description@));
        let mut entry: String = "ID: ".to_owned();
        let id: String = text::signed_decimal_text(art.id);
        entry.append(id.as_str());
        entry.append(" | Title: ");
        entry.append(art.official_name.as_str());
        entry.append(" | Description: ");
        entry.append(description.as_str());
        let ghost before = out@;
        out.push(entry);
        proof {
            text::lemma_views_push(before, entry);
            assert(entry@ == candidate_line(candidates@[i as int]@));
            assert(all.take(i + 1) =~= all.take(i as int).push(entry@));
        }
        i = i + 1;
    }
    assert(all.take(i as int) =~= all);
    text::join(&out, "\n")
}

/// The question whether a message names a stop of the audio guide.
pub open spec fn detector_question(model: Seq<char>, input: Seq<char>) -> ChatRequestView {
    ChatRequestView { model, system: DETECTOR_PROMPT@, user: input, temperature_tenths: 0 }
}

/// Asks whether a message names a stop of the audio guide.
pub fn detector_request(llm: &ProviderConfig, input: &str) -> (r: ChatRequest)
    ensures
        r@ == detector_question(llm.model@, input@),
{
    ChatRequest {
        model: llm.model.clone(),
        system: DETECTOR_PROMPT.to_owned(),
        user: input.to_owned(),
        temperature_tenths: 0,
    }
}

/// The question which of some candidates a description fits best.
pub open spec fn resolver_question(
    model: Seq<char>,
    user_text: Seq<char>,
    candidates: Seq<ArtworkView>,
) -> ChatRequestView {
    ChatRequestView {
        model,
        system: RESOLVER_PROMPT@ + user_text + "\n\nCandidates:\n"@ + shortlist(candidates),
        user: user_text,
        temperature_tenths: 0,
    }
}

/// Asks which of some candidates a description fits best.
pub fn resolver_request(llm: &ProviderConfig, user_text: &str, candidates: &Vec<Artwork>) -> (r:
    ChatRequest)
    ensures
        r@ == resolver_question(llm.model@, user_text@, types::collection(candidates@)),
{
    let mut system: String = RESOLVER_PROMPT.to_owned();
    system.append(user_text);
    system.append("\n\nCandidates:\n");
    let list: String = shortlist_text(candidates);
    system.append(list.as_str());
    ChatRequest {
        model: llm.model.clone(),
        system,
        user: user_text.to_owned(),
        temperature_tenths: 0,
    }
}

/// The question whether the visitor still speaks of the artwork under discussion.
pub open spec fn classifier_question(
    model: Seq<char>,
    artwork: ArtworkView,
    history: Seq<ChatMessageView>,
    user_text: Seq<char>,
) -> ChatRequestView {
    ChatRequestView {
        model,
        system: CLASSIFIER_PROMPT_TITLE@ + artwork.official_name + CLASSIFIER_PROMPT_HISTORY@
            + lines(history),
        user: user_text,
        temperature_tenths: 0,
    }
}

/// Asks whether the visitor still speaks of the artwork under discussion.
pub fn classifier_request(
    llm: &ProviderConfig,
    artwork: &Artwork,
    history: &Vec<ChatMessage>,
    user_text: &str,
) -> (r: ChatRequest)
    ensures
        r@ == classifier_question(
            llm.model@,
            artwork@,
            types::transcript(history@),
            user_text@,
        ),
{
    let mut system: String = CLASSIFIER_PROMPT_TITLE.to_owned();
    system.append(artwork.official_name.as_str());
    system.append(CLASSIFIER_PROMPT_HISTORY);
    let said: String = transcript_text(history);
    system.append(said.as_str());
    ChatRequest {
        model: llm.model.clone(),
        system,
        user: user_text.to_owned(),
        temperature_tenths: 0,
    }
}

/// The question for the next reply in a conversation about an artwork.
pub open spec fn companion_question(
    model: Seq<char>,
    artwork: ArtworkView,
    history: Seq<ChatMessageView>,
) -> ChatRequestView {
    ChatRequestView {
        model,
        system: COMPANION_PROMPT@ + artwork.official_name + ". Full artwork context: "@
            + artwork.description,
        user: lines(history),
        temperature_tenths: 8,
    }
}

/// Asks for the next reply in a conversation about an artwork.
pub fn companion_request(llm: &ProviderConfig, artwork: &Artwork, history: &Vec<ChatMessage>) -> (r:
    ChatRequest)
    ensures
        r@ == companion_question(llm.model@, artwork@, types::transcript(history@)),
{
    let mut system: String = COMPANION_PROMPT.to_owned();
    system.append(artwork.official_name.as_str());
    system.append(". Full artwork context: ");
    system.append(artwork.description.as_str());
    ChatRequest {
        model: llm.model.clone(),
        system,
        user: transcript_text(history),
        temperature_tenths: 8,
    }
}

// ---------------------------------------------------------------------------
// Answers
// ---------------------------------------------------------------------------

/// The answer in JSON that the body of a reply brings.
pub open spec fn answer_in_body(body: Seq<char>) -> Result<JsonView, ReplyError> {
    match json::said_in(body) {
        Err(e) => Err(e),
        Ok(content) => json::answer_in(content),
    }
}

/// The confidence that an answer claims, and none where it claims nothing.
pub open spec fn confidence_in(answer: JsonView) -> Score {
    match json::score_member(answer, "confidence"@) {
        Some(s) => s,
        None => Score { bits: ZERO_BITS },
    }
}

fn confidence_of(answer: &Json) -> (r: Score)
    ensures
        r == confidence_in(answer@),
{
    match answer.get_score("confidence") {
        Some(s) => s,
        None => Score { bits: ZERO_BITS },
    }
}

/// The stop of the audio guide that the detector found: it says that there is one, with
/// a confidence of at least 0.6, and names the number.
pub open spec fn stop_in(answer: JsonView) -> Option<i64> {
    if json::bool_member(answer, "is_audio_guide_number"@) == Some(true) && confidence_in(
        answer,
    ).reaches(Score { bits: SIX_TENTHS_BITS }) {
        json::integer_member(answer, "number"@)
    } else {
        None
    }
}

/// Reads the stop of the audio guide from the answer of the detector.
pub fn detected_stop(answer: &Json) -> (r: Option<i64>)
    ensures
        r == stop_in(answer@),
{
    let is_audio: bool = match answer.get_bool("is_audio_guide_number") {
        Some(b) => b,
        None => false,
    };
    let confidence: Score = confidence_of(answer);
    let number: Option<i64> = answer.get_integer("number");
    if is_audio && confidence.at_least(Score { bits: SIX_TENTHS_BITS }) {
        number
    } else {
        None
    }
}

/// What the body of a reply of the detector says: the stop, or why it says nothing.
pub open spec fn stop_in_body(body: Seq<char>) -> Result<Option<i64>, ReplyError> {
    match answer_in_body(body) {
        Ok(answer) => Ok(stop_in(answer)),
        Err(e) => Err(e),
    }
}

/// Reads the stop of the audio guide from the body of a reply of the detector.
pub fn read_detected_stop(body: &str) -> (r: Result<Option<i64>, ReplyError>)
    ensures
        r == stop_in_body(body@),
{
    match json::read_answer(body) {
        Ok(answer) => Ok(detected_stop(&answer)),
        Err(e) => Err(e),
    }
}

/// How the stop that a message names is found.
pub enum StopLookup {
    /// Without asking.
    Known(Option<i64>),
    /// By asking the detector.
    Ask(ChatRequest),
}

pub enum LookupView {
    Known(Option<i64>),
    Ask(ChatRequestView),
}

impl View for StopLookup {
    type V = LookupView;

    open spec fn view(&self) -> LookupView {
        match self {
            StopLookup::Known(stop) => LookupView::Known(*stop),
            StopLookup::Ask(request) => LookupView::Ask(request@),
        }
    }
}

/// How the stop that a message names is found: there is none where the audio guide is
/// switched off, and the detector is asked otherwise.
pub open spec fn lookup(config: Config, input: Seq<char>) -> LookupView {
    if config.audio_guide.enabled {
        LookupView::Ask(detector_question(config.llm.model@, input))
    } else {
        LookupView::Known(None)
    }
}

/// Starts to find out which stop of the audio guide a message names: none where the
/// audio guide is switched off, and what the detector says otherwise.
pub fn extract_audio_stop_number(config: &Config, input: &str) -> (r: StopLookup)
    ensures
        r@ == lookup(*config, input@),
{
    if !config.audio_guide.enabled {
        return StopLookup::Known(None);
    }
    StopLookup::Ask(detector_request(&config.llm, input))
}

/// The candidate with an identifier.
pub open spec fn candidate_with_id(candidates: Seq<ArtworkView>, id: i64) -> Option<ArtworkView> {
    matching::first_where(candidates, |a: ArtworkView| a.id == id)
}

/// What the answer of the resolver comes to: the candidate that it names is taken,
/// asked about, or dropped, by the confidence.
pub open spec fn resolution(
    answer: JsonView,
    candidates: Seq<ArtworkView>,
    auto_accept: Score,
    confirm: Score,
) -> DecisionView {
    let confidence = confidence_in(answer);
    let rationale = match json::text_member(answer, "reason"@) {
        Some(t) => t,
        None => "no reason provided"@,
    };
    match json::integer_member(answer, "matched_id"@) {
        None => DecisionView::NoMatch,
        Some(id) => match candidate_with_id(candidates, id) {
            None => DecisionView::NoMatch,
            Some(artwork) => if confidence.reaches(auto_accept) {
                DecisionView::AutoAccept { artwork, confidence, rationale }
            } else if confidence.reaches(confirm) {
                DecisionView::NeedsConfirmation { artwork, confidence, rationale }
            } else {
                DecisionView::NoMatch
            },
        },
    }
}

/// Finds the candidate with an identifier.
pub fn find_candidate(candidates: &Vec<Artwork>, id: i64) -> (r: Option<Artwork>)
    ensures
        match r {
            Some(a) => Some(a@),
            None => None,
        } == candidate_with_id(types::collection(candidates@), id),
{
    let ghost list = types::collection(candidates@);
    let ghost pred = |a: ArtworkView| a.id == id;
    let mut i: usize = 0;
    while i < candidates.len()
        invariant
            i <= candidates@.len(),
            list == types::collection(candidates@),
            pred == (|a: ArtworkView| a.id == id),
            forall|k: int| 0 <= k < i ==> !pred(#[trigger] list[k]),
        decreases candidates@.len() - i,
    {
        assert(list[i as int] == candidates@[i as int]@);
        if candidates[i].id == id {
            proof {
                matching::lemma_first_where_at(list, pred, i as int);
            }
            return Some(candidates[i].clone());
        }
        i = i + 1;
    }
    proof {
        matching::lemma_first_where_at(list, pred, i as int);
    }
    None
}

/// Decides on the answer of the resolver.
pub fn resolve_candidates(
    answer: &Json,
    candidates: &Vec<Artwork>,
    auto_accept: Score,
    confirm: Score,
) -> (r: ArtworkDecision)
    ensures
        r@ == resolution(answer@, types::collection(candidates@), auto_accept, confirm),
{
    let confidence: Score = confidence_of(answer);
    let rationale: String = match answer.get_text("reason") {
        Some(t) => t,
        None => "no reason provided".to_owned(),
    };
    match answer.get_integer("matched_id") {
        None => ArtworkDecision::NoMatch,
        Some(id) => match find_candidate(candidates, id) {
            None => ArtworkDecision::NoMatch,
            Some(artwork) => {
                if confidence.at_least(auto_accept) {
                    ArtworkDecision::AutoAccept { artwork, confidence, rationale }
                } else if confidence.at_least(confirm) {
                    ArtworkDecision::NeedsConfirmation { artwork, confidence, rationale }
                } else {
                    ArtworkDecision::NoMatch
                }
            },
        },
    }
}

/// What the body of a reply of the resolver comes to, or why it says nothing.
pub open spec fn resolution_in_body(
    body: Seq<char>,
    candidates: Seq<ArtworkView>,
    auto_accept: Score,
    confirm: Score,
) -> Result<DecisionView, ReplyError> {
    match answer_in_body(body) {
        Ok(answer) => Ok(resolution(answer, candidates, auto_accept, confirm)),
        Err(e) => Err(e),
    }
}

/// Reads the body of a reply of the resolver and decides on it.
pub fn read_resolution(
    body: &str,
    candidates: &Vec<Artwork>,
    auto_accept: Score,
    confirm: Score,
) -> (r: Result<ArtworkDecision, ReplyError>)
    ensures
        match r {
            Ok(d) => Ok(d@),
            Err(e) => Err(e),
        } == resolution_in_body(body@, types::collection(candidates@), auto_accept, confirm),
{
    match json::read_answer(body) {
        Ok(answer) => Ok(resolve_candidates(&answer, candidates, auto_accept, confirm)),
        Err(e) => Err(e),
    }
}

/// The artwork that a decision names.
pub open spec fn chosen(d: DecisionView) -> Option<ArtworkView> {
    match d {
        DecisionView::AutoAccept { artwork, .. } => Some(artwork),
        DecisionView::NeedsConfirmation { artwork, .. } => Some(artwork),
        DecisionView::NoMatch => None,
    }
}

/// The model never brings in an artwork: whatever it answers, the artwork of a decision
/// is one of the candidates, and it is the one whose identifier the answer names.
pub proof fn law_model_chooses_among_candidates(
    answer: JsonView,
    candidates: Seq<ArtworkView>,
    auto_accept: Score,
    confirm: Score,
)
    ensures
        chosen(resolution(answer, candidates, auto_accept, confirm)) matches Some(a)
            ==> candidates.contains(a) && json::integer_member(answer, "matched_id"@) == Some(
            a.id,
        ),
{
    if let Some(id) = json::integer_member(answer, "matched_id"@) {
        matching::lemma_first_where(candidates, |a: ArtworkView| a.id == id);
    }
}

/// A decision by the resolver is as confident as its kind asks for: it is accepted at
/// once only at the upper bound, and never asked about there.
pub proof fn law_confidence_decides(
    answer: JsonView,
    candidates: Seq<ArtworkView>,
    auto_accept: Score,
    confirm: Score,
)
    ensures
        match resolution(answer, candidates, auto_accept, confirm) {
            DecisionView::AutoAccept { confidence, .. } => confidence.reaches(auto_accept),
            DecisionView::NeedsConfirmation { confidence, .. } => confidence.reaches(confirm)
                && !confidence.reaches(auto_accept),
            DecisionView::NoMatch => true,
        },
{
}

/// What the answer of the classifier means: a new search only where it asks for one with
/// a query that is not blank; a missing query is the message itself.
pub open spec fn intent_in(answer: JsonView, user_text: Seq<char>) -> IntentView {
    let query = text::trimmed(
        match json::text_member(answer, "query"@) {
            Some(q) => q,
            None => user_text,
        },
    );
    if json::text_member(answer, "action"@) == Some("search_artwork"@) && query.len() > 0 {
        IntentView::SearchArtwork { query }
    } else {
        IntentView::Reply
    }
}

/// Reads the intent of the visitor from the answer of the classifier.
pub fn discussion_intent(answer: &Json, user_text: &str) -> (r: DiscussionIntent)
    ensures
        r@ == intent_in(answer@, user_text@),
{
    let search: bool = match answer.get_text("action") {
        Some(action) => text::same(action.as_str(), "search_artwork"),
        None => false,
    };
    if search {
        let query: String = match answer.get_text("query") {
            Some(q) => text::trim(q.as_str()),
            None => text::trim(user_text),
        };
        if !query.as_str().is_empty() {
            return DiscussionIntent::SearchArtwork { query };
        }
    }
    DiscussionIntent::Reply
}

/// What the body of a reply of the classifier means, or why it says nothing.
pub open spec fn intent_in_body(body: Seq<char>, user_text: Seq<char>) -> Result<
    IntentView,
    ReplyError,
> {
    match answer_in_body(body) {
        Ok(answer) => Ok(intent_in(answer, user_text)),
        Err(e) => Err(e),
    }
}

/// Reads the intent of the visitor from the body of a reply of the classifier.
pub fn read_intent(body: &str, user_text: &str) -> (r: Result<DiscussionIntent, ReplyError>)
    ensures
        match r {
            Ok(i) => Ok(i@),
            Err(e) => Err(e),
        } == intent_in_body(body@, user_text@),
{
    match json::read_answer(body) {
        Ok(answer) => Ok(discussion_intent(&answer, user_text)),
        Err(e) => Err(e),
    }
}

// ---------------------------------------------------------------------------
// Transcription
// ---------------------------------------------------------------------------

/// Why a transcription cannot be used.
#[derive(Clone, Copy, Debug, PartialEq, Eq, Structural)]
pub enum TranscriptError {
    /// The reply is no JSON.
    Body,
    /// The reply has no text.
    NoText,
}

/// The text of a transcription reply, or why there is none.
pub open spec fn text_in_reply(reply: JsonView) -> Result<Seq<char>, TranscriptError> {
    match json::text_member(reply, "text"@) {
        Some(t) => Ok(t),
        None => Err(TranscriptError::NoText),
    }
}

/// The text in the body of a transcription reply, or why there is none.
pub open spec fn transcript_in_body(body: Seq<char>) -> Result<Seq<char>, TranscriptError> {
    match json::json_of_text(body) {
        Some(reply) => text_in_reply(reply),
        None => Err(TranscriptError::Body),
    }
}

/// Takes the text out of a transcription reply.
pub fn transcribed_text(reply: &Json) -> (r: Result<String, TranscriptError>)
    ensures
        match r {
            Ok(t) => Ok(t@),
            Err(e) => Err(e),
        } == text_in_reply(reply@),
{
    match reply.get_text("text") {
        Some(t) => Ok(t),
        None => Err(TranscriptError::NoText),
    }
}

/// Reads the text from the body of a transcription reply.
pub fn read_transcript(body: &str) -> (r: Result<String, TranscriptError>)
    ensures
        match r {
            Ok(t) => Ok(t@),
            Err(e) => Err(e),
        } == transcript_in_body(body@),
{
    match json::parse_json(body) {
        None => Err(TranscriptError::Body),
        Some(reply) => transcribed_text(&reply),
    }
}

// ---------------------------------------------------------------------------
// What is asked and what answers come to
// ---------------------------------------------------------------------------

/// A transcript has every message of a conversation, in order, each on a line of its own
/// behind the role of who said it: one message is one such line, and two conversations one
/// after the other are their transcripts with a line break between them.
pub proof fn law_transcripts_are_whole(
    a: Seq<ChatMessageView>,
    b: Seq<ChatMessageView>,
    m: ChatMessageView,
)
    ensures
        lines(Seq::empty()) == Seq::<char>::empty(),
        lines(seq![m]) == m.role + ": "@ + m.content,
        a.len() > 0 && b.len() > 0 ==> lines(a + b) == lines(a) + "\n"@ + lines(b),
{
    let f = |m: ChatMessageView| line(m);
    let none = Seq::<ChatMessageView>::empty();
    assert(none.map_values(f) =~= Seq::<Seq<char>>::empty());
    assert(seq![m].map_values(f) =~= seq![line(m)]);
    assert((a + b).map_values(f) =~= a.map_values(f) + b.map_values(f));
    text::law_joining_goes_list_by_list(a.map_values(f), b.map_values(f), line(m), "\n"@);
}

/// The line of a message stands in the transcript of every conversation that holds it, in
/// its place: behind the lines of all messages before it and before those of all behind it.
pub proof fn law_every_message_is_in_the_transcript(history: Seq<ChatMessageView>, i: int)
    requires
        0 <= i < history.len(),
    ensures
        ({
            let m = history[i];
            lines(history) == (if i > 0 {
                lines(history.take(i)) + "\n"@
            } else {
                Seq::<char>::empty()
            }) + (m.role + ": "@ + m.content) + (if i + 1 < history.len() {
                "\n"@ + lines(history.skip(i + 1))
            } else {
                Seq::<char>::empty()
            })
        }),
{
    let m = history[i];
    let a = history.take(i);
    let b = history.skip(i + 1);
    let one = seq![m];
    let empty = Seq::<char>::empty();
    assert(history =~= a + (one + b));
    law_transcripts_are_whole(a, one + b, m);
    law_transcripts_are_whole(one, b, m);
    assert(a.len() == 0 ==> a + (one + b) =~= one + b);
    assert(b.len() == 0 ==> one + b =~= one);
    let l = m.role + ": "@ + m.content;
    if i + 1 < history.len() {
        assert(lines(one + b) =~= l + ("\n"@ + lines(b)));
    } else {
        assert(lines(one + b) =~= l + empty);
    }
    if i == 0 {
        assert(lines(history) == lines(one + b));
        assert(empty + l =~= l);
    } else {
        assert(lines(history) == lines(a) + "\n"@ + lines(one + b));
        assert(lines(a) + "\n"@ + (l + (if i + 1 < history.len() {
            "\n"@ + lines(b)
        } else {
            empty
        })) =~= lines(a) + "\n"@ + l + (if i + 1 < history.len() {
            "\n"@ + lines(b)
        } else {
            empty
        }));
    }
}

/// A shortlist has every candidate, in order, each on a line of its own with its number,
/// its title and its description, of which the first four hundred characters are shown.
pub proof fn law_shortlists_are_whole(
    a: Seq<ArtworkView>,
    b: Seq<ArtworkView>,
    c: ArtworkView,
)
    ensures
        shortlist(Seq::empty()) == Seq::<char>::empty(),
        c.description.len() <= 400 ==> shortlist(seq![c]) == "ID: "@ + text::signed_decimal(
            c.id as int,
        ) + " | Title: "@ + c.official_name + " | Description: "@ + c.description,
        c.description.len() >= 400 ==> shortlist(seq![c]) == "ID: "@ + text::signed_decimal(
            c.id as int,
        ) + " | Title: "@ + c.official_name + " | Description: "@ + c.description.take(400),
        a.len() > 0 && b.len() > 0 ==> shortlist(a + b) == shortlist(a) + "\n"@ + shortlist(b),
{
    let f = |a: ArtworkView| candidate_line(a);
    let none = Seq::<ArtworkView>::empty();
    assert(none.map_values(f) =~= Seq::<Seq<char>>::empty());
    assert(seq![c].map_values(f) =~= seq![candidate_line(c)]);
    assert((a + b).map_values(f) =~= a.map_values(f) + b.map_values(f));
    assert(c.description.take(c.description.len() as int) =~= c.description);
    text::law_joining_goes_list_by_list(
        a.map_values(f),
        b.map_values(f),
        candidate_line(c),
        "\n"@,
    );
}

/// Every question goes to the model that is configured and carries all it is about: the
/// message, the whole shortlist, the whole conversation, the title and the description of
/// the artwork. What decides is asked without play; a reply is written with some.
pub proof fn law_questions_carry_everything(
    model: Seq<char>,
    input: Seq<char>,
    candidates: Seq<ArtworkView>,
    artwork: ArtworkView,
    history: Seq<ChatMessageView>,
)
    ensures
        ({
            let q = detector_question(model, input);
            q.model == model && q.user == input && q.system == DETECTOR_PROMPT@
                && q.temperature_tenths == 0
        }),
        ({
            let q = resolver_question(model, input, candidates);
            q.model == model && q.user == input && q.system == RESOLVER_PROMPT@ + input
                + "\n\nCandidates:\n"@ + shortlist(candidates) && q.temperature_tenths == 0
        }),
        ({
            let q = classifier_question(model, artwork, history, input);
            q.model == model && q.user == input && q.system == CLASSIFIER_PROMPT_TITLE@
                + artwork.official_name + CLASSIFIER_PROMPT_HISTORY@ + lines(history)
                && q.temperature_tenths == 0
        }),
        ({
            let q = companion_question(model, artwork, history);
            q.model == model && q.user == lines(history) && q.system == COMPANION_PROMPT@
                + artwork.official_name + ". Full artwork context: "@ + artwork.description
                && q.temperature_tenths == 8
        }),
{
}

/// The detector is asked whenever the audio guide is switched on, whatever the message, and
/// never otherwise.
pub proof fn law_detector_is_asked_when_enabled(config: Config, input: Seq<char>)
    ensures
        !config.audio_guide.enabled ==> lookup(config, input) == LookupView::Known(None),
        config.audio_guide.enabled ==> lookup(config, input) is Ask && lookup(
            config,
            input,
        )->Ask_0.user == input && lookup(config, input)->Ask_0.model == config.llm.model@
            && lookup(config, input)->Ask_0.system == DETECTOR_PROMPT@,
{
}

/// The detector has found a stop exactly where it says that there is one, claims a
/// confidence of at least 0.6 and names a number; then that number is the stop.
pub proof fn law_detected_stop_is_what_was_named(answer: JsonView, n: i64)
    ensures
        stop_in(answer) == Some(n) <==> {
            &&& json::bool_member(answer, "is_audio_guide_number"@) == Some(true)
            &&& json::score_member(answer, "confidence"@) is Some
            &&& json::score_member(answer, "confidence"@)->0.reaches(
                Score { bits: 0x3fe3_3333_3333_3333 },
            )
            &&& json::integer_member(answer, "number"@) == Some(n)
        },
{
}

/// The resolver is taken at its word. Where it names the number of a candidate, however
/// many there are and wherever that candidate stands, the first candidate with that number
/// is accepted at once if the claimed confidence reaches the upper bound, and asked about if
/// it reaches only the lower; its reason is kept.
pub proof fn law_named_candidate_is_taken(
    answer: JsonView,
    candidates: Seq<ArtworkView>,
    i: int,
    auto_accept: Score,
    confirm: Score,
)
    requires
        0 <= i < candidates.len(),
        json::integer_member(answer, "matched_id"@) == Some(candidates[i].id),
        forall|k: int| 0 <= k < i ==> (#[trigger] candidates[k]).id != candidates[i].id,
    ensures
        ({
            let claimed = json::score_member(answer, "confidence"@);
            let confidence = if claimed is Some {
                claimed->0
            } else {
                Score { bits: 0 }
            };
            let rationale = match json::text_member(answer, "reason"@) {
                Some(t) => t,
                None => "no reason provided"@,
            };
            let decision = resolution(answer, candidates, auto_accept, confirm);
            &&& confidence.reaches(auto_accept) ==> decision == (DecisionView::AutoAccept {
                artwork: candidates[i],
                confidence,
                rationale,
            })
            &&& !confidence.reaches(auto_accept) && confidence.reaches(confirm) ==> decision == (
            DecisionView::NeedsConfirmation { artwork: candidates[i], confidence, rationale })
            &&& !confidence.reaches(auto_accept) && !confidence.reaches(confirm) ==> decision
                == DecisionView::NoMatch
        }),
{
    let id = candidates[i].id;
    matching::lemma_first_where_at(candidates, |a: ArtworkView| a.id == id, i);
}

/// There is no match exactly where the resolver names no candidate, or claims a confidence
/// that reaches neither bound.
pub proof fn law_no_match_only_without_a_candidate(
    answer: JsonView,
    candidates: Seq<ArtworkView>,
    auto_accept: Score,
    confirm: Score,
)
    ensures
        resolution(answer, candidates, auto_accept, confirm) == DecisionView::NoMatch <==> {
            let claimed = json::score_member(answer, "confidence"@);
            let confidence = if claimed is Some {
                claimed->0
            } else {
                Score { bits: 0 }
            };
            ||| !confidence.reaches(auto_accept) && !confidence.reaches(confirm)
            ||| forall|k: int|
                0 <= k < candidates.len() ==> json::integer_member(answer, "matched_id"@) != Some(
                    (#[trigger] candidates[k]).id,
                )
        },
{
    match json::integer_member(answer, "matched_id"@) {
        None => {},
        Some(id) => {
            let pred = |a: ArtworkView| a.id == id;
            matching::lemma_first_where(candidates, pred);
            if candidate_with_id(candidates, id) is None {
                assert forall|k: int| 0 <= k < candidates.len() implies Some(id) != Some(
                    (#[trigger] candidates[k]).id,
                ) by {
                    assert(!pred(candidates[k]));
                }
            } else {
                let a = candidate_with_id(candidates, id)->0;
                let k = choose|k: int| 0 <= k < candidates.len() && candidates[k] == a;
                assert(candidates[k].id == id);
            }
        },
    }
}

/// A new search is made exactly where the classifier asks for one and there is something to
/// search for: its query, or the message where it gives none, without the white space round
/// it. In every other case the visitor gets a reply.
pub proof fn law_search_is_what_was_asked_for(answer: JsonView, user_text: Seq<char>)
    ensures
        ({
            let asked = json::text_member(answer, "action"@) == Some("search_artwork"@);
            let given = json::text_member(answer, "query"@);
            let intent = intent_in(answer, user_text);
            &&& asked && given is Some && text::trimmed(given->0).len() > 0 ==> intent == (
            IntentView::SearchArtwork { query: text::trimmed(given->0) })
            &&& asked && given is None && text::trimmed(user_text).len() > 0 ==> intent == (
            IntentView::SearchArtwork { query: text::trimmed(user_text) })
            &&& !asked ==> intent == IntentView::Reply
            &&& given is Some && text::trimmed(given->0).len() == 0 ==> intent == IntentView::Reply
            &&& given is None && text::trimmed(user_text).len() == 0 ==> intent
                == IntentView::Reply
        }),
{
}

/// The bodies of replies are read by the answers in them: each comes to what its answer
/// comes to, and to the same error where there is no answer.
pub proof fn law_bodies_come_to_their_answers(
    body: Seq<char>,
    candidates: Seq<ArtworkView>,
    auto_accept: Score,
    confirm: Score,
    user_text: Seq<char>,
)
    ensures
        match json::said_in(body) {
            Err(e) => {
                &&& stop_in_body(body) == Err::<Option<i64>, ReplyError>(e)
                &&& resolution_in_body(body, candidates, auto_accept, confirm) == Err::<
                    DecisionView,
                    ReplyError,
                >(e)
                &&& intent_in_body(body, user_text) == Err::<IntentView, ReplyError>(e)
            },
            Ok(content) => match json::answer_in(content) {
                Err(e) => {
                    &&& stop_in_body(body) == Err::<Option<i64>, ReplyError>(e)
                    &&& resolution_in_body(body, candidates, auto_accept, confirm) == Err::<
                        DecisionView,
                        ReplyError,
                    >(e)
                    &&& intent_in_body(body, user_text) == Err::<IntentView, ReplyError>(e)
                },
                Ok(answer) => {
                    &&& stop_in_body(body) == Ok::<Option<i64>, ReplyError>(stop_in(answer))
                    &&& resolution_in_body(body, candidates, auto_accept, confirm) == Ok::<
                        DecisionView,
                        ReplyError,
                    >(resolution(answer, candidates, auto_accept, confirm))
                    &&& intent_in_body(body, user_text) == Ok::<IntentView, ReplyError>(
                        intent_in(answer, user_text),
                    )
                },
            },
        },
{
}

/// A transcription is the text that the reply has under `text`; there is none exactly where
/// the reply is no JSON or has no text there.
pub proof fn law_transcription_is_the_text(body: Seq<char>, t: Seq<char>)
    ensures
        transcript_in_body(body) == Ok::<Seq<char>, TranscriptError>(t) <==> {
            &&& json::json_of_text(body) is Some
            &&& json::text_member(json::json_of_text(body)->0, "text"@) == Some(t)
        },
        transcript_in_body(body) == Err::<Seq<char>, TranscriptError>(TranscriptError::Body)
            <==> json::json_of_text(body) is None,
{
}

} // verus!
