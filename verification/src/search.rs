//! The search for the artwork that a visitor describes.
//!
//! A search goes by the embedding of the description first, where the companion was
//! built for it, then by the words of the description, and last by asking the model
//! which of several candidates fits. Each step is answered by the next function.

use vstd::prelude::*;

use crate::config::{Config, EmbeddingConfig, ProviderConfig};
use crate::json;
use crate::json::{Json, JsonNumber, JsonView};
use crate::llm;
use crate::llm::{ChatRequest, ChatRequestView};
use crate::matching;
use crate::replies::SearchModes;
use crate::score::{Score, ONE_BITS, ZERO_BITS};
use crate::text;
use crate::types;
use crate::types::{Artwork, ArtworkDecision, ArtworkView, DecisionView};

verus! {

// ---------------------------------------------------------------------------
// Embeddings
// ---------------------------------------------------------------------------

/// A request for the embedding of a text.
pub struct EmbeddingRequest {
    pub model: String,
    pub input: String,
    pub dimensions: usize,
}

pub struct EmbeddingRequestView {
    pub model: Seq<char>,
    pub input: Seq<char>,
    pub dimensions: usize,
}

impl View for EmbeddingRequest {
    type V = EmbeddingRequestView;

    open spec fn view(&self) -> EmbeddingRequestView {
        EmbeddingRequestView {
            model: self.model@,
            input: self.input@,
            dimensions: self.dimensions,
        }
    }
}

/// The request for the embedding of a text.
pub open spec fn embedding_question(embedding: EmbeddingConfig, input: Seq<char>) -> EmbeddingRequestView {
    EmbeddingRequestView { model: embedding.model@, input, dimensions: embedding.dimensions }
}

/// Asks for the embedding of a text.
pub fn embedding_request(embedding: &EmbeddingConfig, input: &str) -> (r: EmbeddingRequest)
    ensures
        r@ == embedding_question(*embedding, input@),
{
    EmbeddingRequest {
        model: embedding.model.clone(),
        input: input.to_owned(),
        dimensions: embedding.dimensions,
    }
}

/// The coordinate that a number stands for; anything else counts as zero.
pub open spec fn coordinate(v: JsonView) -> Score {
    match v {
        JsonView::Number(n) => match n.float {
            Some(s) => s,
            None => Score { bits: ZERO_BITS },
        },
        _ => Score { bits: ZERO_BITS },
    }
}

/// The vector of the first entry of an embedding reply.
pub open spec fn vector_in(reply: JsonView) -> Option<Seq<Score>> {
    match json::array_member(reply, "data"@) {
        Some(data) => if data.len() > 0 {
            match json::array_member(data[0], "embedding"@) {
                Some(items) => Some(items.map_values(|v: JsonView| coordinate(v))),
                None => None,
            }
        } else {
            None
        },
        None => None,
    }
}

/// Why an embedding cannot be used.
#[derive(Clone, Copy, Debug, PartialEq, Eq, Structural)]
pub enum EmbeddingError {
    /// The reply is no JSON.
    Body,
    /// The reply holds no vector.
    NoVector,
    /// The vector has another number of coordinates than the collection.
    Dimensions { expected: usize, got: usize },
}

/// The vector of a reply, if it has as many coordinates as expected.
pub open spec fn embedding_in(reply: JsonView, dimensions: usize) -> Result<
    Seq<Score>,
    EmbeddingError,
> {
    match vector_in(reply) {
        None => Err(EmbeddingError::NoVector),
        Some(v) => if v.len() != dimensions {
            Err(EmbeddingError::Dimensions { expected: dimensions, got: v.len() as usize })
        } else {
            Ok(v)
        },
    }
}

/// Takes the vector out of an embedding reply.
pub fn embedding_vector(reply: &Json, dimensions: usize) -> (r: Result<Vec<Score>, EmbeddingError>)
    ensures
        match r {
            Ok(v) => Ok(v@),
            Err(e) => Err(e),
        } == embedding_in(reply@, dimensions),
{
    let data: &Vec<Json> = match reply.get_array("data") {
        Some(d) => d,
        None => {
            return Err(EmbeddingError::NoVector);
        },
    };
    if data.len() == 0 {
        return Err(EmbeddingError::NoVector);
    }
    let items: &Vec<Json> = match data[0].get_array("embedding") {
        Some(v) => v,
        None => {
            return Err(EmbeddingError::NoVector);
        },
    };
    let ghost all = json::values_of(items@).map_values(|v: JsonView| coordinate(v));
    let mut out: Vec<Score> = Vec::new();
    let mut i: usize = 0;
    while i < items.len()
        invariant
            i <= items@.len(),
            all == json::values_of(items@).map_values(|v: JsonView| coordinate(v)),
            out@ == all.take(i as int),
        decreases items@.len() - i,
    {
        let c: Score = match &items[i] {
            Json::Number(n) => match n.float {
                Some(s) => s,
                None => Score { bits: ZERO_BITS },
            },
            _ => Score { bits: ZERO_BITS },
        };
        out.push(c);
        assert(all[i as int] == coordinate(items@[i as int]@));
        assert(all.take(i + 1) =~= all.take(i as int).push(c));
        i = i + 1;
    }
    assert(all.take(i as int) =~= all);
    if out.len() != dimensions {
        return Err(EmbeddingError::Dimensions { expected: dimensions, got: out.len() });
    }
    Ok(out)
}

/// The vector in the body of a reply, or why there is none.
pub open spec fn embedding_in_body(body: Seq<char>, dimensions: usize) -> Result<
    Seq<Score>,
    EmbeddingError,
> {
    match json::json_of_text(body) {
        None => Err(EmbeddingError::Body),
        Some(reply) => embedding_in(reply, dimensions),
    }
}

/// Reads the vector from the body of an embedding reply.
pub fn read_embedding(body: &str, dimensions: usize) -> (r: Result<Vec<Score>, EmbeddingError>)
    ensures
        match r {
            Ok(v) => Ok(v@),
            Err(e) => Err(e),
        } == embedding_in_body(body@, dimensions),
{
    match json::parse_json(body) {
        None => Err(EmbeddingError::Body),
        Some(reply) => embedding_vector(&reply, dimensions),
    }
}

// ---------------------------------------------------------------------------
// Steps of a search
// ---------------------------------------------------------------------------

/// What comes next in a search.
pub enum SearchStep {
    /// The search is over.
    Done(ArtworkDecision),
    /// The description gets its embedding, and the nearest artwork goes to
    /// `after_embedding`.
    Embed(EmbeddingRequest),
    /// The collection is searched for any of some words; what is found goes to
    /// `after_words`.
    Words(String),
    /// The model chooses among candidates.
    Resolve { candidates: Vec<Artwork>, request: ChatRequest },
}

pub enum SearchStepView {
    Done(DecisionView),
    Embed(EmbeddingRequestView),
    Words(Seq<char>),
    Resolve { candidates: Seq<ArtworkView>, request: ChatRequestView },
}

impl View for SearchStep {
    type V = SearchStepView;

    open spec fn view(&self) -> SearchStepView {
        match self {
            SearchStep::Done(d) => SearchStepView::Done(d@),
            SearchStep::Embed(r) => SearchStepView::Embed(r@),
            SearchStep::Words(q) => SearchStepView::Words(q@),
            SearchStep::Resolve { candidates, request } => SearchStepView::Resolve {
                candidates: types::collection(candidates@),
                request: request@,
            },
        }
    }
}

/// How many artworks a search by words or by embedding brings at most.
pub const SHORTLIST_SIZE: usize = 10;

/// The words that a description is searched by.
pub open spec fn words_step(user_text: Seq<char>) -> SearchStepView {
    SearchStepView::Words(matching::fts_query(matching::normalized(user_text)))
}

/// The first step of a search: by embedding, unless the companion was not built for that
/// or there is nothing but white space to embed.
pub open spec fn first_step(embedding: EmbeddingConfig, modes: SearchModes, user_text: Seq<char>) -> SearchStepView {
    if modes.image && text::trimmed(user_text).len() > 0 {
        SearchStepView::Embed(embedding_question(embedding, user_text))
    } else {
        words_step(user_text)
    }
}

/// Starts a search: by embedding, unless the companion was not built for that or there is
/// nothing but white space to embed.
pub fn begin_search(config: &Config, modes: SearchModes, user_text: &str) -> (r: SearchStep)
    ensures
        r@ == first_step(config.embedding, modes, user_text@),
{
    if modes.image && !text::trim(user_text).as_str().is_empty() {
        SearchStep::Embed(embedding_request(&config.embedding, user_text))
    } else {
        SearchStep::Words(matching::build_fts_query(user_text))
    }
}

/// What a search by embedding comes to: the nearest artwork is taken if it reaches the
/// configured score, and the words are searched otherwise.
pub open spec fn embedding_outcome(
    nearest: Option<(ArtworkView, Score)>,
    rationale: Seq<char>,
    min_match_score: Score,
    user_text: Seq<char>,
) -> SearchStepView {
    match nearest {
        Some((artwork, score)) => if score.reaches(min_match_score) {
            SearchStepView::Done(
                DecisionView::AutoAccept { artwork, confidence: score, rationale },
            )
        } else {
            words_step(user_text)
        },
        None => words_step(user_text),
    }
}

/// The nearest artwork of a collection, by its view.
pub open spec fn nearest_view(nearest: Option<(Artwork, Score)>) -> Option<(ArtworkView, Score)> {
    match nearest {
        Some((artwork, score)) => Some((artwork@, score)),
        None => None,
    }
}

/// Goes on after the search by embedding: the nearest artwork is taken if it reaches the
/// configured score, and the words are searched otherwise.
pub fn after_embedding(
    nearest: Option<(Artwork, Score)>,
    rationale: String,
    min_match_score: Score,
    user_text: &str,
) -> (r: SearchStep)
    ensures
        r@ == embedding_outcome(
            nearest_view(nearest),
            rationale@,
            min_match_score,
            user_text@,
        ),
{
    if let Some((artwork, score)) = nearest {
        if score.at_least(min_match_score) {
            return SearchStep::Done(
                ArtworkDecision::AutoAccept { artwork, confidence: score, rationale },
            );
        }
    }
    SearchStep::Words(matching::build_fts_query(user_text))
}

/// What a search by words comes to: nothing found is no match, a single candidate is
/// taken, and of several the model chooses.
pub open spec fn words_outcome(
    candidates: Seq<ArtworkView>,
    model: Seq<char>,
    user_text: Seq<char>,
) -> SearchStepView {
    if candidates.len() == 0 {
        SearchStepView::Done(DecisionView::NoMatch)
    } else if candidates.len() == 1 {
        SearchStepView::Done(
            DecisionView::AutoAccept {
                artwork: candidates[0],
                confidence: Score { bits: ONE_BITS },
                rationale: "single FTS candidate"@,
            },
        )
    } else {
        SearchStepView::Resolve {
            candidates,
            request: llm::resolver_question(model, user_text, candidates),
        }
    }
}

/// Goes on after the search by words.
pub fn after_words(candidates: Vec<Artwork>, llm: &ProviderConfig, user_text: &str) -> (r:
    SearchStep)
    ensures
        r@ == words_outcome(types::collection(candidates@), llm.model@, user_text@),
{
    if candidates.len() == 0 {
        return SearchStep::Done(ArtworkDecision::NoMatch);
    }
    if candidates.len() == 1 {
        return SearchStep::Done(
            ArtworkDecision::AutoAccept {
                artwork: candidates[0].clone(),
                confidence: Score { bits: ONE_BITS },
                rationale: "single FTS candidate".to_owned(),
            },
        );
    }
    let request: ChatRequest = llm::resolver_request(llm, user_text, &candidates);
    SearchStep::Resolve { candidates, request }
}

/// The model is asked only where there is something to choose: a search by words is over
/// at once with fewer than two candidates, and what it then takes is the one that was
/// found.
pub proof fn law_model_is_asked_only_to_choose(
    candidates: Seq<ArtworkView>,
    model: Seq<char>,
    user_text: Seq<char>,
)
    ensures
        words_outcome(candidates, model, user_text) is Resolve <==> candidates.len() >= 2,
        words_outcome(candidates, model, user_text) matches SearchStepView::Done(d)
            ==> llm::chosen(d) == (if candidates.len() == 1 {
            Some(candidates[0])
        } else {
            None
        }),
{
}

/// Every coordinate of a vector is the number that stands in its place, and zero where no
/// number does.
pub proof fn law_vectors_are_read_in_place(
    reply: JsonView,
    data: Seq<JsonView>,
    items: Seq<JsonView>,
    i: int,
)
    requires
        json::array_member(reply, "data"@) == Some(data),
        data.len() > 0,
        json::array_member(data[0], "embedding"@) == Some(items),
    ensures
        vector_in(reply) is Some,
        vector_in(reply)->0.len() == items.len(),
        0 <= i < items.len() ==> match items[i] {
            JsonView::Number(JsonNumber { float: Some(s), .. }) => vector_in(reply)->0[i] == s,
            _ => vector_in(reply)->0[i].bits == 0,
        },
{
}

/// An embedding is used exactly where the reply is JSON, its first entry has a vector, and
/// that vector has as many coordinates as the collection's.
pub proof fn law_embeddings_fit_the_collection(body: Seq<char>, dimensions: usize)
    ensures
        ({
            let r = embedding_in_body(body, dimensions);
            match json::json_of_text(body) {
                None => r == Err::<Seq<Score>, EmbeddingError>(EmbeddingError::Body),
                Some(reply) => match vector_in(reply) {
                    None => r == Err::<Seq<Score>, EmbeddingError>(EmbeddingError::NoVector),
                    Some(v) => {
                        &&& v.len() == dimensions ==> r == Ok::<Seq<Score>, EmbeddingError>(v)
                        &&& v.len() != dimensions ==> r is Err && r->Err_0 is Dimensions
                            && r->Err_0->expected == dimensions && (v.len() <= usize::MAX
                            ==> r->Err_0->got == v.len())
                    },
                },
            }
        }),
        forall|reply: JsonView| #[trigger] vector_in(reply) is Some ==> json::array_member(reply, "data"@) is Some
            && json::array_member(reply, "data"@)->0.len() > 0 && json::array_member(
            json::array_member(reply, "data"@)->0[0],
            "embedding"@,
        ) is Some,
{
}

/// A search goes by the embedding of the whole description exactly where the companion was
/// built for it and the description is not blank; otherwise, and where the nearest artwork
/// does not reach the configured score, it goes by the words of the description. An artwork
/// that does reach it is taken without asking.
pub proof fn law_searches_go_by_embedding_first(
    embedding: EmbeddingConfig,
    modes: SearchModes,
    user_text: Seq<char>,
    artwork: ArtworkView,
    score: Score,
    rationale: Seq<char>,
    min_match_score: Score,
)
    ensures
        modes.image && !text::is_blank(user_text) ==> first_step(embedding, modes, user_text) == (
        SearchStepView::Embed(
            EmbeddingRequestView {
                model: embedding.model@,
                input: user_text,
                dimensions: embedding.dimensions,
            },
        )),
        !modes.image || text::is_blank(user_text) ==> first_step(embedding, modes, user_text)
            == SearchStepView::Words(matching::fts_query(matching::normalized(user_text))),
        score.reaches(min_match_score) ==> embedding_outcome(
            Some((artwork, score)),
            rationale,
            min_match_score,
            user_text,
        ) == SearchStepView::Done(
            DecisionView::AutoAccept { artwork, confidence: score, rationale },
        ),
        !score.reaches(min_match_score) ==> embedding_outcome(
            Some((artwork, score)),
            rationale,
            min_match_score,
            user_text,
        ) == SearchStepView::Words(matching::fts_query(matching::normalized(user_text))),
        embedding_outcome(None, rationale, min_match_score, user_text) == SearchStepView::Words(
            matching::fts_query(matching::normalized(user_text)),
        ),
{
    text::law_blank_is_what_trims_away(user_text);
}

/// Of several candidates the model is shown every one, with the whole description; a single
/// one is taken for certain. A search brings ten at most.
pub proof fn law_all_candidates_are_shown(
    candidates: Seq<ArtworkView>,
    model: Seq<char>,
    user_text: Seq<char>,
)
    ensures
        candidates.len() >= 2 ==> words_outcome(candidates, model, user_text) == (
        SearchStepView::Resolve {
            candidates,
            request: llm::resolver_question(model, user_text, candidates),
        }),
        candidates.len() == 1 ==> words_outcome(candidates, model, user_text)
            == SearchStepView::Done(
            DecisionView::AutoAccept {
                artwork: candidates[0],
                confidence: Score { bits: 0x3ff0_0000_0000_0000 },
                rationale: "single FTS candidate"@,
            },
        ),
        candidates.len() == 0 ==> words_outcome(candidates, model, user_text)
            == SearchStepView::Done(DecisionView::NoMatch),
        SHORTLIST_SIZE == 10,
{
}

/// The nearest artwork goes into the decision with its own score.
pub proof fn law_nearest_is_seen_with_its_score(artwork: Artwork, score: Score)
    ensures
        nearest_view(Some((artwork, score))) == Some((artwork@, score)),
        nearest_view(None) is None,
{
}

} // verus!
