//! Artworks, conversations and the messages in them.
//!
//! Each type that holds text has a view in which the text is a sequence of
//! characters; the contracts speak of the views.

use vstd::prelude::*;

use crate::clock::Instant;
use crate::score::Score;

verus! {

/// An artwork of the collection.
#[derive(Debug)]
pub struct Artwork {
    pub id: i64,
    pub audio_guide_id: Option<i64>,
    pub official_name: String,
    pub description: String,
    pub description_level: i64,
    pub is_highlight: bool,
    pub gallery_number: String,
}

pub struct ArtworkView {
    pub id: i64,
    pub audio_guide_id: Option<i64>,
    pub official_name: Seq<char>,
    pub description: Seq<char>,
    pub description_level: i64,
    pub is_highlight: bool,
    pub gallery_number: Seq<char>,
}

impl View for Artwork {
    type V = ArtworkView;

    open spec fn view(&self) -> ArtworkView {
        ArtworkView {
            id: self.id,
            audio_guide_id: self.audio_guide_id,
            official_name: self.official_name@,
            description: self.description@,
            description_level: self.description_level,
            is_highlight: self.is_highlight,
            gallery_number: self.gallery_number@,
        }
    }
}

impl Clone for Artwork {
    fn clone(&self) -> (r: Self)
        ensures
            r == *self,
    {
        Artwork {
            id: self.id,
            audio_guide_id: self.audio_guide_id,
            official_name: self.official_name.clone(),
            description: self.description.clone(),
            description_level: self.description_level,
            is_highlight: self.is_highlight,
            gallery_number: self.gallery_number.clone(),
        }
    }
}

/// The views of a list of artworks.
pub open spec fn collection(list: Seq<Artwork>) -> Seq<ArtworkView> {
    list.map_values(|a: Artwork| a@)
}

/// The artwork of a row of the database.
pub open spec fn row_artwork(
    id: i64,
    audio_guide_id: Option<i64>,
    official_name: Seq<char>,
    description: Seq<char>,
    description_level: i64,
    highlight: Option<i64>,
    gallery: Option<String>,
) -> ArtworkView {
    ArtworkView {
        id,
        audio_guide_id,
        official_name,
        description,
        description_level,
        is_highlight: highlight is Some && highlight->0 != 0,
        gallery_number: text_or_empty(gallery),
    }
}

/// Puts an artwork together from a row of the database. Rows from before the last two
/// columns were added count as no highlight, in no known gallery.
pub fn artwork_from_row(
    id: i64,
    audio_guide_id: Option<i64>,
    official_name: String,
    description: String,
    description_level: i64,
    highlight: Option<i64>,
    gallery: Option<String>,
) -> (r: Artwork)
    ensures
        r@ == row_artwork(
            id,
            audio_guide_id,
            official_name@,
            description@,
            description_level,
            highlight,
            gallery,
        ),
{
    Artwork {
        id,
        audio_guide_id,
        official_name,
        description,
        description_level,
        is_highlight: match highlight {
            Some(n) => n != 0,
            None => false,
        },
        gallery_number: match gallery {
            Some(g) => g,
            None => String::new(),
        },
    }
}

/// Where a conversation stands.
#[derive(Debug)]
pub enum SessionStage {
    WaitingForArtwork,
    AwaitingConfirmation { artwork: Artwork },
    AwaitingTimeSelection { artwork: Artwork },
    DiscussingArtwork { artwork: Artwork },
}

pub enum StageView {
    WaitingForArtwork,
    AwaitingConfirmation { artwork: ArtworkView },
    AwaitingTimeSelection { artwork: ArtworkView },
    DiscussingArtwork { artwork: ArtworkView },
}

impl View for SessionStage {
    type V = StageView;

    open spec fn view(&self) -> StageView {
        match self {
            SessionStage::WaitingForArtwork => StageView::WaitingForArtwork,
            SessionStage::AwaitingConfirmation { artwork } => StageView::AwaitingConfirmation {
                artwork: artwork@,
            },
            SessionStage::AwaitingTimeSelection { artwork } => StageView::AwaitingTimeSelection {
                artwork: artwork@,
            },
            SessionStage::DiscussingArtwork { artwork } => StageView::DiscussingArtwork {
                artwork: artwork@,
            },
        }
    }
}

impl Clone for SessionStage {
    fn clone(&self) -> (r: Self)
        ensures
            r == *self,
    {
        match self {
            SessionStage::WaitingForArtwork => SessionStage::WaitingForArtwork,
            SessionStage::AwaitingConfirmation { artwork } => SessionStage::AwaitingConfirmation {
                artwork: artwork.clone(),
            },
            SessionStage::AwaitingTimeSelection { artwork } => SessionStage::AwaitingTimeSelection {
                artwork: artwork.clone(),
            },
            SessionStage::DiscussingArtwork { artwork } => SessionStage::DiscussingArtwork {
                artwork: artwork.clone(),
            },
        }
    }
}

/// One message of a conversation.
#[derive(Debug)]
pub struct ChatMessage {
    pub role: String,
    pub content: String,
}

pub struct ChatMessageView {
    pub role: Seq<char>,
    pub content: Seq<char>,
}

impl View for ChatMessage {
    type V = ChatMessageView;

    open spec fn view(&self) -> ChatMessageView {
        ChatMessageView { role: self.role@, content: self.content@ }
    }
}

impl Clone for ChatMessage {
    fn clone(&self) -> (r: Self)
        ensures
            r == *self,
    {
        ChatMessage { role: self.role.clone(), content: self.content.clone() }
    }
}

/// The views of a list of messages.
pub open spec fn transcript(list: Seq<ChatMessage>) -> Seq<ChatMessageView> {
    list.map_values(|m: ChatMessage| m@)
}

/// Copies a list of messages from position `from` on.
pub fn messages_from(list: &Vec<ChatMessage>, from: usize) -> (r: Vec<ChatMessage>)
    requires
        from <= list@.len(),
    ensures
        transcript(r@) == transcript(list@).skip(from as int),
{
    let mut out: Vec<ChatMessage> = Vec::new();
    let mut i: usize = from;
    while i < list.len()
        invariant
            from <= i <= list@.len(),
            out@ == list@.subrange(from as int, i as int),
        decreases list@.len() - i,
    {
        out.push(list[i].clone());
        i = i + 1;
        assert(list@.subrange(from as int, i as int) =~= list@.subrange(from as int, i - 1).push(
            list@[i - 1],
        ));
    }
    assert(transcript(out@) =~= transcript(list@).skip(from as int));
    out
}

/// A conversation.
#[derive(Debug)]
pub struct UserSession {
    pub stage: SessionStage,
    pub history: Vec<ChatMessage>,
    pub started_at: Instant,
    pub countdown_minutes: u64,
    /// Which of the timers of the companion runs for this conversation.
    pub timer_cancel: usize,
    pub rejected_artwork_ids: Vec<i64>,
}

pub struct SessionView {
    pub stage: StageView,
    pub history: Seq<ChatMessageView>,
    pub started_at: Instant,
    pub countdown_minutes: u64,
    pub timer_cancel: nat,
    pub rejected_artwork_ids: Seq<i64>,
}

impl View for UserSession {
    type V = SessionView;

    open spec fn view(&self) -> SessionView {
        SessionView {
            stage: self.stage@,
            history: transcript(self.history@),
            started_at: self.started_at,
            countdown_minutes: self.countdown_minutes,
            timer_cancel: self.timer_cancel as nat,
            rejected_artwork_ids: self.rejected_artwork_ids@,
        }
    }
}

impl Clone for UserSession {
    fn clone(&self) -> (r: Self)
        ensures
            r@ == self@,
    {
        let history: Vec<ChatMessage> = messages_from(&self.history, 0);
        assert(transcript(self.history@).skip(0) =~= transcript(self.history@));
        let mut rejected: Vec<i64> = Vec::new();
        let mut i: usize = 0;
        while i < self.rejected_artwork_ids.len()
            invariant
                i <= self.rejected_artwork_ids@.len(),
                rejected@ == self.rejected_artwork_ids@.take(i as int),
            decreases self.rejected_artwork_ids@.len() - i,
        {
            rejected.push(self.rejected_artwork_ids[i]);
            i = i + 1;
            assert(self.rejected_artwork_ids@.take(i as int) =~= self.rejected_artwork_ids@.take(
                i - 1,
            ).push(self.rejected_artwork_ids@[i - 1]));
        }
        assert(rejected@ =~= self.rejected_artwork_ids@);
        UserSession {
            stage: self.stage.clone(),
            history,
            started_at: self.started_at,
            countdown_minutes: self.countdown_minutes,
            timer_cancel: self.timer_cancel,
            rejected_artwork_ids: rejected,
        }
    }
}

/// A stop of an audio guide.
#[derive(Clone, Debug)]
pub struct AudioGuideStop {
    pub stop_number: i64,
    pub title: String,
    pub transcript: String,
}

/// What a search for an artwork came to.
#[derive(Debug)]
pub enum ArtworkDecision {
    AutoAccept { artwork: Artwork, confidence: Score, rationale: String },
    NeedsConfirmation { artwork: Artwork, confidence: Score, rationale: String },
    NoMatch,
}

pub enum DecisionView {
    AutoAccept { artwork: ArtworkView, confidence: Score, rationale: Seq<char> },
    NeedsConfirmation { artwork: ArtworkView, confidence: Score, rationale: Seq<char> },
    NoMatch,
}

impl View for ArtworkDecision {
    type V = DecisionView;

    open spec fn view(&self) -> DecisionView {
        match self {
            ArtworkDecision::AutoAccept { artwork, confidence, rationale } => {
                DecisionView::AutoAccept {
                    artwork: artwork@,
                    confidence: *confidence,
                    rationale: rationale@,
                }
            },
            ArtworkDecision::NeedsConfirmation { artwork, confidence, rationale } => {
                DecisionView::NeedsConfirmation {
                    artwork: artwork@,
                    confidence: *confidence,
                    rationale: rationale@,
                }
            },
            ArtworkDecision::NoMatch => DecisionView::NoMatch,
        }
    }
}

/// What a visitor wants while an artwork is discussed.
#[derive(Clone, Debug)]
pub enum DiscussionIntent {
    Reply,
    SearchArtwork { query: String },
}

pub enum IntentView {
    Reply,
    SearchArtwork { query: Seq<char> },
}

impl View for DiscussionIntent {
    type V = IntentView;

    open spec fn view(&self) -> IntentView {
        match self {
            DiscussionIntent::Reply => IntentView::Reply,
            DiscussionIntent::SearchArtwork { query } => IntentView::SearchArtwork { query: query@ },
        }
    }
}

/// In what form a message came.
#[derive(Clone, Copy, Debug, PartialEq, Eq, Structural)]
pub enum IncomingKind {
    Text,
    Voice,
    Image,
}

/// A message from a visitor, brought to text.
#[derive(Clone, Debug)]
pub struct IncomingMessage {
    pub platform: &'static str,
    pub conversation_id: String,
    pub reply_target: String,
    pub text: Option<String>,
    /// The file of a voice message.
    pub voice_file: Option<String>,
    /// The file of a photo.
    pub image_file: Option<String>,
    pub kind: IncomingKind,
}

/// The text of an optional text, which is empty where there is none.
pub open spec fn text_or_empty(t: Option<String>) -> Seq<char> {
    match t {
        Some(s) => s@,
        None => Seq::<char>::empty(),
    }
}

/// An artwork has what its row has, each in its place. It is a highlight exactly where the
/// row says so by a number other than zero, and in no known gallery where the row has none.
pub proof fn law_rows_become_artworks(
    id: i64,
    stop: Option<i64>,
    name: Seq<char>,
    description: Seq<char>,
    level: i64,
    highlight: Option<i64>,
    gallery: Option<String>,
)
    ensures
        ({
            let a = row_artwork(id, stop, name, description, level, highlight, gallery);
            &&& a.id == id
            &&& a.audio_guide_id == stop
            &&& a.official_name == name
            &&& a.description == description
            &&& a.description_level == level
            &&& a.is_highlight <==> !(highlight is None || highlight == Some(0i64))
            &&& gallery matches Some(g) ==> a.gallery_number == g@
            &&& gallery is None ==> a.gallery_number.len() == 0
        }),
        gallery matches Some(g) ==> text_or_empty(gallery) == g@,
        gallery is None ==> text_or_empty(gallery).len() == 0,
{
}

/// Artworks and messages are seen whole and in order.
pub proof fn law_lists_are_seen_whole(
    artworks: Seq<Artwork>,
    messages: Seq<ChatMessage>,
    i: int,
)
    ensures
        collection(artworks).len() == artworks.len(),
        0 <= i < artworks.len() ==> collection(artworks)[i] == (ArtworkView {
            id: artworks[i].id,
            audio_guide_id: artworks[i].audio_guide_id,
            official_name: artworks[i].official_name@,
            description: artworks[i].description@,
            description_level: artworks[i].description_level,
            is_highlight: artworks[i].is_highlight,
            gallery_number: artworks[i].gallery_number@,
        }),
        transcript(messages).len() == messages.len(),
        0 <= i < messages.len() ==> transcript(messages)[i] == (ChatMessageView {
            role: messages[i].role@,
            content: messages[i].content@,
        }),
{
}

} // verus!
