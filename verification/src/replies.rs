//! The texts that visitors get, and the time that is noted under them.

use vstd::prelude::*;

use crate::clock;
use crate::clock::{Duration, Instant};
use crate::text;
use crate::types::{Artwork, SessionStage, SessionView, StageView, UserSession};

verus! {

// ---------------------------------------------------------------------------
// Time notes
// ---------------------------------------------------------------------------

/// Seconds as minutes and two digits of seconds.
pub open spec fn clock_text(secs: nat) -> Seq<char> {
    text::decimal(secs / 60) + ":"@ + seq![
        text::digit(secs % 60 / 10),
        text::digit(secs % 60 % 10),
    ]
}

/// Writes the whole seconds of a span as minutes and two digits of seconds.
pub fn format_duration(d: Duration) -> (r: String)
    ensures
        r@ == clock_text(d.secs as nat),
{
    let total_seconds: u64 = d.as_secs();
    let minutes: u64 = total_seconds / 60;
    let seconds: u64 = total_seconds % 60;
    let mut out: String = text::decimal_text(minutes);
    out.append(":");
    out.push((48u8 + (seconds / 10) as u8) as char);
    out.push((48u8 + (seconds % 10) as u8) as char);
    assert(out@ =~= clock_text(d.secs as nat));
    out
}

/// What every time note starts with.
pub const NOTE_START: &'static str = "\n\n_[";

/// What every time note ends with.
pub const NOTE_END: &'static str = "]_";

/// The note on the time that has passed of a countdown.
pub open spec fn time_note(passed: Duration, minutes: u64) -> Seq<char> {
    let cutoff = (minutes * 60) as nat;
    if passed.total() >= cutoff * clock::NANOS_PER_SEC {
        NOTE_START@ + clock_text(cutoff) + " — done!"@ + NOTE_END@
    } else {
        NOTE_START@ + clock_text(passed.secs as nat) + " / "@ + clock_text(cutoff) + NOTE_END@
    }
}

/// Puts the note on the time since `start` under a text.
fn noted_text(body: &str, start: Instant, now: Instant, minutes: u64) -> (r: String)
    requires
        minutes * 60 <= u64::MAX,
    ensures
        r@ == body@ + time_note(clock::elapsed(start, now), minutes),
{
    let passed: Duration = start.elapsed(now);
    let cutoff: Duration = Duration::from_secs(minutes * 60);
    proof {
        clock::law_whole_seconds_decide(start, now, cutoff.secs);
    }
    let mut out: String = body.to_owned();
    out.append(NOTE_START);
    if passed.as_secs() >= cutoff.as_secs() {
        let whole: String = format_duration(cutoff);
        out.append(whole.as_str());
        out.append(" — done!");
    } else {
        let part: String = format_duration(passed);
        let whole: String = format_duration(cutoff);
        out.append(part.as_str());
        out.append(" / ");
        out.append(whole.as_str());
    }
    out.append(NOTE_END);
    assert(out@ =~= body@ + time_note(clock::elapsed(start, now), minutes));
    out
}

/// Whether an artwork is under discussion.
pub open spec fn is_discussing(s: SessionView) -> bool {
    s.stage is DiscussingArtwork
}

/// A reply as the visitor sees it: with a time note while an artwork is discussed.
pub open spec fn timed(
    session: Option<SessionView>,
    reply: Seq<char>,
    minutes: u64,
    now: Instant,
) -> Seq<char> {
    match session {
        Some(s) => if is_discussing(s) {
            reply + time_note(clock::elapsed(s.started_at, now), minutes)
        } else {
            reply
        },
        None => reply,
    }
}

/// The view of a conversation that may be missing.
pub open spec fn session_view(session: Option<&UserSession>) -> Option<SessionView> {
    match session {
        Some(s) => Some(s@),
        None => None,
    }
}

/// Puts a time note under a reply while an artwork is discussed.
pub fn with_session_time_suffix(
    session: Option<&UserSession>,
    text: &str,
    countdown_minutes: u64,
    now: Instant,
) -> (r: String)
    requires
        session is Some && is_discussing(session->0@) ==> countdown_minutes * 60 <= u64::MAX,
    ensures
        r@ == timed(session_view(session), text@, countdown_minutes, now),
{
    match session {
        None => text.to_owned(),
        Some(s) => match &s.stage {
            SessionStage::DiscussingArtwork { .. } => {
                noted_text(text, s.started_at, now, countdown_minutes)
            },
            _ => text.to_owned(),
        },
    }
}

/// The last position up to `upto` at which `needle` stands, or -1.
pub open spec fn last_stand(s: Seq<char>, needle: Seq<char>, upto: int) -> int
    decreases upto + 1,
{
    if upto < 0 {
        -1
    } else if text::stands_at(s, needle, upto) {
        upto
    } else {
        last_stand(s, needle, upto - 1)
    }
}

/// A text without the time note at its end: it is cut before the last start of a note
/// if it ends as a note does.
pub open spec fn without_note(s: Seq<char>) -> Seq<char> {
    let p = last_stand(s, NOTE_START@, s.len() as int);
    if p >= 0 && text::ends(s.skip(p), NOTE_END@) {
        s.take(p)
    } else {
        s
    }
}

/// Takes the time note off the end of a text.
pub fn strip_timer_suffix(text: &str) -> (r: String)
    ensures
        r@ == without_note(text@),
{
    let chars: Vec<char> = text::chars_of(text);
    let ghost s = text@;
    proof {
        reveal_strlit("\n\n_[");
        reveal_strlit("]_");
    }
    let n: usize = chars.len();
    assert forall|k: int| n - 4 < k <= n implies !text::stands_at(s, NOTE_START@, k) by {}
    if n < 4 {
        proof {
            lemma_no_stand(s, NOTE_START@, n as int);
        }
        return text.to_owned();
    }
    let mut p: usize = n - 3;
    while p > 0
        invariant
            chars@ == text@,
            s == text@,
            n == chars@.len(),
            NOTE_START@ == seq!['\n', '\n', '_', '['],
            NOTE_END@ == seq![']', '_'],
            n >= 4,
            p <= n - 3,
            forall|k: int| p <= k <= n ==> !text::stands_at(s, NOTE_START@, k),
        decreases p,
    {
        p = p - 1;
        let found: bool = chars[p] == '\n' && chars[p + 1] == '\n' && chars[p + 2] == '_'
            && chars[p + 3] == '[';
        proof {
            let here = s.subrange(p as int, p + 4);
            assert(here[0] == s[p as int] && here[1] == s[p + 1] && here[2] == s[p + 2] && here[3]
                == s[p + 3]);
            if found {
                assert(here =~= NOTE_START@);
            }
            assert(found == text::stands_at(s, NOTE_START@, p as int));
        }
        if found {
            proof {
                lemma_last_stand(s, NOTE_START@, p as int, n as int);
                let tail = s.skip(p as int);
                let end = tail.subrange(tail.len() - 2, tail.len() as int);
                assert(end[0] == s[n - 2] && end[1] == s[n - 1]);
                if s[n - 2] == ']' && s[n - 1] == '_' {
                    assert(end =~= NOTE_END@);
                }
            }
            if chars[n - 2] == ']' && chars[n - 1] == '_' {
                return text::text_between(&chars, 0, p);
            }
            return text.to_owned();
        }
    }
    proof {
        lemma_no_stand(s, NOTE_START@, n as int);
    }
    text.to_owned()
}

proof fn lemma_last_stand(s: Seq<char>, needle: Seq<char>, p: int, upto: int)
    requires
        0 <= p <= upto,
        text::stands_at(s, needle, p),
        forall|k: int| p < k <= upto ==> !text::stands_at(s, needle, k),
    ensures
        last_stand(s, needle, upto) == p,
    decreases upto - p,
{
    if p < upto {
        lemma_last_stand(s, needle, p, upto - 1);
    }
}

proof fn lemma_no_stand(s: Seq<char>, needle: Seq<char>, upto: int)
    requires
        forall|k: int| 0 <= k <= upto ==> !text::stands_at(s, needle, k),
    ensures
        last_stand(s, needle, upto) < 0,
    decreases upto + 1,
{
    if upto >= 0 {
        lemma_no_stand(s, needle, upto - 1);
    }
}

/// The characters of a clock text are digits and a colon.
proof fn lemma_clock_text(secs: nat)
    ensures
        forall|k: int| 0 <= k < clock_text(secs).len() ==> #[trigger] clock_text(secs)[k] != '\n',
{
    reveal_strlit(":");
    text::lemma_decimal_is_digits(secs / 60);
}

/// Taking off the time note undoes putting one on, whatever the text, the time and the
/// countdown.
pub proof fn law_strip_undoes_note(body: Seq<char>, passed: Duration, minutes: u64)
    ensures
        without_note(body + time_note(passed, minutes)) == body,
{
    reveal_strlit("\n\n_[");
    reveal_strlit("]_");
    reveal_strlit(" / ");
    reveal_strlit(" — done!");
    let note = time_note(passed, minutes);
    let s = body + note;
    let cutoff = (minutes * 60) as nat;
    lemma_clock_text(cutoff);
    lemma_clock_text(passed.secs as nat);
    assert forall|k: int| 2 <= k < note.len() implies note[k] != '\n' by {}
    assert(note[0] == '\n' && note[1] == '\n' && note[2] == '_' && note[3] == '[');
    let p = body.len() as int;
    assert(s.subrange(p, p + 4) =~= NOTE_START@);
    assert forall|k: int| p < k <= s.len() implies !text::stands_at(s, NOTE_START@, k) by {
        if k + 4 <= s.len() {
            let here = s.subrange(k, k + 4);
            assert(here[1] == note[k - p + 1]);
        }
    }
    lemma_last_stand(s, NOTE_START@, p, s.len() as int);
    assert(s.skip(p) =~= note);
    assert(note.subrange(note.len() - 2, note.len() as int) =~= NOTE_END@);
    assert(s.take(p) =~= body);
}

// ---------------------------------------------------------------------------
// The live timer
// ---------------------------------------------------------------------------

/// What a timer does when it wakes.
pub enum TimerTick {
    /// It was cancelled: it ends without a word.
    Stop,
    /// The time is up: the message gets its last text, and the timer ends.
    Finish(String),
    /// The message gets a new text, and the timer goes on.
    Update(String),
}

pub enum TimerTickView {
    Stop,
    Finish(Seq<char>),
    Update(Seq<char>),
}

impl View for TimerTick {
    type V = TimerTickView;

    open spec fn view(&self) -> TimerTickView {
        match self {
            TimerTick::Stop => TimerTickView::Stop,
            TimerTick::Finish(t) => TimerTickView::Finish(t@),
            TimerTick::Update(t) => TimerTickView::Update(t@),
        }
    }
}

/// What a timer does when it wakes: nothing more once it is cancelled; otherwise it
/// brings the time note up to date, for the last time when the countdown is over.
pub open spec fn tick(
    base: Seq<char>,
    cancelled: bool,
    start: Instant,
    now: Instant,
    minutes: u64,
) -> TimerTickView {
    let passed = clock::elapsed(start, now);
    let shown = without_note(base) + time_note(passed, minutes);
    if cancelled {
        TimerTickView::Stop
    } else if passed.total() >= minutes * 60 * clock::NANOS_PER_SEC {
        TimerTickView::Finish(shown)
    } else {
        TimerTickView::Update(shown)
    }
}

/// Seconds between two ticks of a timer.
pub const TICK_SECONDS: u64 = 5;

/// Decides what a timer does when it wakes.
pub fn timer_tick(
    base_text: &str,
    cancelled: bool,
    start: Instant,
    now: Instant,
    countdown_minutes: u64,
) -> (r: TimerTick)
    requires
        countdown_minutes * 60 <= u64::MAX,
    ensures
        r@ == tick(base_text@, cancelled, start, now, countdown_minutes),
{
    if cancelled {
        return TimerTick::Stop;
    }
    let clean: String = strip_timer_suffix(base_text);
    let shown: String = noted_text(clean.as_str(), start, now, countdown_minutes);
    let cutoff: Duration = Duration::from_secs(countdown_minutes * 60);
    proof {
        clock::law_whole_seconds_decide(start, now, cutoff.secs);
    }
    if start.elapsed(now).as_secs() >= cutoff.as_secs() {
        TimerTick::Finish(shown)
    } else {
        TimerTick::Update(shown)
    }
}

/// A live timer only ever changes the note: whatever it shows under a message that was
/// sent with a note, the rest of the message stays as it was sent.
pub proof fn law_timer_keeps_the_message(
    reply: Seq<char>,
    sent_after: Duration,
    cancelled: bool,
    start: Instant,
    now: Instant,
    minutes: u64,
)
    ensures
        match tick(reply + time_note(sent_after, minutes), cancelled, start, now, minutes) {
            TimerTickView::Stop => cancelled,
            TimerTickView::Finish(t) => without_note(t) == reply,
            TimerTickView::Update(t) => without_note(t) == reply,
        },
{
    law_strip_undoes_note(reply, sent_after, minutes);
    law_strip_undoes_note(reply, clock::elapsed(start, now), minutes);
}

// ---------------------------------------------------------------------------
// Links to images
// ---------------------------------------------------------------------------

/// Whether a character is punctuation that may stand round a link.
pub open spec fn is_wrapping(c: char) -> bool {
    c == ')' || c == '(' || c == ']' || c == '[' || c == '}' || c == '{' || c == ',' || c == '.'
        || c == ';' || c == '"' || c == '\''
}

/// Whether a character is punctuation that may stand round a link.
fn wrapping(c: char) -> (r: bool)
    ensures
        r == is_wrapping(c),
{
    c == ')' || c == '(' || c == ']' || c == '[' || c == '}' || c == '{' || c == ',' || c == '.'
        || c == ';' || c == '"' || c == '\''
}

/// A word without the punctuation before it.
pub open spec fn unwrapped_start(s: Seq<char>) -> Seq<char>
    decreases s.len(),
{
    if s.len() > 0 && is_wrapping(s[0]) {
        unwrapped_start(s.drop_first())
    } else {
        s
    }
}

/// A word without the punctuation behind it.
pub open spec fn unwrapped_end(s: Seq<char>) -> Seq<char>
    decreases s.len(),
{
    if s.len() > 0 && is_wrapping(s.last()) {
        unwrapped_end(s.drop_last())
    } else {
        s
    }
}

/// A word without the punctuation round it.
pub open spec fn unwrapped(s: Seq<char>) -> Seq<char> {
    unwrapped_end(unwrapped_start(s))
}

/// Takes the punctuation round a word away.
fn unwrap_word(word: &str) -> (r: String)
    ensures
        r@ == unwrapped(word@),
{
    let chars: Vec<char> = text::chars_of(word);
    let mut from: usize = 0;
    assert(chars@.skip(0) =~= word@);
    while from < chars.len() && wrapping(chars[from])
        invariant
            from <= chars@.len(),
            unwrapped_start(word@) == unwrapped_start(chars@.skip(from as int)),
        decreases chars@.len() - from,
    {
        assert(chars@.skip(from as int).drop_first() =~= chars@.skip(from + 1));
        from = from + 1;
    }
    let ghost body = chars@.skip(from as int);
    assert(unwrapped_start(word@) == body) by {
        if from < chars@.len() {
            assert(body[0] == chars@[from as int]);
        }
    }
    let mut to: usize = chars.len();
    assert(chars@.subrange(from as int, to as int) =~= body);
    while from < to && wrapping(chars[to - 1])
        invariant
            from <= to <= chars@.len(),
            body == chars@.skip(from as int),
            unwrapped_end(body) == unwrapped_end(chars@.subrange(from as int, to as int)),
        decreases to - from,
    {
        assert(chars@.subrange(from as int, to as int).drop_last() =~= chars@.subrange(
            from as int,
            to - 1,
        ));
        to = to - 1;
    }
    proof {
        let t = chars@.subrange(from as int, to as int);
        if from < to {
            assert(t.last() == chars@[to - 1]);
        }
    }
    text::text_between(&chars, from, to)
}

/// Whether a text is a web link.
pub open spec fn is_link(s: Seq<char>) -> bool {
    let lower = text::lowered(s);
    text::starts(lower, "http://"@) || text::starts(lower, "https://"@)
}

/// Whether a text is a web link to an image.
pub open spec fn is_image_link(s: Seq<char>) -> bool {
    let lower = text::lowered(s);
    is_link(s) && (text::ends(lower, ".jpg"@) || text::ends(lower, ".jpeg"@) || text::ends(
        lower,
        ".png"@,
    ) || text::ends(lower, ".webp"@) || text::holds(lower, "images.metmuseum.org"@) || text::holds(
        lower,
        "iiif"@,
    ))
}

/// Whether a text is a web link to an image.
fn image_link(s: &str) -> (r: bool)
    ensures
        r == is_image_link(s@),
{
    let lower: String = text::to_ascii_lower(s);
    let l: &str = lower.as_str();
    (text::starts_with(l, "http://") || text::starts_with(l, "https://")) && (text::ends_with(
        l,
        ".jpg",
    ) || text::ends_with(l, ".jpeg") || text::ends_with(l, ".png") || text::ends_with(l, ".webp")
        || text::contains(l, "images.metmuseum.org") || text::contains(l, "iiif"))
}

/// The first link to an image among some words.
pub open spec fn first_image_link(words: Seq<Seq<char>>) -> Option<Seq<char>>
    decreases words.len(),
{
    if words.len() == 0 {
        None
    } else if is_image_link(unwrapped(words[0])) {
        Some(unwrapped(words[0]))
    } else {
        first_image_link(words.drop_first())
    }
}

/// The first link to an image in a description.
pub open spec fn image_link_in(description: Seq<char>) -> Option<Seq<char>> {
    first_image_link(text::words(description))
}

/// Finds the first link to an image in a description.
pub fn extract_first_image_url(description: &str) -> (r: Option<String>)
    ensures
        match r {
            Some(url) => Some(url@),
            None => None,
        } == image_link_in(description@),
{
    let words: Vec<String> = text::split_words(description);
    let ghost all = text::words(description@);
    let mut i: usize = 0;
    assert(all.skip(0) =~= all);
    while i < words.len()
        invariant
            i <= words@.len(),
            all == text::words(description@),
            text::views(words@) == all,
            first_image_link(all) == first_image_link(all.skip(i as int)),
        decreases words@.len() - i,
    {
        assert(all.len() == words@.len());
        assert(all[i as int] == words@[i as int]@);
        assert(all.skip(i as int)[0] == all[i as int]);
        assert(all.skip(i as int).drop_first() =~= all.skip(i + 1));
        let cleaned: String = unwrap_word(words[i].as_str());
        if image_link(cleaned.as_str()) {
            return Some(cleaned);
        }
        i = i + 1;
    }
    assert(all.len() == words@.len());
    None
}

/// Every word of a text stands in it.
proof fn lemma_words_stand(s: Seq<char>, i: int)
    requires
        0 <= i < text::words(s).len(),
    ensures
        text::holds(s, text::words(s)[i]),
    decreases s.len(),
{
    if text::is_space(s[0]) {
        let t = s.drop_first();
        lemma_words_stand(t, i);
        let w = text::words(t)[i];
        let at = choose|at: int| text::stands_at(t, w, at);
        assert(s.subrange(at + 1, at + 1 + w.len()) =~= t.subrange(at, at + w.len()));
        assert(text::stands_at(s, w, at + 1));
    } else {
        let n = text::word_len(s) as int;
        let t = s.skip(n);
        if i == 0 {
            assert(s.subrange(0, n) =~= s.take(n));
            assert(text::stands_at(s, text::words(s)[0], 0));
        } else {
            assert(text::words(s)[i] == text::words(t)[i - 1]);
            lemma_words_stand(t, i - 1);
            let w = text::words(t)[i - 1];
            let at = choose|at: int| text::stands_at(t, w, at);
            assert(s.subrange(at + n, at + n + w.len()) =~= t.subrange(at, at + w.len()));
            assert(text::stands_at(s, w, at + n));
        }
    }
}

/// What is left of a word without its punctuation is one piece of it.
proof fn lemma_unwrapped_stands(s: Seq<char>)
    ensures
        text::holds(s, unwrapped(s)),
    decreases s.len(),
{
    if s.len() > 0 && is_wrapping(s[0]) {
        let t = s.drop_first();
        lemma_unwrapped_stands(t);
        let w = unwrapped(t);
        let at = choose|at: int| text::stands_at(t, w, at);
        assert(s.subrange(at + 1, at + 1 + w.len()) =~= t.subrange(at, at + w.len()));
        assert(text::stands_at(s, w, at + 1));
    } else {
        lemma_unwrapped_end_stands(s);
    }
}

proof fn lemma_unwrapped_end_stands(s: Seq<char>)
    ensures
        text::stands_at(s, unwrapped_end(s), 0),
    decreases s.len(),
{
    if s.len() > 0 && is_wrapping(s.last()) {
        let t = s.drop_last();
        lemma_unwrapped_end_stands(t);
        let w = unwrapped_end(t);
        assert(s.subrange(0, w.len() as int) =~= t.subrange(0, w.len() as int));
    } else {
        assert(s.subrange(0, s.len() as int) =~= s);
    }
}

proof fn lemma_first_image_link(words: Seq<Seq<char>>) -> (i: int)
    ensures
        first_image_link(words) matches Some(url) ==> 0 <= i < words.len() && unwrapped(words[i])
            == url && is_image_link(url),
    decreases words.len(),
{
    if words.len() == 0 || is_image_link(unwrapped(words[0])) {
        0
    } else {
        let i = lemma_first_image_link(words.drop_first());
        i + 1
    }
}

/// A link that is found is a web link to an image, and it stands in the description
/// just as it is handed out.
pub proof fn law_image_link_is_in_the_description(description: Seq<char>)
    ensures
        first_image_link(text::words(description)) matches Some(url) ==> is_image_link(url)
            && text::holds(description, url),
{
    let words = text::words(description);
    let i = lemma_first_image_link(words);
    if let Some(url) = first_image_link(words) {
        let w = words[i];
        lemma_words_stand(description, i);
        lemma_unwrapped_stands(w);
        let a = choose|a: int| text::stands_at(description, w, a);
        let b = choose|b: int| text::stands_at(w, url, b);
        assert(description.subrange(a + b, a + b + url.len()) =~= w.subrange(b, b + url.len()));
        assert(text::stands_at(description, url, a + b));
    }
}

// ---------------------------------------------------------------------------
// Fixed replies
// ---------------------------------------------------------------------------

pub const DESCRIBE_HINT: &'static str = " Describe what you see, or read the title from the label.";

pub const AUDIO_HINT: &'static str = " You can say the audio guide number, or read the title from the label.";

pub const OPENING_START: &'static str = "Hello! I'm your museum companion. Give me a brief description of the artwork in front of you — the title, what it looks like, or anything from the label — and I'll try to identify it. Then we can have an in-depth discussion about it.";

pub const OPENING_END: &'static str = "\n\nRemember: just send a message any time you want me to respond.";

pub const NOT_IDENTIFIED: &'static str = "I couldn’t identify the artwork yet. Try the title or a short description from the label beside it.";

pub const TRY_AGAIN: &'static str = "Okay — tell me the title or anything from the museum label, and I’ll try again.";

pub const MAYBE_WRONG: &'static str = "Okay — I may have the wrong artwork. Tell me the title or give me a short visual description and I’ll try to identify it again.";

pub const HOW_LONG: &'static str = "\n\nHow long would you like to discuss it? Reply with a number of minutes (e.g. 1, 3, 5, or 10).";

/// Which ways of finding an artwork the companion was built with.
#[derive(Clone, Copy, Debug, PartialEq, Eq, Structural)]
pub struct SearchModes {
    /// By the embedding of a description.
    pub image: bool,
    /// By the number of a stop of the audio guide first.
    pub audio_id: bool,
}

/// The hint in the opening words.
pub open spec fn hint(modes: SearchModes) -> Seq<char> {
    if modes.audio_id {
        AUDIO_HINT@
    } else if modes.image {
        DESCRIBE_HINT@
    } else {
        Seq::<char>::empty()
    }
}

/// The words that open a conversation.
pub open spec fn opening(modes: SearchModes) -> Seq<char> {
    OPENING_START@ + hint(modes) + OPENING_END@
}

/// Writes the words that open a conversation.
pub fn opening_text(modes: SearchModes) -> (r: String)
    ensures
        r@ == opening(modes),
{
    let mut out: String = OPENING_START.to_owned();
    if modes.audio_id {
        out.append(AUDIO_HINT);
    } else if modes.image {
        out.append(DESCRIBE_HINT);
    }
    out.append(OPENING_END);
    assert(out@ =~= opening(modes));
    out
}

/// The question how long an artwork is to be discussed, with a link to an image of it
/// where its description has one.
pub open spec fn time_question(name: Seq<char>, description: Seq<char>) -> Seq<char> {
    let asked = "Got it — looks like you're looking at \""@ + name + "\"."@ + HOW_LONG@;
    match first_image_link(text::words(description)) {
        Some(url) => asked + "\n\nImage: "@ + url,
        None => asked,
    }
}

/// Asks how long an artwork is to be discussed.
pub fn time_selection_prompt(artwork: &Artwork) -> (r: String)
    ensures
        r@ == time_question(artwork.official_name@, artwork.description@),
{
    let mut reply: String = "Got it — looks like you're looking at \"".to_owned();
    reply.append(artwork.official_name.as_str());
    reply.append("\".");
    reply.append(HOW_LONG);
    if let Some(url) = extract_first_image_url(artwork.description.as_str()) {
        reply.append("\n\nImage: ");
        reply.append(url.as_str());
    }
    reply
}

/// The question how long the artwork of an audio stop is to be discussed.
pub open spec fn stop_time_question(stop_number: i64, name: Seq<char>) -> Seq<char> {
    "Got it — audio stop "@ + text::signed_decimal(stop_number as int) + " is \""@ + name + "\". "@
        + HOW_LONG@
}

/// Asks how long the artwork of an audio stop is to be discussed.
pub fn stop_time_prompt(stop_number: i64, name: &str) -> (r: String)
    ensures
        r@ == stop_time_question(stop_number, name@),
{
    let mut reply: String = "Got it — audio stop ".to_owned();
    let number: String = text::signed_decimal_text(stop_number);
    reply.append(number.as_str());
    reply.append(" is \"");
    reply.append(name);
    reply.append("\". ");
    reply.append(HOW_LONG);
    reply
}

/// What is said of a stop that no artwork has.
pub open spec fn stop_unknown(stop_number: i64) -> Seq<char> {
    "I couldn’t find audio guide number "@ + text::signed_decimal(stop_number as int)
        + " in my database. Please try another number or send the artwork name."@
}

/// Says that no artwork has a stop.
pub fn stop_unknown_text(stop_number: i64) -> (r: String)
    ensures
        r@ == stop_unknown(stop_number),
{
    let mut reply: String = "I couldn’t find audio guide number ".to_owned();
    let number: String = text::signed_decimal_text(stop_number);
    reply.append(number.as_str());
    reply.append(" in my database. Please try another number or send the artwork name.");
    reply
}

/// The question whether the right artwork was found.
pub open spec fn confirm_question(again: bool, name: Seq<char>) -> Seq<char> {
    (if again {
        "I think you may actually mean \""@
    } else {
        "I think you probably mean \""@
    }) + name + "\". Is that the one? Reply yes or no."@
}

/// Asks whether the right artwork was found, for the first time or `again`.
pub fn confirm_prompt(again: bool, name: &str) -> (r: String)
    ensures
        r@ == confirm_question(again, name@),
{
    let mut reply: String = if again {
        "I think you may actually mean \"".to_owned()
    } else {
        "I think you probably mean \"".to_owned()
    };
    reply.append(name);
    reply.append("\". Is that the one? Reply yes or no.");
    reply
}

/// What is said to an answer that is neither yes nor no.
pub open spec fn yes_or_no(name: Seq<char>) -> Seq<char> {
    "Just answer yes or no — do you mean \""@ + name + "\"?"@
}

/// Asks for a plain yes or no.
pub fn yes_or_no_prompt(name: &str) -> (r: String)
    ensures
        r@ == yes_or_no(name@),
{
    let mut reply: String = "Just answer yes or no — do you mean \"".to_owned();
    reply.append(name);
    reply.append("\"?");
    reply
}

/// The words that start a discussion.
pub open spec fn beginning(minutes: u64, name: Seq<char>) -> Seq<char> {
    "Great — "@ + text::decimal(minutes as nat) + " minute"@ + (if minutes == 1 {
        Seq::<char>::empty()
    } else {
        "s"@
    }) + " with \""@ + name + "\". Let's begin! What's the first thing that catches your eye?"@
}

/// Starts a discussion.
pub fn beginning_text(minutes: u64, name: &str) -> (r: String)
    ensures
        r@ == beginning(minutes, name@),
{
    let mut reply: String = "Great — ".to_owned();
    let number: String = text::decimal_text(minutes);
    reply.append(number.as_str());
    reply.append(" minute");
    if minutes != 1 {
        reply.append("s");
    }
    reply.append(" with \"");
    reply.append(name);
    reply.append("\". Let's begin! What's the first thing that catches your eye?");
    assert(reply@ =~= beginning(minutes, name@));
    reply
}

// ---------------------------------------------------------------------------
// What the notes and texts say
// ---------------------------------------------------------------------------

/// Whether a text is a clock: minutes without idle zeros, a colon, and two digits of
/// seconds below sixty.
pub open spec fn is_clock(c: Seq<char>) -> bool {
    let minutes = c.take(c.len() - 3);
    &&& c.len() >= 4
    &&& c[c.len() - 3] == ':'
    &&& text::all_digits(minutes)
    &&& minutes[0] == '0' ==> minutes.len() == 1
    &&& '0' <= c[c.len() - 2] <= '5'
    &&& '0' <= c[c.len() - 1] <= '9'
}

/// The seconds that a clock shows.
pub open spec fn clock_value(c: Seq<char>) -> int {
    60 * text::digits_value(c.take(c.len() - 3)) + 10 * (c[c.len() - 2] as int - '0' as int) + (
    c[c.len() - 1] as int - '0' as int)
}

/// What a clock shows is the seconds that were put on it.
pub proof fn law_clocks_read_back(secs: nat)
    ensures
        is_clock(clock_text(secs)),
        clock_value(clock_text(secs)) == secs,
{
    reveal_strlit(":");
    text::law_decimal_reads_back(secs / 60);
    let c = clock_text(secs);
    let d = text::decimal(secs / 60);
    assert(c.take(c.len() - 3) =~= d);
    assert(c[c.len() - 3] == ':');
    assert(c[c.len() - 2] == text::digit(secs % 60 / 10));
    assert(c[c.len() - 1] == text::digit(secs % 60 % 10));
    assert(text::digit(secs % 60 / 10) as int == 48 + secs % 60 / 10);
    assert(text::digit(secs % 60 % 10) as int == 48 + secs % 60 % 10);
}

/// How many characters at the start of a text can belong to a clock.
pub open spec fn clock_run(s: Seq<char>) -> nat
    decreases s.len(),
{
    if s.len() > 0 && ('0' <= s[0] <= '9' || s[0] == ':') {
        1 + clock_run(s.drop_first())
    } else {
        0
    }
}

proof fn lemma_clock_run(c: Seq<char>, rest: Seq<char>)
    requires
        forall|k: int| 0 <= k < c.len() ==> '0' <= #[trigger] c[k] <= '9' || c[k] == ':',
        rest.len() > 0,
        !('0' <= rest[0] <= '9' || rest[0] == ':'),
    ensures
        clock_run(c + rest) == c.len(),
    decreases c.len(),
{
    let s = c + rest;
    if c.len() == 0 {
        assert(s =~= rest);
    } else {
        assert(s[0] == c[0]);
        assert(s.drop_first() =~= c.drop_first() + rest);
        assert forall|k: int| 0 <= k < c.drop_first().len() implies '0' <= #[trigger] c.drop_first()[k]
            <= '9' || c.drop_first()[k] == ':' by {
            assert(c.drop_first()[k] == c[k + 1]);
        }
        lemma_clock_run(c.drop_first(), rest);
    }
}

proof fn lemma_clock_is_run(secs: nat)
    ensures
        forall|k: int|
            0 <= k < clock_text(secs).len() ==> '0' <= #[trigger] clock_text(secs)[k] <= '9'
                || clock_text(secs)[k] == ':',
{
    reveal_strlit(":");
    text::lemma_decimal_is_digits(secs / 60);
    assert(text::digit(secs % 60 / 10) as int == 48 + secs % 60 / 10);
    assert(text::digit(secs % 60 % 10) as int == 48 + secs % 60 % 10);
}

/// The first clock of a time note.
pub open spec fn first_clock(note: Seq<char>) -> Seq<char> {
    note.skip(4).take(clock_run(note.skip(4)) as int)
}

/// What stands in a time note behind its first clock.
pub open spec fn behind_first_clock(note: Seq<char>) -> Seq<char> {
    note.skip(4).skip(clock_run(note.skip(4)) as int)
}

/// The second clock of a time note, three characters behind the first.
pub open spec fn second_clock(note: Seq<char>) -> Seq<char> {
    let rest = behind_first_clock(note).skip(3);
    rest.take(clock_run(rest) as int)
}

/// A time note shows the time. Before the countdown is over its first clock is the whole
/// seconds since the discussion began and its second the countdown; afterwards the
/// countdown is all that it shows, as done.
pub proof fn law_notes_show_the_time(start: Instant, now: Instant, minutes: u64)
    ensures
        ({
            let note = time_note(clock::elapsed(start, now), minutes);
            let passed = if now.nanos >= start.nanos {
                now.nanos - start.nanos
            } else {
                0
            };
            &&& text::starts(note, "\n\n_["@)
            &&& text::ends(note, "]_"@)
            &&& is_clock(first_clock(note))
            &&& passed < minutes * 60 * 1_000_000_000 ==> {
                &&& clock_value(first_clock(note)) == passed / 1_000_000_000
                &&& is_clock(second_clock(note))
                &&& clock_value(second_clock(note)) == minutes * 60
                &&& behind_first_clock(note) == " / "@ + second_clock(note) + "]_"@
            }
            &&& passed >= minutes * 60 * 1_000_000_000 ==> {
                &&& clock_value(first_clock(note)) == minutes * 60
                &&& behind_first_clock(note) == " — done!]_"@
            }
        }),
{
    clock::law_elapsed_is_the_distance(start, now);
    let passed = clock::elapsed(start, now);
    let cutoff = (minutes * 60) as nat;
    law_clocks_read_back(cutoff);
    law_clocks_read_back(passed.secs as nat);
    if passed.total() >= cutoff * clock::NANOS_PER_SEC {
        lemma_done_note(cutoff);
    } else {
        lemma_running_note(passed.secs as nat, cutoff);
    }
}

/// The clock of a note on a countdown that is over.
proof fn lemma_done_note(cutoff: nat)
    ensures
        ({
            let note = NOTE_START@ + clock_text(cutoff) + " — done!"@ + NOTE_END@;
            &&& text::starts(note, "\n\n_["@)
            &&& text::ends(note, "]_"@)
            &&& first_clock(note) == clock_text(cutoff)
            &&& behind_first_clock(note) == " — done!]_"@
        }),
{
    reveal_strlit("\n\n_[");
    reveal_strlit("]_");
    reveal_strlit(" — done!");
    reveal_strlit(" — done!]_");
    let c = clock_text(cutoff);
    let note = NOTE_START@ + c + " — done!"@ + NOTE_END@;
    let rest = " — done!]_"@;
    lemma_clock_is_run(cutoff);
    lemma_clock_run(c, rest);
    assert(" — done!"@ + NOTE_END@ =~= rest);
    assert(note.subrange(0, 4) =~= "\n\n_["@);
    assert(note.subrange(note.len() - 2, note.len() as int) =~= "]_"@);
    assert(note.skip(4) =~= c + rest);
    assert((c + rest).take(c.len() as int) =~= c);
    assert((c + rest).skip(c.len() as int) =~= rest);
}

/// The two clocks of a note on a countdown that goes on.
proof fn lemma_running_note(secs: nat, cutoff: nat)
    ensures
        ({
            let note = NOTE_START@ + clock_text(secs) + " / "@ + clock_text(cutoff) + NOTE_END@;
            &&& text::starts(note, "\n\n_["@)
            &&& text::ends(note, "]_"@)
            &&& first_clock(note) == clock_text(secs)
            &&& second_clock(note) == clock_text(cutoff)
            &&& behind_first_clock(note) == " / "@ + clock_text(cutoff) + "]_"@
        }),
{
    reveal_strlit("\n\n_[");
    reveal_strlit("]_");
    reveal_strlit(" / ");
    let c = clock_text(secs);
    let d = clock_text(cutoff);
    let note = NOTE_START@ + c + " / "@ + d + NOTE_END@;
    let rest = " / "@ + d + "]_"@;
    lemma_clock_is_run(secs);
    lemma_clock_is_run(cutoff);
    lemma_clock_run(c, rest);
    lemma_clock_run(d, "]_"@);
    assert(note.subrange(0, 4) =~= "\n\n_["@);
    assert(note.subrange(note.len() - 2, note.len() as int) =~= "]_"@);
    assert(note.skip(4) =~= c + rest);
    assert((c + rest).take(c.len() as int) =~= c);
    assert((c + rest).skip(c.len() as int) =~= rest);
    assert(rest.skip(3) =~= d + "]_"@);
    assert((d + "]_"@).take(d.len() as int) =~= d);
}

/// Of two notes of one discussion the later never shows less time.
pub proof fn law_notes_never_run_back(start: Instant, now: Instant, later: Instant, minutes: u64)
    requires
        now.nanos <= later.nanos,
    ensures
        clock_value(first_clock(time_note(clock::elapsed(start, now), minutes))) <= clock_value(
            first_clock(time_note(clock::elapsed(start, later), minutes)),
        ),
{
    law_notes_show_the_time(start, now, minutes);
    law_notes_show_the_time(start, later, minutes);
}

/// A reply gets a time note in a discussion and nowhere else, and the note is on the time
/// since the discussion began.
pub proof fn law_replies_are_timed_in_discussions(
    session: SessionView,
    reply: Seq<char>,
    minutes: u64,
    now: Instant,
)
    ensures
        timed(None, reply, minutes, now) == reply,
        match session.stage {
            StageView::DiscussingArtwork { .. } => timed(Some(session), reply, minutes, now)
                == reply + time_note(clock::elapsed(session.started_at, now), minutes),
            StageView::WaitingForArtwork => timed(Some(session), reply, minutes, now) == reply,
            StageView::AwaitingConfirmation { .. } => timed(Some(session), reply, minutes, now)
                == reply,
            StageView::AwaitingTimeSelection { .. } => timed(Some(session), reply, minutes, now)
                == reply,
        },
{
}

/// Only a note at the end is taken off: a text that does not end as a note does, or in
/// which no note starts, stays as it is; what goes is the last start of a note and
/// everything behind it.
pub proof fn law_only_notes_are_taken_off(s: Seq<char>, body: Seq<char>, inner: Seq<char>)
    ensures
        !text::ends(s, "]_"@) ==> without_note(s) == s,
        !text::holds(s, "\n\n_["@) ==> without_note(s) == s,
        (forall|k: int|
            k > 0 ==> !#[trigger] text::stands_at("\n\n_["@ + inner + "]_"@, "\n\n_["@, k))
            ==> without_note(body + ("\n\n_["@ + inner + "]_"@)) == body,
{
    reveal_strlit("\n\n_[");
    reveal_strlit("]_");
    let p = last_stand(s, NOTE_START@, s.len() as int);
    lemma_last_stand_stands(s, NOTE_START@, s.len() as int);
    if p >= 0 {
        assert(text::stands_at(s, NOTE_START@, p));
        let tail = s.skip(p);
        assert(tail.subrange(tail.len() - 2, tail.len() as int) =~= s.subrange(
            s.len() - 2,
            s.len() as int,
        ));
    }
    let note = "\n\n_["@ + inner + "]_"@;
    if forall|k: int| k > 0 ==> !#[trigger] text::stands_at(note, "\n\n_["@, k) {
        let t = body + note;
        let q = body.len() as int;
        assert(t.subrange(q, q + 4) =~= NOTE_START@);
        assert forall|k: int| q < k <= t.len() implies !text::stands_at(t, NOTE_START@, k) by {
            if k + 4 <= t.len() {
                assert(t.subrange(k, k + 4) =~= note.subrange(k - q, k - q + 4));
                assert(!text::stands_at(note, NOTE_START@, k - q));
            }
        }
        lemma_last_stand(t, NOTE_START@, q, t.len() as int);
        assert(t.skip(q) =~= note);
        assert(note.subrange(note.len() - 2, note.len() as int) =~= NOTE_END@);
        assert(t.take(q) =~= body);
    }
}

proof fn lemma_last_stand_stands(s: Seq<char>, needle: Seq<char>, upto: int)
    ensures
        last_stand(s, needle, upto) >= 0 ==> text::stands_at(
            s,
            needle,
            last_stand(s, needle, upto),
        ),
        last_stand(s, needle, upto) >= -1,
    decreases upto + 1,
{
    if upto >= 0 && !text::stands_at(s, needle, upto) {
        lemma_last_stand_stands(s, needle, upto - 1);
    }
}

/// A timer stops when it was cancelled and only so. Otherwise it shows its message with
/// the note on the time since it started in place of an older one, and it is over just
/// when the countdown has passed. It wakes every five seconds.
pub proof fn law_timers_count_down(
    base: Seq<char>,
    start: Instant,
    now: Instant,
    minutes: u64,
)
    ensures
        ({
            let passed = if now.nanos >= start.nanos {
                now.nanos - start.nanos
            } else {
                0
            };
            let shown = without_note(base) + time_note(clock::elapsed(start, now), minutes);
            &&& tick(base, true, start, now, minutes) == TimerTickView::Stop
            &&& passed < minutes * 60 * 1_000_000_000 ==> tick(base, false, start, now, minutes)
                == TimerTickView::Update(shown)
            &&& passed >= minutes * 60 * 1_000_000_000 ==> tick(base, false, start, now, minutes)
                == TimerTickView::Finish(shown)
        }),
        TICK_SECONDS == 5,
{
    clock::law_elapsed_is_the_distance(start, now);
}

/// The punctuation that may stand round a link goes from both ends of a word and from
/// nowhere else.
pub proof fn law_unwrapping_leaves_the_middle(a: Seq<char>, t: Seq<char>, b: Seq<char>)
    requires
        forall|k: int| 0 <= k < a.len() ==> #[trigger] ")(][}{,.;\"'"@.contains(a[k]),
        forall|k: int| 0 <= k < b.len() ==> #[trigger] ")(][}{,.;\"'"@.contains(b[k]),
        t.len() > 0 ==> !")(][}{,.;\"'"@.contains(t[0]) && !")(][}{,.;\"'"@.contains(t.last()),
    ensures
        unwrapped(a + t + b) == t,
    decreases a.len() + b.len(),
{
    let s = a + t + b;
    if a.len() > 0 {
        assert(")(][}{,.;\"'"@.contains(a[0]));
        lemma_wrapping(a[0]);
        assert(s[0] == a[0]);
        assert(s.drop_first() =~= a.drop_first() + t + b);
        assert forall|k: int| 0 <= k < a.drop_first().len() implies #[trigger] ")(][}{,.;\"'"@.contains(
            a.drop_first()[k],
        ) by {
            assert(a.drop_first()[k] == a[k + 1]);
            assert(")(][}{,.;\"'"@.contains(a[k + 1]));
        }
        law_unwrapping_leaves_the_middle(a.drop_first(), t, b);
    } else if t.len() == 0 {
        assert(s =~= b);
        if b.len() > 0 {
            assert(")(][}{,.;\"'"@.contains(b[0]));
            lemma_wrapping(b[0]);
            assert forall|k: int| 0 <= k < b.drop_first().len() implies #[trigger] ")(][}{,.;\"'"@.contains(
                b.drop_first()[k],
            ) by {
                assert(b.drop_first()[k] == b[k + 1]);
                assert(")(][}{,.;\"'"@.contains(b[k + 1]));
            }
            law_unwrapping_leaves_the_middle(a, t, b.drop_first());
            assert(a + t + b.drop_first() =~= s.drop_first());
        } else {
            assert(unwrapped(s) =~= t);
        }
    } else {
        lemma_wrapping(t[0]);
        lemma_wrapping(t.last());
        assert(s[0] == t[0]);
        assert(s =~= t + b);
        lemma_unwrapped_end(t, b);
    }
}

proof fn lemma_wrapping(c: char)
    ensures
        is_wrapping(c) <==> ")(][}{,.;\"'"@.contains(c),
{
    reveal_strlit(")(][}{,.;\"'");
    let w = ")(][}{,.;\"'"@;
    assert(w[0] == ')' && w[1] == '(' && w[2] == ']' && w[3] == '[' && w[4] == '}' && w[5] == '{'
        && w[6] == ',' && w[7] == '.' && w[8] == ';' && w[9] == '"' && w[10] == '\'');
}

proof fn lemma_unwrapped_end(t: Seq<char>, b: Seq<char>)
    requires
        t.len() > 0,
        !is_wrapping(t.last()),
        forall|k: int| 0 <= k < b.len() ==> #[trigger] ")(][}{,.;\"'"@.contains(b[k]),
    ensures
        unwrapped_end(t + b) == t,
    decreases b.len(),
{
    let s = t + b;
    if b.len() > 0 {
        assert(")(][}{,.;\"'"@.contains(b[b.len() - 1]));
        lemma_wrapping(b.last());
        assert(s.last() == b.last());
        assert(s.drop_last() =~= t + b.drop_last());
        assert forall|k: int| 0 <= k < b.drop_last().len() implies #[trigger] ")(][}{,.;\"'"@.contains(
            b.drop_last()[k],
        ) by {
            assert(b.drop_last()[k] == b[k]);
            assert(")(][}{,.;\"'"@.contains(b[k]));
        }
        lemma_unwrapped_end(t, b.drop_last());
    } else {
        assert(s =~= t);
    }
}

/// A link to an image starts as a web link does, in whatever case, and either ends as the
/// file of a picture does or names a place that only serves pictures.
pub proof fn law_image_links(s: Seq<char>)
    ensures
        is_image_link(s) <==> {
            let lower = text::lowered(s);
            &&& text::starts(lower, "http://"@) || text::starts(lower, "https://"@)
            &&& {
                ||| text::ends(lower, ".jpg"@)
                ||| text::ends(lower, ".jpeg"@)
                ||| text::ends(lower, ".png"@)
                ||| text::ends(lower, ".webp"@)
                ||| text::holds(lower, "images.metmuseum.org"@)
                ||| text::holds(lower, "iiif"@)
            }
        },
{
}

/// The link of a description is its first word that is a link to an image once the
/// punctuation round it is gone, and there is none only where no word is.
pub proof fn law_first_image_link_is_found(description: Seq<char>, i: int)
    ensures
        ({
            let words = text::words(description);
            &&& (0 <= i < words.len() && is_image_link(unwrapped(words[i])) && forall|j: int|
                0 <= j < i ==> !is_image_link(unwrapped(#[trigger] words[j]))) ==> image_link_in(
                description,
            ) == Some(unwrapped(words[i]))
            &&& (forall|j: int|
                0 <= j < words.len() ==> !is_image_link(unwrapped(#[trigger] words[j]))) ==> (
            image_link_in(description) is None)
            &&& image_link_in(description) == first_image_link(words)
        }),
{
    let words = text::words(description);
    if 0 <= i < words.len() && is_image_link(unwrapped(words[i])) && forall|j: int|
        0 <= j < i ==> !is_image_link(unwrapped(#[trigger] words[j])) {
        lemma_finds_image_link(words, i);
    }
    if forall|j: int| 0 <= j < words.len() ==> !is_image_link(unwrapped(#[trigger] words[j])) {
        let k = lemma_first_image_link(words);
    }
}

proof fn lemma_finds_image_link(words: Seq<Seq<char>>, i: int)
    requires
        0 <= i < words.len(),
        is_image_link(unwrapped(words[i])),
        forall|j: int| 0 <= j < i ==> !is_image_link(unwrapped(#[trigger] words[j])),
    ensures
        first_image_link(words) == Some(unwrapped(words[i])),
    decreases i,
{
    if i > 0 {
        let t = words.drop_first();
        assert(!is_image_link(unwrapped(words[0])));
        assert(t[i - 1] == words[i]);
        assert forall|j: int| 0 <= j < i - 1 implies !is_image_link(
            unwrapped(#[trigger] t[j]),
        ) by {
            assert(t[j] == words[j + 1]);
        }
        lemma_finds_image_link(t, i - 1);
    }
}

/// What a visitor is told of an artwork or a stop names it, whatever its name or number:
/// these are the words, with the name and the number in their places.
pub proof fn law_replies_name_their_subject(
    name: Seq<char>,
    description: Seq<char>,
    stop_number: i64,
    again: bool,
    minutes: u64,
)
    ensures
        stop_time_question(stop_number, name) == "Got it — audio stop "@ + text::signed_decimal(
            stop_number as int,
        ) + " is \""@ + name
            + "\". \n\nHow long would you like to discuss it? Reply with a number of minutes (e.g. 1, 3, 5, or 10)."@,
        stop_unknown(stop_number) == "I couldn’t find audio guide number "@
            + text::signed_decimal(stop_number as int)
            + " in my database. Please try another number or send the artwork name."@,
        again ==> confirm_question(again, name) == "I think you may actually mean \""@ + name
            + "\". Is that the one? Reply yes or no."@,
        !again ==> confirm_question(again, name) == "I think you probably mean \""@ + name
            + "\". Is that the one? Reply yes or no."@,
        yes_or_no(name) == "Just answer yes or no — do you mean \""@ + name + "\"?"@,
        beginning(1, name) == "Great — 1 minute with \""@ + name
            + "\". Let's begin! What's the first thing that catches your eye?"@,
        minutes != 1 ==> beginning(minutes, name) == "Great — "@ + text::decimal(minutes as nat)
            + " minutes with \""@ + name
            + "\". Let's begin! What's the first thing that catches your eye?"@,
        ({
            let asked = "Got it — looks like you're looking at \""@ + name
                + "\".\n\nHow long would you like to discuss it? Reply with a number of minutes (e.g. 1, 3, 5, or 10)."@;
            match first_image_link(text::words(description)) {
                Some(url) => time_question(name, description) == asked + "\n\nImage: "@ + url,
                None => time_question(name, description) == asked,
            }
        }),
{
    reveal_strlit("\". \n\nHow long would you like to discuss it? Reply with a number of minutes (e.g. 1, 3, 5, or 10).");
    reveal_strlit("\".\n\nHow long would you like to discuss it? Reply with a number of minutes (e.g. 1, 3, 5, or 10).");
    reveal_strlit("\n\nHow long would you like to discuss it? Reply with a number of minutes (e.g. 1, 3, 5, or 10).");
    reveal_strlit("\". ");
    reveal_strlit("\".");
    reveal_strlit("Great — 1 minute with \"");
    reveal_strlit("Great — ");
    reveal_strlit(" minute");
    reveal_strlit(" with \"");
    reveal_strlit("s");
    reveal_strlit(" minutes with \"");
    let asks = "\n\nHow long would you like to discuss it? Reply with a number of minutes (e.g. 1, 3, 5, or 10)."@;
    assert(HOW_LONG@ == asks);
    assert("\". "@ + asks =~= "\". \n\nHow long would you like to discuss it? Reply with a number of minutes (e.g. 1, 3, 5, or 10)."@);
    assert("\"."@ + asks =~= "\".\n\nHow long would you like to discuss it? Reply with a number of minutes (e.g. 1, 3, 5, or 10)."@);
    assert(text::decimal(1) =~= seq!['1']);
    assert("Great — "@ + seq!['1'] + " minute"@ + " with \""@ =~= "Great — 1 minute with \""@);
    assert(" minute"@ + "s"@ + " with \""@ =~= " minutes with \""@);
}

} // verus!
