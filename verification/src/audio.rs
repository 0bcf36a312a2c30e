//! Speech for the visitor: what is read aloud, and how synthesized audio is
//! prepared for a chat.

use vstd::prelude::*;

use crate::text;
use crate::wav;

verus! {

// ---------------------------------------------------------------------------
// What is read aloud
// ---------------------------------------------------------------------------

/// Whether a word is an address of the web, whatever its case.
pub open spec fn is_url(word: Seq<char>) -> bool {
    let lower = text::lowered(word);
    text::starts(lower, "http://"@) || text::starts(lower, "https://"@) || text::starts(lower, "www."@)
}

/// The words of a text that are no addresses.
pub open spec fn spoken_words(input: Seq<char>) -> Seq<Seq<char>> {
    text::words(input).filter(|w: Seq<char>| !is_url(w))
}

/// What is read aloud of a text: its words that are no addresses, with single spaces
/// between them.
pub open spec fn spoken(input: Seq<char>) -> Seq<char> {
    text::joined(spoken_words(input), " "@)
}

/// Leaves the addresses of the web out of a text, and puts single spaces between the
/// words that stay.
pub fn strip_urls_for_tts(input: &str) -> (r: String)
    ensures
        r@ == spoken(input@),
{
    let all: Vec<String> = text::split_words(input);
    let mut kept: Vec<String> = Vec::new();
    let mut i: usize = 0;
    let ghost pred = |w: Seq<char>| !is_url(w);
    while i < all.len()
        invariant
            i <= all@.len(),
            pred == (|w: Seq<char>| !is_url(w)),
            text::views(kept@) == text::views(all@).take(i as int).filter(pred),
        decreases all@.len() - i,
    {
        let lower: String = text::to_ascii_lower(all[i].as_str());
        let url: bool = text::starts_with(lower.as_str(), "http://") || text::starts_with(
            lower.as_str(),
            "https://",
        ) || text::starts_with(lower.as_str(), "www.");
        let ghost before = kept@;
        if !url {
            kept.push(all[i].clone());
            assert(text::views(kept@) =~= text::views(before).push(all@[i as int]@));
        }
        proof {
            let next = text::views(all@).take(i + 1);
            assert(next.drop_last() =~= text::views(all@).take(i as int));
            assert(next.last() == all@[i as int]@);
            reveal(Seq::filter);
        }
        i = i + 1;
    }
    assert(text::views(all@).take(i as int) =~= text::views(all@));
    text::join(&kept, " ")
}

/// Filtering keeps what passes, and nothing else.
proof fn lemma_filter_keeps(list: Seq<Seq<char>>, pred: spec_fn(Seq<char>) -> bool)
    ensures
        forall|i: int|
            0 <= i < list.filter(pred).len() ==> pred(#[trigger] list.filter(pred)[i])
                && list.contains(list.filter(pred)[i]),
    decreases list.len(),
{
    reveal(Seq::filter);
    if list.len() > 0 {
        let init = list.drop_last();
        lemma_filter_keeps(init, pred);
        let kept = list.filter(pred);
        assert forall|i: int| 0 <= i < kept.len() implies pred(#[trigger] kept[i])
            && list.contains(kept[i]) by {
            if i < init.filter(pred).len() {
                assert(kept[i] == init.filter(pred)[i]);
                let k = choose|k: int| 0 <= k < init.len() && init[k] == kept[i];
                assert(list[k] == kept[i]);
            } else {
                assert(kept[i] == list[list.len() - 1]);
            }
        }
    }
}

/// Filtering a list that passes whole changes nothing.
proof fn lemma_filter_whole(list: Seq<Seq<char>>, pred: spec_fn(Seq<char>) -> bool)
    requires
        forall|i: int| 0 <= i < list.len() ==> pred(#[trigger] list[i]),
    ensures
        list.filter(pred) == list,
    decreases list.len(),
{
    reveal(Seq::filter);
    if list.len() > 0 {
        let init = list.drop_last();
        assert forall|i: int| 0 <= i < init.len() implies pred(#[trigger] init[i]) by {
            assert(init[i] == list[i]);
        }
        lemma_filter_whole(init, pred);
        assert(pred(list[list.len() - 1]));
        assert(init.push(list.last()) =~= list);
    } else {
        assert(list.filter(pred) =~= list);
    }
}

/// No word of a text to be read aloud is an address, and stripping it again changes
/// nothing.
pub proof fn law_stripped_text_has_no_urls(input: Seq<char>)
    ensures
        ({
            let spoken = text::joined(spoken_words(input), " "@);
            &&& text::words(spoken) == spoken_words(input)
            &&& forall|i: int|
                0 <= i < text::words(spoken).len() ==> !is_url(#[trigger] text::words(spoken)[i])
            &&& text::joined(spoken_words(spoken), " "@) == spoken
        }),
{
    reveal_strlit(" ");
    assert(" "@ =~= seq![' ']);
    let pred = |w: Seq<char>| !is_url(w);
    let all = text::words(input);
    let kept = spoken_words(input);
    lemma_filter_keeps(all, pred);
    text::lemma_words_are_words(input);
    assert forall|i: int| 0 <= i < kept.len() implies text::is_word(#[trigger] kept[i]) by {
        let k = choose|k: int| 0 <= k < all.len() && all[k] == kept[i];
        assert(text::is_word(all[k]));
    }
    text::law_split_undoes_join(kept);
    lemma_filter_whole(kept, pred);
}

// ---------------------------------------------------------------------------
// Synthesized audio
// ---------------------------------------------------------------------------

/// What the header of a WAVE file says of its samples.
#[derive(Clone, Copy, Debug, PartialEq, Eq, Structural)]
pub struct WavFormat {
    pub channels: u16,
    pub sample_rate: u32,
    pub bits_per_sample: u16,
    /// Whether the samples are floating-point numbers rather than integers.
    pub float: bool,
}

/// What `hound::WavReader::new` and `WavReader::spec` find in the header of a file;
/// `None` where the reader rejects it.
pub uninterp spec fn wav_format(file: Seq<u8>) -> Option<WavFormat>;

/// What `hound::WavReader::into_samples::<i16>` yields for a whole file; `None` where
/// the reader rejects the file or one of its samples.
pub uninterp spec fn wav_samples(file: Seq<u8>) -> Option<Seq<i16>>;

/// `hound::WavReader::new` with `WavReader::spec`, over a file in memory: the format
/// is a function of the bytes.
#[verifier::external_body]
fn read_wav_format(file: &[u8]) -> (r: Option<WavFormat>)
    ensures
        r == wav_format(file@),
{
    let spec = hound::WavReader::new(file).ok()?.spec();
    Some(WavFormat {
        channels: spec.channels,
        sample_rate: spec.sample_rate,
        bits_per_sample: spec.bits_per_sample,
        float: matches!(spec.sample_format, hound::SampleFormat::Float),
    })
}

/// `hound::WavReader::into_samples::<i16>` over a file in memory, read to its end: the
/// samples are a function of the bytes.
#[verifier::external_body]
fn read_wav_samples(file: &[u8]) -> (r: Option<Vec<i16>>)
    ensures
        match r {
            Some(samples) => wav_samples(file@) == Some(samples@),
            None => wav_samples(file@) is None,
        },
{
    hound::WavReader::new(file).ok()?.into_samples::<i16>().collect::<Result<Vec<_>, _>>().ok()
}

/// Why synthesized audio cannot be sent.
#[derive(Clone, Copy, Debug, PartialEq, Eq, Structural)]
pub enum AudioError {
    /// The header of the WAVE file is not understood.
    ParseWav,
    /// A sample of the WAVE file cannot be read.
    ReadSamples,
    /// The Opus encoder takes no such sample rate or number of channels.
    Unsupported { sample_rate: u32, channels: u16 },
}

/// How synthesized audio goes on its way.
pub enum TtsAudio {
    /// Send the bytes as they are, with this media type.
    Send { audio: Vec<u8>, mime: &'static str },
    /// Encode the samples as Ogg/Opus and send the result as `audio/ogg`.
    Encode { samples: Vec<i16>, sample_rate: u32, channels: u16 },
    /// Read the samples of this WAVE file as floating-point numbers, bring them to
    /// 16 bits, and go on with `encode_samples`.
    Convert { file: Vec<u8>, format: WavFormat },
}

/// The value that a `TtsAudio` stands for.
pub enum TtsAudioView {
    Send { audio: Seq<u8>, mime: Seq<char> },
    Encode { samples: Seq<i16>, sample_rate: u32, channels: u16 },
    Convert { file: Seq<u8>, format: WavFormat },
}

impl View for TtsAudio {
    type V = TtsAudioView;

    open spec fn view(&self) -> TtsAudioView {
        match self {
            TtsAudio::Send { audio, mime } => TtsAudioView::Send { audio: audio@, mime: mime@ },
            TtsAudio::Encode { samples, sample_rate, channels } => TtsAudioView::Encode {
                samples: samples@,
                sample_rate: *sample_rate,
                channels: *channels,
            },
            TtsAudio::Convert { file, format } => TtsAudioView::Convert {
                file: file@,
                format: *format,
            },
        }
    }
}

/// The outcome of a step, with its value in place of the bytes that hold it.
pub open spec fn outcome(r: Result<TtsAudio, AudioError>) -> Result<TtsAudioView, AudioError> {
    match r {
        Ok(audio) => Ok(audio@),
        Err(e) => Err(e),
    }
}

/// The sample rates and numbers of channels that are encoded as Opus.
pub open spec fn is_encodable(sample_rate: u32, channels: u16) -> bool {
    &&& sample_rate == 48_000 || sample_rate == 24_000 || sample_rate == 16_000
    &&& channels == 1 || channels == 2
}

/// The media type of audio that is passed on as it came.
pub open spec fn passed_mime(format: Seq<char>) -> Seq<char> {
    if format == "mp3"@ {
        "audio/mpeg"@
    } else if format == "opus"@ || format == "ogg"@ {
        "audio/ogg"@
    } else {
        "application/octet-stream"@
    }
}

/// What is done with samples of 16 bits.
pub open spec fn encoding(samples: Seq<i16>, sample_rate: u32, channels: u16) -> Result<
    TtsAudioView,
    AudioError,
> {
    if is_encodable(sample_rate, channels) {
        Ok(TtsAudioView::Encode { samples, sample_rate, channels })
    } else {
        Err(AudioError::Unsupported { sample_rate, channels })
    }
}

/// What is done with a WAVE file of which the reader found `format` and `samples`.
pub open spec fn wav_plan(
    file: Seq<u8>,
    format: Option<WavFormat>,
    samples: Option<Seq<i16>>,
) -> Result<TtsAudioView, AudioError> {
    match format {
        None => Err(AudioError::ParseWav),
        Some(f) => if f.bits_per_sample == 16 && !f.float {
            match samples {
                None => Err(AudioError::ReadSamples),
                Some(s) => encoding(s, f.sample_rate, f.channels),
            }
        } else {
            Ok(TtsAudioView::Convert { file, format: f })
        },
    }
}

/// Hands samples of 16 bits to the Opus encoder, where it takes them.
pub fn encode_samples(samples: Vec<i16>, sample_rate: u32, channels: u16) -> (r: Result<
    TtsAudio,
    AudioError,
>)
    ensures
        outcome(r) == encoding(samples@, sample_rate, channels),
{
    if (sample_rate == 48_000 || sample_rate == 24_000 || sample_rate == 16_000) && (channels == 1
        || channels == 2) {
        Ok(TtsAudio::Encode { samples, sample_rate, channels })
    } else {
        Err(AudioError::Unsupported { sample_rate, channels })
    }
}

/// Decides what is done with a WAVE file, given what the reader found in it.
pub fn plan_wav(file: Vec<u8>, format: Option<WavFormat>, samples: Option<Vec<i16>>) -> (r: Result<
    TtsAudio,
    AudioError,
>)
    ensures
        outcome(r) == wav_plan(
            file@,
            format,
            match samples {
                Some(s) => Some(s@),
                None => None,
            },
        ),
{
    match format {
        None => Err(AudioError::ParseWav),
        Some(f) => {
            if f.bits_per_sample == 16 && !f.float {
                match samples {
                    None => Err(AudioError::ReadSamples),
                    Some(s) => encode_samples(s, f.sample_rate, f.channels),
                }
            } else {
                Ok(TtsAudio::Convert { file, format: f })
            }
        },
    }
}

/// What is done with synthesized audio: WAVE audio gets true sizes in its header and goes by
/// what the reader finds in it; every other format is passed on unchanged.
pub open spec fn prepared(audio: Seq<u8>, format: Seq<char>) -> Result<TtsAudioView, AudioError> {
    if format == "wav"@ {
        let file = wav::sized(audio);
        wav_plan(file, wav_format(file), wav_samples(file))
    } else {
        Ok(TtsAudioView::Send { audio, mime: passed_mime(format) })
    }
}

/// Prepares synthesized audio for sending. WAVE audio gets true sizes in its header
/// and is encoded as Ogg/Opus; every other format is passed on unchanged.
pub fn prepare_tts_audio_for_send(audio: Vec<u8>, format: &str) -> (r: Result<
    TtsAudio,
    AudioError,
>)
    ensures
        outcome(r) == prepared(audio@, format@),
{
    if !text::same(format, "wav") {
        let mime: &'static str = if text::same(format, "mp3") {
            "audio/mpeg"
        } else if text::same(format, "opus") || text::same(format, "ogg") {
            "audio/ogg"
        } else {
            "application/octet-stream"
        };
        return Ok(TtsAudio::Send { audio, mime });
    }
    let file: Vec<u8> = wav::normalize_wav_header(audio.as_slice());
    let found: Option<WavFormat> = read_wav_format(file.as_slice());
    let samples: Option<Vec<i16>> = read_wav_samples(file.as_slice());
    plan_wav(file, found, samples)
}

// ---------------------------------------------------------------------------
// Received audio
// ---------------------------------------------------------------------------

/// Whether a file with this extension holds Ogg/Opus audio, whatever the case.
pub open spec fn is_opus(extension: Seq<char>) -> bool {
    let lower = text::lowered(extension);
    lower == "oga"@ || lower == "ogg"@ || lower == "opus"@
}

/// Whether a received file is decoded before it is transcribed.
pub fn is_ogg_opus_extension(extension: &str) -> (r: bool)
    ensures
        r == is_opus(extension@),
{
    let lower: String = text::to_ascii_lower(extension);
    text::same(lower.as_str(), "oga") || text::same(lower.as_str(), "ogg") || text::same(
        lower.as_str(),
        "opus",
    )
}

/// The format of the WAVE file that decoded Ogg/Opus audio becomes.
pub open spec fn decoded_format(channels: u16) -> WavFormat {
    WavFormat { channels, sample_rate: 48_000, bits_per_sample: 16, float: false }
}

/// The format of the WAVE file that decoded Ogg/Opus audio becomes.
pub fn decoded_wav_format(channels: u16) -> (r: WavFormat)
    ensures
        r == decoded_format(channels),
{
    WavFormat { channels, sample_rate: 48_000, bits_per_sample: 16, float: false }
}

// ---------------------------------------------------------------------------
// What is spoken and sent
// ---------------------------------------------------------------------------

/// An address of the web is told by its start, in whatever case.
pub proof fn law_what_is_an_address(start: Seq<char>, rest: Seq<char>, word: Seq<char>)
    ensures
        text::lowered(start) == "http://"@ || text::lowered(start) == "https://"@ || text::lowered(
            start,
        ) == "www."@ ==> is_url(start + rest),
        is_url(word) ==> exists|x: Seq<char>, y: Seq<char>|
            word == #[trigger] (x + y) && (text::lowered(x) == "http://"@ || text::lowered(x)
                == "https://"@ || text::lowered(x) == "www."@),
{
    let w = start + rest;
    assert(text::lowered(w).subrange(0, start.len() as int) =~= text::lowered(start));
    assert(text::lowered(start).len() == start.len());
    if is_url(word) {
        let lower = text::lowered(word);
        let n = if text::starts(lower, "http://"@) {
            "http://"@.len() as int
        } else if text::starts(lower, "https://"@) {
            "https://"@.len() as int
        } else {
            "www."@.len() as int
        };
        assert(lower.len() == word.len());
        let x = word.take(n);
        let y = word.skip(n);
        assert(text::lowered(x) =~= lower.subrange(0, n));
        assert(word =~= x + y);
    }
}

/// Just the words that are no addresses are read aloud, each of them, in order and with
/// single spaces between them.
pub proof fn law_all_but_addresses_is_spoken(a: Seq<char>, gap: char, b: Seq<char>)
    requires
        text::is_space(gap),
    ensures
        spoken_words(a + seq![gap] + b) == spoken_words(a) + spoken_words(b),
        text::is_word(a) && !is_url(a) ==> spoken_words(a) == seq![a] && spoken(a) == a,
        text::is_word(a) && is_url(a) ==> spoken_words(a) == Seq::<Seq<char>>::empty(),
        text::is_blank(a) ==> spoken_words(a) == Seq::<Seq<char>>::empty(),
        spoken_words(a).len() > 0 && spoken_words(b).len() > 0 ==> spoken(a + seq![gap] + b)
            == spoken(a) + " "@ + spoken(b),
        spoken_words(a).len() == 0 ==> spoken(a + seq![gap] + b) == spoken(b),
        spoken_words(b).len() == 0 ==> spoken(a + seq![gap] + b) == spoken(a),
{
    let pred = |w: Seq<char>| !is_url(w);
    text::law_words_are_parted_by_white_space(a, gap, b);
    Seq::filter_distributes_over_add(text::words(a), text::words(b), pred);
    reveal(Seq::filter);
    if text::is_word(a) {
        let one = seq![a];
        assert(one.drop_last() =~= Seq::<Seq<char>>::empty());
        assert(one.drop_last().filter(pred) =~= Seq::<Seq<char>>::empty());
        assert(one.last() == a);
        if !is_url(a) {
            assert(one.filter(pred) =~= seq![a]);
        } else {
            assert(one.filter(pred) =~= Seq::<Seq<char>>::empty());
        }
    }
    if text::is_blank(a) {
        assert(Seq::<Seq<char>>::empty().filter(pred) =~= Seq::<Seq<char>>::empty());
    }
    text::law_joining_goes_list_by_list(spoken_words(a), spoken_words(b), a, " "@);
    if spoken_words(a).len() == 0 {
        assert(spoken_words(a) + spoken_words(b) =~= spoken_words(b));
    }
    if spoken_words(b).len() == 0 {
        assert(spoken_words(a) + spoken_words(b) =~= spoken_words(a));
    }
}

/// Only WAVE audio is worked on: every other format is sent with all its bytes as they came,
/// under its media type where that is known.
pub proof fn law_other_formats_pass_unchanged(audio: Seq<u8>, format: Seq<char>)
    requires
        format != "wav"@,
    ensures
        ({
            let mime = if format == "mp3"@ {
                "audio/mpeg"@
            } else if format == "opus"@ || format == "ogg"@ {
                "audio/ogg"@
            } else {
                "application/octet-stream"@
            };
            prepared(audio, format) == Ok::<TtsAudioView, AudioError>(
                TtsAudioView::Send { audio, mime },
            )
        }),
{
}

/// WAVE audio goes by what the reader finds once the sizes are repaired. Integer samples of
/// 16 bits are encoded, all of them, if the encoder takes their rate and channels, and
/// refused by name otherwise; other samples are brought to 16 bits first; a file that cannot
/// be read is refused.
pub proof fn law_wave_audio_is_encoded(audio: Seq<u8>)
    ensures
        ({
            let file = wav::sized(audio);
            let r = prepared(audio, "wav"@);
            match wav_format(file) {
                None => r == Err::<TtsAudioView, AudioError>(AudioError::ParseWav),
                Some(f) => if f.float || f.bits_per_sample != 16 {
                    r == Ok::<TtsAudioView, AudioError>(TtsAudioView::Convert { file, format: f })
                } else {
                    match wav_samples(file) {
                        None => r == Err::<TtsAudioView, AudioError>(AudioError::ReadSamples),
                        Some(samples) => r == encoding(samples, f.sample_rate, f.channels),
                    }
                },
            }
        }),
{
}

/// The same holds of a plan for whatever a reader found in a file.
pub proof fn law_plans_go_by_what_was_found(
    file: Seq<u8>,
    format: WavFormat,
    samples: Seq<i16>,
    found: Option<Seq<i16>>,
)
    ensures
        wav_plan(file, None, found) == Err::<TtsAudioView, AudioError>(AudioError::ParseWav),
        format.float || format.bits_per_sample != 16 ==> wav_plan(file, Some(format), found)
            == Ok::<TtsAudioView, AudioError>(TtsAudioView::Convert { file, format }),
        !format.float && format.bits_per_sample == 16 ==> wav_plan(file, Some(format), None)
            == Err::<TtsAudioView, AudioError>(AudioError::ReadSamples) && wav_plan(
            file,
            Some(format),
            Some(samples),
        ) == encoding(samples, format.sample_rate, format.channels),
{
}

/// The encoder takes one or two channels at 16, 24 or 48 thousand samples a second, and
/// nothing else.
pub proof fn law_what_is_encoded(samples: Seq<i16>, sample_rate: u32, channels: u16)
    ensures
        (sample_rate == 16_000 || sample_rate == 24_000 || sample_rate == 48_000) && 1 <= channels
            <= 2 ==> encoding(samples, sample_rate, channels) == Ok::<TtsAudioView, AudioError>(
            TtsAudioView::Encode { samples, sample_rate, channels },
        ),
        !((sample_rate == 16_000 || sample_rate == 24_000 || sample_rate == 48_000) && 1
            <= channels <= 2) ==> encoding(samples, sample_rate, channels) == Err::<
            TtsAudioView,
            AudioError,
        >(AudioError::Unsupported { sample_rate, channels }),
{
}

/// Received audio is decoded if its extension is one of Ogg/Opus, in whatever case; it
/// becomes a file of 16-bit samples at 48 thousand a second, with the channels that it has.
pub proof fn law_received_audio_is_decoded(extension: Seq<char>, channels: u16)
    ensures
        is_opus(extension) <==> seq!["oga"@, "ogg"@, "opus"@].contains(text::lowered(extension)),
        decoded_format(channels).channels == channels,
        decoded_format(channels).sample_rate == 48_000,
        decoded_format(channels).bits_per_sample == 16,
        !decoded_format(channels).float,
{
    let e = seq!["oga"@, "ogg"@, "opus"@];
    assert(e[0] == "oga"@ && e[1] == "ogg"@ && e[2] == "opus"@);
}

} // verus!
