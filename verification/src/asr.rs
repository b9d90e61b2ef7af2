//! Speech recognition with a Whisper network.

use crate::config::{read_whisper_config_layers, read_whisper_config_sizes};
use crate::engine::{
    choose_last, chosen_last, decoder_takes, decodes, dim, encodable, encoder_takes, encodes,
    eot_token, get, holds_row, holds_singles, id_row, is_row, load_whisper, no_timestamps_token,
    nonempty, part_of, projectable, projects, rates_last, rates_none_last, shape, sot_token,
    transcribe_token, whisper_decode, whisper_encode, whisper_fits, whisper_loads,
    whisper_project, whisper_reset, whisper_runs, whisper_usable, whisper_without_cache,
    EngineError,
};
use crate::single::Single;
use crate::text::{
    chars_of, string_of, trim, trimmed, trimming_adds_nothing, trimming_is_stable,
};
use crate::vocab::{LoadError, Vocab};
use candle_core::{Device, Tensor};
use candle_transformers::models::whisper;
use candle_transformers::models::whisper::model::Whisper;
use vstd::prelude::*;
use vstd::slice::{slice_subrange, slice_to_vec};
use vstd::string::*;

verus! {

/// Shorter audio is not recognized: 0.3 s.
pub const MIN_SAMPLES: usize = 4800;

/// Of longer audio only the end is recognized: 15 s.
///
/// The spectrogram is padded by 1500 frames and the encoder halves it; more than this would
/// exceed the 1500 positions that the encoder has.
pub const MAX_SAFE_SAMPLES: usize = 240000;

/// The bit pattern of 0.001, the energy below which normalized audio counts as silent.
pub const SILENCE_BITS: u32 = 0x3a83_126f;

/// How many tokens are decoded at most.
pub const MAX_DECODE_STEPS: usize = 100;

/// The numbers from here on are no text.
pub const FIRST_SPECIAL: u32 = 50257;

/// The samples of a recording that are recognized, if any are: the last 15 s of it.
pub open spec fn recognized_part<S>(samples: Seq<S>) -> Option<Seq<S>> {
    if samples.len() < MIN_SAMPLES {
        None
    } else if samples.len() > MAX_SAFE_SAMPLES {
        Some(samples.skip(samples.len() - MAX_SAFE_SAMPLES))
    } else {
        Some(samples)
    }
}

/// The samples of a recording that are to be recognized.
pub fn recognition_window<S>(samples: &[S]) -> (r: Option<&[S]>)
    ensures
        match r {
            Some(part) => recognized_part(samples@) == Some(part@),
            None => recognized_part(samples@) is None,
        },
{
    let n: usize = samples.len();
    if n < MIN_SAMPLES {
        None
    } else if n > MAX_SAFE_SAMPLES {
        let part = slice_subrange(samples, n - MAX_SAFE_SAMPLES, n);
        assert(part@ =~= samples@.skip(n - MAX_SAFE_SAMPLES));
        Some(part)
    } else {
        Some(samples)
    }
}

/// Whether normalized audio with this root mean square is silent.
pub fn is_silent(rms: Single) -> (b: bool)
    ensures
        b == silent(rms),
{
    Single::from_bits(SILENCE_BITS).gt(rms)
}

/// How many parentheses are open at the end of `s`. A closing one that closes nothing does not
/// count.
pub open spec fn open_parens(s: Seq<char>) -> nat
    decreases s.len(),
{
    if s.len() == 0 {
        0
    } else {
        let before = open_parens(s.drop_last());
        if s.last() == '(' {
            before + 1
        } else if s.last() == ')' && before > 0 {
            (before - 1) as nat
        } else {
            before
        }
    }
}

/// The characters of `s` that stand in no parentheses.
pub open spec fn outside_parens(s: Seq<char>) -> Seq<char>
    decreases s.len(),
{
    if s.len() == 0 {
        seq![]
    } else {
        let before = outside_parens(s.drop_last());
        if s.last() != '(' && open_parens(s.drop_last()) == 0 {
            before.push(s.last())
        } else {
            before
        }
    }
}

/// A text without notes in parentheses.
pub open spec fn cleaned(s: Seq<char>) -> Seq<char> {
    trimmed(outside_parens(s))
}

proof fn open_parens_bounded(s: Seq<char>)
    ensures
        open_parens(s) <= s.len(),
    decreases s.len(),
{
    if s.len() > 0 {
        open_parens_bounded(s.drop_last());
    }
}

/// Removes the notes in parentheses from a text.
fn clean(text: &[char]) -> (r: String)
    ensures
        r@ == cleaned(text@),
{
    let mut out: Vec<char> = Vec::new();
    let mut depth: usize = 0;
    let n: usize = text.len();
    for i in 0..n
        invariant
            n == text@.len(),
            depth == open_parens(text@.take(i as int)),
            depth <= i,
            out@ == outside_parens(text@.take(i as int)),
    {
        let c: char = text[i];
        proof {
            assert(text@.take(i + 1).drop_last() =~= text@.take(i as int));
            open_parens_bounded(text@.take(i as int));
        }
        if c == '(' {
            depth = depth + 1;
        } else if c == ')' && depth > 0 {
            depth = depth - 1;
        } else if depth == 0 {
            out.push(c);
        }
    }
    assert(text@.take(n as int) =~= text@);
    string_of(trim(&out))
}

/// The number of a token, or a usual one if the vocabulary does not have the token.
pub open spec fn id_or(ids: Map<Seq<char>, u32>, token: Seq<char>, usual: u32) -> u32 {
    if ids.contains_key(token) {
        ids[token]
    } else {
        usual
    }
}

/// The token that stands for a language; any language that is not known is taken for English.
pub open spec fn language_token(lang: Seq<char>) -> Seq<char> {
    if lang == "zh"@ {
        "<|zh|>"@
    } else if lang == "ja"@ {
        "<|ja|>"@
    } else if lang == "ko"@ {
        "<|ko|>"@
    } else {
        "<|en|>"@
    }
}

/// The tokens that a transcription starts with.
pub open spec fn prompt(ids: Map<Seq<char>, u32>, lang: Seq<char>) -> Seq<u32> {
    seq![
        id_or(ids, "<|startoftranscript|>"@, 50257),
        id_or(ids, language_token(lang), 50259),
        id_or(ids, "<|transcribe|>"@, 50359),
        id_or(ids, "<|notimestamps|>"@, 50363),
    ]
}

/// The token that ends a transcription.
pub open spec fn end_of_text(ids: Map<Seq<char>, u32>) -> u32 {
    id_or(ids, "<|endoftext|>"@, 50257)
}

/// Whether the network says that there is no speech.
pub open spec fn no_speech(ids: Map<Seq<char>, u32>, tokens: Seq<u32>) -> bool {
    ||| tokens.contains(id_or(ids, "<|nospeech|>"@, 50362))
    ||| tokens.contains(id_or(ids, "<|nocaptions|>"@, 50361))
}

/// The character that a character of a token stands for.
pub open spec fn restored(c: char) -> char {
    if c == '\u{120}' {
        ' '
    } else if c == '\u{10a}' {
        '\n'
    } else if c == '\u{109}' {
        '\t'
    } else {
        c
    }
}

/// The text that the tokens with the given numbers spell. Only the numbers below
/// [`FIRST_SPECIAL`] that belong to a token are text.
pub open spec fn spoken(vocab: Vocab, tokens: Seq<u32>) -> Seq<char>
    decreases tokens.len(),
{
    if tokens.len() == 0 {
        seq![]
    } else {
        let before = spoken(vocab, tokens.drop_last());
        if tokens.last() < FIRST_SPECIAL {
            match vocab.token_of(tokens.last()) {
                Some(token) => before + token.map_values(|c: char| restored(c)),
                None => before,
            }
        } else {
            before
        }
    }
}

/// The text of a transcription: nothing if there is no speech.
pub open spec fn transcript_of(vocab: Vocab, tokens: Seq<u32>) -> Seq<char> {
    if no_speech(vocab@, tokens) {
        seq![]
    } else {
        cleaned(trimmed(spoken(vocab, tokens)))
    }
}

/// Whether the network, in state `before`, may choose `reply` to follow the tokens `ids`: a
/// token with the highest score after the last one of them. `scores` are the log-probabilities
/// of all tokens.
pub open spec fn whisper_rates(
    before: Whisper,
    ids: Seq<u32>,
    features: Tensor,
    flush: bool,
    after: Whisper,
    reply: u32,
    scores: Tensor,
) -> bool {
    exists|hidden: Tensor, logits: Tensor|
        {
            &&& #[trigger] decodes(before, ids, features, flush, after, hidden)
            &&& #[trigger] projects(after, hidden, logits)
            &&& chosen_last(logits, reply, scores)
        }
}

/// Whether the network, in state `before`, may choose `reply` to follow the tokens `ids`;
/// `score` is its log-probability.
pub open spec fn whisper_chooses(
    before: Whisper,
    ids: Seq<u32>,
    features: Tensor,
    flush: bool,
    after: Whisper,
    reply: u32,
    score: Tensor,
) -> bool {
    exists|scores: Tensor| #[trigger]
        whisper_rates(before, ids, features, flush, after, reply, scores) && part_of(
            scores,
            reply as nat,
            score,
        )
}

/// Whether the network, in state `before`, may have no score for what follows the tokens `ids`.
pub open spec fn whisper_rates_none(
    before: Whisper,
    ids: Seq<u32>,
    features: Tensor,
    flush: bool,
    after: Whisper,
) -> bool {
    exists|hidden: Tensor, logits: Tensor|
        {
            &&& #[trigger] decodes(before, ids, features, flush, after, hidden)
            &&& #[trigger] projects(after, hidden, logits)
            &&& rates_none_last(logits)
        }
}

/// Whether the network, in state `before`, may refuse to rate what follows the tokens `ids`:
/// the device cannot hold them, the decoder does not take them, the hidden state cannot be given
/// scores, or the scores have the wrong shape.
pub open spec fn whisper_refuses(
    before: Whisper,
    device: Device,
    ids: Seq<u32>,
    features: Tensor,
    flush: bool,
    after: Whisper,
) -> bool {
    ||| !holds_row(device, ids)
    ||| exists|row: Tensor| #[trigger]
        is_row(row, ids) && !decoder_takes(before, row, features, flush)
    ||| exists|hidden: Tensor| #[trigger]
        decodes(before, ids, features, flush, after, hidden) && !projectable(after, hidden)
    ||| exists|hidden: Tensor, logits: Tensor|
        {
            &&& #[trigger] decodes(before, ids, features, flush, after, hidden)
            &&& #[trigger] projects(after, hidden, logits)
            &&& !rates_last(logits)
            &&& !rates_none_last(logits)
        }
}

/// Whether reply `k` may be chosen to follow `start` and the replies before it. The first step
/// flushes the cache.
pub open spec fn run_step(
    models: Seq<Whisper>,
    features: Tensor,
    start: Seq<u32>,
    replies: Seq<u32>,
    scores: Seq<Tensor>,
    k: int,
) -> bool {
    whisper_chooses(
        models[k],
        start + replies.take(k),
        features,
        k == 0,
        models[k + 1],
        replies[k],
        scores[k],
    )
}

/// Whether the network may have gone on with `replies` after the tokens `start` so far: each is
/// chosen to follow all tokens before it, and no token follows the end of the text.
pub open spec fn transcription_begun(
    models: Seq<Whisper>,
    features: Tensor,
    start: Seq<u32>,
    eot: u32,
    replies: Seq<u32>,
    scores: Seq<Tensor>,
) -> bool {
    &&& models.len() == replies.len() + 1
    &&& scores.len() == replies.len()
    &&& replies.len() <= MAX_DECODE_STEPS
    &&& forall|k: int|
        0 <= k < replies.len() ==> #[trigger] run_step(models, features, start, replies, scores, k)
    &&& forall|k: int|
        0 <= k < replies.len() ==> #[trigger] (start + replies)[start.len() - 1 + k] != eot
}

/// Whether decoding stops with the given replies: after the end of the text, or after
/// [`MAX_DECODE_STEPS`] tokens.
pub open spec fn transcription_over(start: Seq<u32>, eot: u32, replies: Seq<u32>) -> bool {
    replies.len() == MAX_DECODE_STEPS || (start + replies).last() == eot
}

/// Whether the network may go on with `replies` after the tokens `start`, and no further.
pub open spec fn transcription_run(
    models: Seq<Whisper>,
    features: Tensor,
    start: Seq<u32>,
    eot: u32,
    replies: Seq<u32>,
    scores: Seq<Tensor>,
) -> bool {
    &&& transcription_begun(models, features, start, eot, replies, scores)
    &&& transcription_over(start, eot, replies)
}

/// Whether `tokens` may be the transcription of audio features by a network that goes from
/// state `before` to state `after`: the prompt and what the network goes on with. `scores` are
/// the log-probabilities of the latter.
pub open spec fn may_transcribe(
    words: Vocab,
    lang: Seq<char>,
    before: Whisper,
    features: Tensor,
    after: Whisper,
    tokens: Seq<u32>,
    scores: Seq<Tensor>,
) -> bool {
    exists|models: Seq<Whisper>, replies: Seq<u32>|
        {
            &&& #[trigger] transcription_run(
                models,
                features,
                prompt(words@, lang),
                end_of_text(words@),
                replies,
                scores,
            )
            &&& models[0] == before
            &&& models.last() == after
            &&& tokens == prompt(words@, lang) + replies
        }
}

/// Whether the transcription of audio features may fail: after some replies that do not end it,
/// the network has no score for what follows, if `unrated`, or else refuses to rate it.
pub open spec fn may_get_stuck(
    words: Vocab,
    lang: Seq<char>,
    device: Device,
    before: Whisper,
    features: Tensor,
    after: Whisper,
    unrated: bool,
) -> bool {
    exists|models: Seq<Whisper>, replies: Seq<u32>, scores: Seq<Tensor>|
        {
            let start = prompt(words@, lang);
            let flush = replies.len() == 0;
            &&& #[trigger] transcription_begun(
                models,
                features,
                prompt(words@, lang),
                end_of_text(words@),
                replies,
                scores,
            )
            &&& !transcription_over(start, end_of_text(words@), replies)
            &&& models[0] == before
            &&& if unrated {
                whisper_rates_none(models.last(), start + replies, features, flush, after)
            } else {
                whisper_refuses(models.last(), device, start + replies, features, flush, after)
            }
        }
}

/// Whether the recognition of a spectrogram may fail: the encoder does not take it, unless
/// `unrated`, or the transcription of its features fails.
pub open spec fn may_fail(
    words: Vocab,
    lang: Seq<char>,
    device: Device,
    before: Whisper,
    mel: Tensor,
    after: Whisper,
    unrated: bool,
) -> bool {
    ||| !unrated && !encoder_takes(before, mel)
    ||| exists|encoder: Whisper, features: Tensor| #[trigger]
        encodes(before, mel, encoder, features) && may_get_stuck(
            words,
            lang,
            device,
            whisper_without_cache(encoder),
            features,
            after,
            unrated,
        )
}

/// Whether a spectrogram may be recognized as `text` by a network in state `before`: the
/// network encodes it, starts without a cache, and `text` is the transcript of its
/// transcription. `scores` are the log-probabilities of the chosen tokens; there are none if
/// there is no speech.
pub open spec fn may_recognize(
    words: Vocab,
    lang: Seq<char>,
    before: Whisper,
    mel: Tensor,
    after: Whisper,
    text: Seq<char>,
    scores: Seq<Tensor>,
) -> bool {
    exists|
        encoder: Whisper,
        features: Tensor,
        tokens: Seq<u32>,
        chosen: Seq<Tensor>,
    |
        {
            &&& #[trigger] encodes(before, mel, encoder, features)
            &&& #[trigger] may_transcribe(
                words,
                lang,
                whisper_without_cache(encoder),
                features,
                after,
                tokens,
                chosen,
            )
            &&& text == transcript_of(words, tokens)
            &&& scores == if no_speech(words@, tokens) {
                Seq::<Tensor>::empty()
            } else {
                chosen
            }
        }
}

/// Whether `normalize` may make these samples of the given ones, and find them to have this
/// energy.
pub open spec fn measured<S, N: Fn(Vec<S>) -> (Vec<S>, Single)>(
    normalize: N,
    part: Seq<S>,
    normalized: Seq<S>,
    rms: Single,
) -> bool {
    exists|v: Vec<S>, w: Vec<S>|
        v@ == part && w@ == normalized && #[trigger] call_ensures(normalize, (v,), (w, rms))
}

/// Whether `draw` may make this spectrogram of the given samples, or fail with this error.
pub open spec fn drawn<S, D: Fn(Vec<S>) -> Result<Tensor, candle_core::Error>>(
    draw: D,
    samples: Seq<S>,
    drawing: Result<Tensor, candle_core::Error>,
) -> bool {
    exists|v: Vec<S>| v@ == samples && #[trigger] call_ensures(draw, (v,), drawing)
}

/// Whether normalized audio with this energy is silent.
pub open spec fn silent(rms: Single) -> bool {
    (Single { bits: SILENCE_BITS }).above(rms)
}

/// Whether normalized samples with this energy may be recognized as `text`, with the given
/// log-probabilities: nothing if they are silent, and otherwise what their spectrogram is
/// recognized as.
pub open spec fn may_hear_normalized<S, D: Fn(Vec<S>) -> Result<Tensor, candle_core::Error>>(
    words: Vocab,
    lang: Seq<char>,
    before: Whisper,
    normalized: Seq<S>,
    rms: Single,
    draw: D,
    after: Whisper,
    text: Seq<char>,
    scores: Seq<Tensor>,
) -> bool {
    if silent(rms) {
        text.len() == 0 && scores.len() == 0 && after == before
    } else {
        exists|mel: Tensor| #[trigger]
            drawn(draw, normalized, Ok(mel)) && may_recognize(
                words,
                lang,
                before,
                mel,
                after,
                text,
                scores,
            )
    }
}

/// Whether a recording may be recognized as `text`, with the given log-probabilities: nothing
/// if too little of it is there or that is silent, and otherwise what its spectrogram is
/// recognized as.
pub open spec fn may_hear<
    S,
    N: Fn(Vec<S>) -> (Vec<S>, Single),
    D: Fn(Vec<S>) -> Result<Tensor, candle_core::Error>,
>(
    words: Vocab,
    lang: Seq<char>,
    before: Whisper,
    samples: Seq<S>,
    normalize: N,
    draw: D,
    after: Whisper,
    text: Seq<char>,
    scores: Seq<Tensor>,
) -> bool {
    match recognized_part(samples) {
        None => text.len() == 0 && scores.len() == 0 && after == before,
        Some(part) => exists|normalized: Seq<S>, rms: Single| #[trigger]
            measured(normalize, part, normalized, rms) && may_hear_normalized(
                words,
                lang,
                before,
                normalized,
                rms,
                draw,
                after,
                text,
                scores,
            ),
    }
}

/// Whether the recognition of a recording may fail with this error: enough of it is there and
/// not silent, and there is no spectrogram of it, or one without entries, or the recognition of
/// that fails.
pub open spec fn may_not_hear<
    S,
    N: Fn(Vec<S>) -> (Vec<S>, Single),
    D: Fn(Vec<S>) -> Result<Tensor, candle_core::Error>,
>(
    words: Vocab,
    lang: Seq<char>,
    device: Device,
    before: Whisper,
    samples: Seq<S>,
    normalize: N,
    draw: D,
    after: Whisper,
    error: EngineError,
) -> bool {
    recognized_part(samples) matches Some(part) && exists|normalized: Seq<S>, rms: Single|
        #[trigger]
        measured(normalize, part, normalized, rms) && !silent(rms) && {
            ||| error matches EngineError::Tensor(e) && drawn(draw, normalized, Err(e))
            ||| exists|mel: Tensor| #[trigger]
                drawn(draw, normalized, Ok(mel)) && if error is NoAudio {
                    !encodable(mel)
                } else {
                    &&& encodable(mel)
                    &&& error is Tensor || error is NoScores
                    &&& may_fail(words, lang, device, before, mel, after, error is NoScores)
                }
        }
}

/// A speech recognizer: a network with its vocabulary and the language that it listens for.
pub struct AsrRecognizer {
    model: Whisper,
    vocab: Vocab,
    device: Device,
    lang: String,
}

impl AsrRecognizer {
    /// The network.
    pub closed spec fn network(&self) -> Whisper {
        self.model
    }

    /// The vocabulary.
    pub closed spec fn words(&self) -> Vocab {
        self.vocab
    }

    /// The language that is listened for.
    pub closed spec fn language(&self) -> Seq<char> {
        self.lang@
    }

    /// Where the network runs.
    pub closed spec fn place(&self) -> Device {
        self.device
    }

    /// Whether the network can be run; it can be from the start on and stays so.
    pub open spec fn ready(&self) -> bool {
        whisper_runs(self.network())
    }

    /// Loads a recognizer: a network with the given configuration and weights.
    ///
    /// This succeeds exactly if the configuration is that of a network that can be run and the
    /// weights fit it.
    pub fn new(
        config: whisper::Config,
        vocab: Vocab,
        weights: &[u8],
        device: Device,
        lang: &str,
    ) -> (r: Result<Self, LoadError>)
        ensures
            match r {
                Ok(recognizer) => {
                    &&& whisper_usable(config)
                    &&& whisper_fits(config, weights@, device)
                    &&& recognizer.ready()
                    &&& whisper_loads(config, weights@, device, recognizer.network())
                    &&& recognizer.words() == vocab
                    &&& recognizer.place() == device
                    &&& recognizer.language() == lang@
                },
                Err(LoadError::Network) => !whisper_usable(config),
                Err(e) => {
                    &&& whisper_usable(config)
                    &&& !whisper_fits(config, weights@, device)
                    &&& e is Weights
                },
            },
    {
        let (encoder_heads, decoder_heads, width) = read_whisper_config_sizes(&config);
        let (encoder_layers, decoder_layers) = read_whisper_config_layers(&config);
        if (encoder_layers > 0 && encoder_heads == 0) || (decoder_layers > 0 && decoder_heads == 0)
            || width <= 1 {
            return Err(LoadError::Network);
        }
        match load_whisper(config, weights, &device) {
            Ok(model) => Ok(AsrRecognizer { model, vocab, device, lang: String::from_str(lang) }),
            Err(e) => Err(LoadError::Weights(e)),
        }
    }

    /// Listens for another language from now on.
    pub fn set_language(&mut self, lang: &str)
        ensures
            final(self).language() == lang@,
            final(self).network() == old(self).network(),
            final(self).words() == old(self).words(),
            final(self).place() == old(self).place(),
    {
        self.lang = String::from_str(lang);
    }

    /// Removes the notes in parentheses, such as "(laughs)", that a transcription may hold.
    pub fn clean_text(text: &str) -> (r: String)
        ensures
            r@ == cleaned(text@),
    {
        clean(&chars_of(text))
    }

    fn id_or(&self, token: &str, usual: u32) -> (r: u32)
        ensures
            r == id_or(self.words()@, token@, usual),
    {
        match self.vocab.id(token) {
            Some(id) => id,
            None => usual,
        }
    }

    /// The tokens that a transcription starts with.
    pub fn prompt(&self) -> (r: Vec<u32>)
        ensures
            r@ == prompt(self.words()@, self.language()),
    {
        let sot: u32 = self.id_or(sot_token(), 50257);
        let token: &str = if self.lang == String::from_str("zh") {
            "<|zh|>"
        } else if self.lang == String::from_str("ja") {
            "<|ja|>"
        } else if self.lang == String::from_str("ko") {
            "<|ko|>"
        } else {
            "<|en|>"
        };
        let lang_token: u32 = self.id_or(token, 50259);
        let transcribe: u32 = self.id_or(transcribe_token(), 50359);
        let no_ts: u32 = self.id_or(no_timestamps_token(), 50363);
        let r: Vec<u32> = vec![sot, lang_token, transcribe, no_ts];
        assert(r@ =~= prompt(self.words()@, self.language()));
        r
    }

    /// Whether a transcription says that there is no speech.
    pub fn hears_no_speech(&self, tokens: &[u32]) -> (b: bool)
        ensures
            b == no_speech(self.words()@, tokens@),
    {
        let nospeech: u32 = self.id_or("<|nospeech|>", 50362);
        let nocaptions: u32 = self.id_or("<|nocaptions|>", 50361);
        let n: usize = tokens.len();
        for i in 0..n
            invariant
                n == tokens@.len(),
                forall|j: int|
                    0 <= j < i ==> #[trigger] tokens@[j] != nospeech && tokens@[j] != nocaptions,
                nospeech == id_or(self.words()@, "<|nospeech|>"@, 50362),
                nocaptions == id_or(self.words()@, "<|nocaptions|>"@, 50361),
        {
            if tokens[i] == nospeech || tokens[i] == nocaptions {
                assert(tokens@.contains(tokens@[i as int]));
                return true;
            }
        }
        false
    }

    fn spoken_chars(&self, tokens: &[u32]) -> (r: Vec<char>)
        ensures
            r@ == spoken(self.words(), tokens@),
    {
        let mut chars: Vec<char> = Vec::new();
        let n: usize = tokens.len();
        let ghost f = |c: char| restored(c);
        for i in 0..n
            invariant
                n == tokens@.len(),
                f == (|c: char| restored(c)),
                chars@ == spoken(self.vocab, tokens@.take(i as int)),
        {
            let ghost before = chars@;
            assert(tokens@.take(i + 1).drop_last() =~= tokens@.take(i as int));
            if tokens[i] < FIRST_SPECIAL {
                if let Some(token) = self.vocab.token(tokens[i]) {
                    for c in it: token.as_str().chars()
                        invariant
                            it.seq() == token@,
                            f == (|c: char| restored(c)),
                            chars@ == before + token@.map_values(f).take(it.index()),
                    {
                        if c == '\u{120}' {
                            chars.push(' ');
                        } else if c == '\u{10a}' {
                            chars.push('\n');
                        } else if c == '\u{109}' {
                            chars.push('\t');
                        } else {
                            chars.push(c);
                        }
                    }
                    assert(token@.map_values(f).take(token@.len() as int) =~= token@.map_values(f));
                }
            }
        }
        assert(tokens@.take(n as int) =~= tokens@);
        chars
    }

    /// All that the tokens of a transcription spell, notes included.
    pub fn plain_text(&self, tokens: &[u32]) -> (r: String)
        ensures
            r@ == trimmed(spoken(self.words(), tokens@)),
    {
        string_of(trim(&self.spoken_chars(tokens)))
    }

    /// The text of a transcription, given its tokens.
    pub fn transcript(&self, tokens: &[u32]) -> (r: String)
        ensures
            r@ == transcript_of(self.words(), tokens@),
    {
        if self.hears_no_speech(tokens) {
            let r = String::new();
            assert(r@ =~= transcript_of(self.words(), tokens@));
            return r;
        }
        clean(trim(&self.spoken_chars(tokens)))
    }

    /// One step of a transcription: the token that is to follow `tokens`, and the
    /// log-probabilities of all tokens.
    ///
    /// This fails only where the network refuses to rate what follows, or has no score for it.
    pub fn next_token(&mut self, tokens: &[u32], features: &Tensor, flush: bool) -> (r: Result<
        (u32, Tensor),
        EngineError,
    >)
        requires
            old(self).ready(),
            nonempty(*features),
            tokens@.len() > 0,
        ensures
            final(self).ready(),
            final(self).words() == old(self).words(),
            final(self).language() == old(self).language(),
            final(self).place() == old(self).place(),
            match r {
                Ok(choice) => {
                    &&& shape(choice.1).len() == 1
                    &&& choice.0 < shape(choice.1)[0]
                    &&& holds_singles(choice.1)
                    &&& whisper_rates(
                        old(self).network(),
                        tokens@,
                        *features,
                        flush,
                        final(self).network(),
                        choice.0,
                        choice.1,
                    )
                },
                Err(EngineError::NoScores) => whisper_rates_none(
                    old(self).network(),
                    tokens@,
                    *features,
                    flush,
                    final(self).network(),
                ),
                Err(e) => e is Tensor && whisper_refuses(
                    old(self).network(),
                    old(self).place(),
                    tokens@,
                    *features,
                    flush,
                    final(self).network(),
                ),
            },
    {
        let input = match id_row(tokens, &self.device) {
            Ok(t) => t,
            Err(e) => return Err(EngineError::Tensor(e)),
        };
        let hidden = match whisper_decode(&mut self.model, &input, features, flush) {
            Ok(t) => t,
            Err(e) => return Err(EngineError::Tensor(e)),
        };
        let logits = match whisper_project(&self.model, &hidden) {
            Ok(t) => t,
            Err(e) => return Err(EngineError::Tensor(e)),
        };
        choose_last(&logits)
    }

    /// Encodes a spectrogram and forgets what was decoded before.
    ///
    /// This fails exactly if the spectrogram has no entries or the encoder does not take it.
    pub fn listen(&mut self, mel: &Tensor) -> (r: Result<Tensor, EngineError>)
        requires
            old(self).ready(),
        ensures
            final(self).ready(),
            final(self).words() == old(self).words(),
            final(self).language() == old(self).language(),
            final(self).place() == old(self).place(),
            match r {
                Ok(features) => {
                    &&& encodable(*mel)
                    &&& encoder_takes(old(self).network(), *mel)
                    &&& nonempty(features)
                    &&& exists|encoder: Whisper| #[trigger]
                        encodes(old(self).network(), *mel, encoder, features)
                            && final(self).network() == whisper_without_cache(encoder)
                },
                Err(EngineError::NoAudio) => !encodable(*mel),
                Err(e) => {
                    &&& e is Tensor
                    &&& encodable(*mel)
                    &&& !encoder_takes(old(self).network(), *mel)
                },
            },
    {
        let sizes = (dim(mel, 0), dim(mel, 1), dim(mel, 2), dim(mel, 3));
        if let (Ok(a), Ok(b), Ok(c), Err(_)) = sizes {
            if a == 0 || b == 0 || c == 0 {
                assert(shape(*mel)[0] == a && shape(*mel)[1] == b && shape(*mel)[2] == c);
                return Err(EngineError::NoAudio);
            }
        }
        assert(encodable(*mel));
        let features = match whisper_encode(&mut self.model, mel) {
            Ok(t) => t,
            Err(e) => return Err(EngineError::Tensor(e)),
        };
        whisper_reset(&mut self.model);
        Ok(features)
    }

    /// Transcribes audio features: all tokens, those of the prompt first, and the
    /// log-probabilities of the tokens that follow the prompt.
    ///
    /// Whatever the network replies, it is given the prompt and all its own replies, and
    /// decoding stops where [`transcription_over`] says. This fails only where the network
    /// refuses to rate what follows its replies, or has no score for it, and so never if the
    /// prompt itself ends the text.
    pub fn decode(&mut self, features: &Tensor) -> (r: Result<
        (Vec<u32>, Vec<Tensor>),
        EngineError,
    >)
        requires
            old(self).ready(),
            nonempty(*features),
        ensures
            final(self).ready(),
            final(self).words() == old(self).words(),
            final(self).language() == old(self).language(),
            final(self).place() == old(self).place(),
            prompt(old(self).words()@, old(self).language()).last() == end_of_text(
                old(self).words()@,
            ) ==> r is Ok,
            match r {
                Ok(heard) => may_transcribe(
                    old(self).words(),
                    old(self).language(),
                    old(self).network(),
                    *features,
                    final(self).network(),
                    heard.0@,
                    heard.1@,
                ),
                Err(e) => (e is Tensor || e is NoScores) && may_get_stuck(
                    old(self).words(),
                    old(self).language(),
                    old(self).place(),
                    old(self).network(),
                    *features,
                    final(self).network(),
                    e is NoScores,
                ),
            },
    {
        let mut tokens = self.prompt();
        let eot: u32 = self.id_or(eot_token(), 50257);
        let mut scores: Vec<Tensor> = Vec::new();
        let ghost start = tokens@;
        let ghost mut models: Seq<Whisper> = seq![self.model];
        let ghost mut replies: Seq<u32> = seq![];
        assert(start + replies =~= start);
        let mut step: usize = 0;
        while step < MAX_DECODE_STEPS && tokens[tokens.len() - 1] != eot
            invariant
                step <= MAX_DECODE_STEPS,
                nonempty(*features),
                self.ready(),
                self.words() == old(self).words(),
                self.language() == old(self).language(),
                self.place() == old(self).place(),
                start == prompt(old(self).words()@, old(self).language()),
                eot == end_of_text(old(self).words()@),
                start.len() == 4,
                tokens@ == start + replies,
                replies.len() == step,
                scores@.len() == step,
                models.len() == step + 1,
                models[0] == old(self).network(),
                models.last() == self.network(),
                forall|k: int|
                    0 <= k < step ==> #[trigger] run_step(
                        models,
                        *features,
                        start,
                        replies,
                        scores@,
                        k,
                    ),
                forall|k: int| 0 <= k < step ==> #[trigger] (start + replies)[start.len() - 1 + k] != eot,
            decreases MAX_DECODE_STEPS - step,
        {
            let ghost models_before = models;
            let ghost replies_before = replies;
            let ghost scores_before = scores@;
            assert(transcription_begun(models, *features, start, eot, replies, scores@));
            assert(!transcription_over(start, eot, replies));
            assert(start.last() == eot ==> replies.len() == 0 || (start + replies)[start.len() - 1
                + 0] == eot);
            let (selected, row) = match self.next_token(&tokens, features, step == 0) {
                Ok(choice) => choice,
                Err(e) => return Err(e),
            };
            let score = match get(&row, selected as usize) {
                Ok(t) => t,
                Err(e) => return Err(EngineError::Tensor(e)),
            };
            assert(part_of(row, selected as nat, score));
            scores.push(score);
            tokens.push(selected);
            proof {
                replies = replies.push(selected);
                models = models.push(self.network());
                assert(start + replies =~= tokens@);
                assert forall|k: int| 0 <= k < step + 1 implies #[trigger] run_step(
                    models,
                    *features,
                    start,
                    replies,
                    scores@,
                    k,
                ) by {
                    assert(replies.take(k) =~= replies_before.take(k));
                    if k < step {
                        assert(run_step(
                            models_before,
                            *features,
                            start,
                            replies_before,
                            scores_before,
                            k,
                        ));
                    } else {
                        assert(replies_before.take(k) =~= replies_before);
                    }
                }
                assert forall|k: int| 0 <= k < step + 1 implies #[trigger] (start + replies)[start.len()
                    - 1 + k] != eot by {
                    assert((start + replies)[start.len() - 1 + k] == (start
                        + replies_before)[start.len() - 1 + k]);
                }
            }
            step = step + 1;
        }
        assert(transcription_run(models, *features, start, eot, replies, scores@));
        Ok((tokens, scores))
    }

    /// Recognizes the speech of a spectrogram: its text and the log-probabilities of the tokens
    /// that were decoded.
    ///
    /// What the network replies decides the text; [`may_recognize`] says how. This fails on a
    /// spectrogram without entries, and otherwise only as [`may_fail`] says.
    pub fn recognize_spectrogram(&mut self, mel: &Tensor) -> (r: Result<
        (String, Vec<Tensor>),
        EngineError,
    >)
        requires
            old(self).ready(),
        ensures
            final(self).ready(),
            final(self).words() == old(self).words(),
            final(self).language() == old(self).language(),
            final(self).place() == old(self).place(),
            (r matches Err(EngineError::NoAudio)) <==> !encodable(*mel),
            r matches Err(e) ==> e is NoAudio || (e is Tensor || e is NoScores) && may_fail(
                old(self).words(),
                old(self).language(),
                old(self).place(),
                old(self).network(),
                *mel,
                final(self).network(),
                e is NoScores,
            ),
            r matches Ok(heard) ==> may_recognize(
                old(self).words(),
                old(self).language(),
                old(self).network(),
                *mel,
                final(self).network(),
                heard.0@,
                heard.1@,
            ),
    {
        let features = match self.listen(mel) {
            Ok(t) => t,
            Err(e) => return Err(e),
        };
        let ghost encoder = choose|encoder: Whisper| #[trigger]
            encodes(old(self).network(), *mel, encoder, features) && self.network()
                == whisper_without_cache(encoder);
        let (tokens, chosen) = match self.decode(&features) {
            Ok(heard) => heard,
            Err(e) => return Err(e),
        };
        let ghost all = chosen@;
        assert(encodes(old(self).network(), *mel, encoder, features));
        assert(may_transcribe(
            old(self).words(),
            old(self).language(),
            whisper_without_cache(encoder),
            features,
            self.network(),
            tokens@,
            all,
        ));
        let text = self.transcript(&tokens);
        let scores = if self.hears_no_speech(&tokens) {
            Vec::new()
        } else {
            chosen
        };
        assert(scores@ =~= if no_speech(old(self).words()@, tokens@) {
            Seq::<Tensor>::empty()
        } else {
            all
        });
        Ok((text, scores))
    }

    /// Recognizes the speech of a recording: its text and the log-probabilities of the tokens
    /// that were decoded.
    ///
    /// `normalize` raises samples to a common level and measures their energy, `draw` turns them
    /// into a spectrogram. Of the recording only the part that [`recognized_part`] says is looked
    /// at; where that is too short, or silent, nothing is recognized and the network is not run.
    pub fn recognize_with_confidence<
        S: Copy,
        N: Fn(Vec<S>) -> (Vec<S>, Single),
        D: Fn(Vec<S>) -> Result<Tensor, candle_core::Error>,
    >(&mut self, samples: &[S], normalize: N, draw: D) -> (r: Result<
        (String, Vec<Tensor>),
        EngineError,
    >)
        requires
            old(self).ready(),
            forall|v: Vec<S>| #[trigger] call_requires(normalize, (v,)),
            forall|v: Vec<S>| #[trigger] call_requires(draw, (v,)),
        ensures
            final(self).ready(),
            final(self).words() == old(self).words(),
            final(self).language() == old(self).language(),
            final(self).place() == old(self).place(),
            recognized_part(samples@) is None ==> r is Ok,
            match r {
                Ok(heard) => may_hear(
                    old(self).words(),
                    old(self).language(),
                    old(self).network(),
                    samples@,
                    normalize,
                    draw,
                    final(self).network(),
                    heard.0@,
                    heard.1@,
                ),
                Err(e) => may_not_hear(
                    old(self).words(),
                    old(self).language(),
                    old(self).place(),
                    old(self).network(),
                    samples@,
                    normalize,
                    draw,
                    final(self).network(),
                    e,
                ),
            },
    {
        let part = match recognition_window(samples) {
            Some(part) => part,
            None => {
                let r = (String::new(), Vec::new());
                assert(r.0@ =~= Seq::<char>::empty());
                assert(r.1@ =~= Seq::<Tensor>::empty());
                return Ok(r);
            },
        };
        let copy = slice_to_vec(part);
        let ghost given = copy;
        let (normalized, rms) = normalize(copy);
        let ghost level = normalized@;
        assert(call_ensures(normalize, (given,), (normalized, rms)));
        assert(measured(normalize, recognized_part(samples@).unwrap(), level, rms));
        if is_silent(rms) {
            let r = (String::new(), Vec::new());
            assert(r.0@ =~= Seq::<char>::empty());
            assert(r.1@ =~= Seq::<Tensor>::empty());
            return Ok(r);
        }
        let ghost handed = normalized;
        let drawing = draw(normalized);
        assert(call_ensures(draw, (handed,), drawing));
        assert(drawn(draw, level, drawing));
        match drawing {
            Ok(mel) => {
                assert(drawn(draw, level, Ok(mel)));
                self.recognize_spectrogram(&mel)
            },
            Err(e) => Err(EngineError::Tensor(e)),
        }
    }

    /// Recognizes the speech of a recording, as [`AsrRecognizer::recognize_with_confidence`]
    /// does.
    pub fn recognize<
        S: Copy,
        N: Fn(Vec<S>) -> (Vec<S>, Single),
        D: Fn(Vec<S>) -> Result<Tensor, candle_core::Error>,
    >(&mut self, samples: &[S], normalize: N, draw: D) -> (r: Result<String, EngineError>)
        requires
            old(self).ready(),
            forall|v: Vec<S>| #[trigger] call_requires(normalize, (v,)),
            forall|v: Vec<S>| #[trigger] call_requires(draw, (v,)),
        ensures
            final(self).ready(),
            final(self).words() == old(self).words(),
            final(self).language() == old(self).language(),
            final(self).place() == old(self).place(),
            recognized_part(samples@) is None ==> r is Ok,
            r is Ok ==> exists|scores: Seq<Tensor>|
                #[trigger] may_hear(
                    old(self).words(),
                    old(self).language(),
                    old(self).network(),
                    samples@,
                    normalize,
                    draw,
                    final(self).network(),
                    r->Ok_0@,
                    scores,
                ),
            r matches Err(e) ==> may_not_hear(
                old(self).words(),
                old(self).language(),
                old(self).place(),
                old(self).network(),
                samples@,
                normalize,
                draw,
                final(self).network(),
                e,
            ),
    {
        let ghost (n, d) = (normalize, draw);
        let heard = self.recognize_with_confidence(samples, normalize, draw);
        let ghost scores: Seq<Tensor> = heard->Ok_0.1@;
        let r = match heard {
            Ok((text, _)) => Ok(text),
            Err(e) => Err(e),
        };
        assert(r is Ok ==> may_hear(
            old(self).words(),
            old(self).language(),
            old(self).network(),
            samples@,
            n,
            d,
            self.network(),
            r->Ok_0@,
            scores,
        ));
        r
    }
}

proof fn nothing_outside_opens(s: Seq<char>)
    ensures
        !outside_parens(s).contains('('),
    decreases s.len(),
{
    if s.len() > 0 {
        let before = outside_parens(s.drop_last());
        nothing_outside_opens(s.drop_last());
        if outside_parens(s).contains('(') {
            let i = choose|i: int|
                0 <= i < outside_parens(s).len() && outside_parens(s)[i] == '(';
            assert(before[i] == '(');
        }
    }
}

proof fn plain_text_is_outside(s: Seq<char>)
    requires
        !s.contains('('),
    ensures
        open_parens(s) == 0,
        outside_parens(s) == s,
    decreases s.len(),
{
    if s.len() > 0 {
        let init = s.drop_last();
        assert(s[s.len() - 1] != '(');
        assert forall|i: int| 0 <= i < init.len() implies init[i] != '(' by {
            assert(s[i] != '(');
        }
        plain_text_is_outside(init);
        assert(init.push(s.last()) =~= s);
    }
}

/// A cleaned text opens no parentheses.
pub proof fn cleaned_text_has_no_notes(s: Seq<char>)
    ensures
        !cleaned(s).contains('('),
{
    nothing_outside_opens(s);
    trimming_adds_nothing(outside_parens(s));
}

/// A text without parentheses is only trimmed.
pub proof fn plain_text_is_kept(s: Seq<char>)
    requires
        !s.contains('('),
    ensures
        cleaned(s) == trimmed(s),
{
    plain_text_is_outside(s);
}

/// Cleaning a text twice changes no more than cleaning it once.
pub proof fn cleaning_is_stable(s: Seq<char>)
    ensures
        cleaned(cleaned(s)) == cleaned(s),
{
    cleaned_text_has_no_notes(s);
    plain_text_is_kept(cleaned(s));
    trimming_is_stable(outside_parens(s));
}

proof fn note_is_skipped(a: Seq<char>, b: Seq<char>)
    requires
        !a.contains('('),
        !b.contains('('),
        !b.contains(')'),
    ensures
        open_parens(a + seq!['('] + b) == 1,
        outside_parens(a + seq!['('] + b) == a,
    decreases b.len(),
{
    let s = a + seq!['('] + b;
    if b.len() == 0 {
        assert(s.drop_last() =~= a);
        plain_text_is_outside(a);
    } else {
        let init = b.drop_last();
        assert(s.drop_last() =~= a + seq!['('] + init);
        assert(b[b.len() - 1] == s.last());
        assert forall|i: int| 0 <= i < init.len() implies init[i] != '(' && init[i] != ')' by {
            assert(b[i] != '(' && b[i] != ')');
        }
        note_is_skipped(a, init);
    }
}

proof fn text_after_a_note_is_kept(head: Seq<char>, c: Seq<char>)
    requires
        open_parens(head) == 0,
        !c.contains('('),
    ensures
        open_parens(head + c) == 0,
        outside_parens(head + c) == outside_parens(head) + c,
    decreases c.len(),
{
    if c.len() == 0 {
        assert(head + c =~= head);
        assert(outside_parens(head) + c =~= outside_parens(head));
    } else {
        let init = c.drop_last();
        assert(c[c.len() - 1] != '(');
        assert((head + c).drop_last() =~= head + init);
        assert forall|i: int| 0 <= i < init.len() implies init[i] != '(' by {
            assert(c[i] != '(');
        }
        text_after_a_note_is_kept(head, init);
        assert(outside_parens(head) + init.push(c.last()) =~= (outside_parens(head)
            + init).push(c.last()));
        assert(init.push(c.last()) =~= c);
    }
}

/// A note in parentheses is removed, whatever it says; what stands around it is kept.
pub proof fn notes_are_removed(a: Seq<char>, note: Seq<char>, c: Seq<char>)
    requires
        !a.contains('('),
        !note.contains('('),
        !note.contains(')'),
        !c.contains('('),
    ensures
        cleaned(a + seq!['('] + note + seq![')'] + c) == trimmed(a + c),
{
    note_is_skipped(a, note);
    let head = a + seq!['('] + note + seq![')'];
    assert(head.drop_last() =~= a + seq!['('] + note);
    assert(open_parens(head) == 0);
    assert(outside_parens(head) == a);
    text_after_a_note_is_kept(head, c);
}

/// What is recognized of a recording is its end, and never longer than 15 s.
pub proof fn recognized_part_is_bounded<S>(samples: Seq<S>)
    ensures
        recognized_part(samples) is Some <==> samples.len() >= MIN_SAMPLES,
        recognized_part(samples) matches Some(part) ==> {
            &&& MIN_SAMPLES <= part.len() <= MAX_SAFE_SAMPLES
            &&& part == samples.skip(samples.len() - part.len())
            &&& samples.len() <= MAX_SAFE_SAMPLES ==> part == samples
        },
{
    assert(samples.skip(0) =~= samples);
}

/// Audio before the last 15 s changes nothing: the same part is recognized of a recording and of
/// its last 15 s alone, and whatever may come of the one may come of the other.
pub proof fn old_audio_changes_nothing<
    S,
    N: Fn(Vec<S>) -> (Vec<S>, Single),
    D: Fn(Vec<S>) -> Result<Tensor, candle_core::Error>,
>(
    words: Vocab,
    lang: Seq<char>,
    device: Device,
    before: Whisper,
    samples: Seq<S>,
    normalize: N,
    draw: D,
    after: Whisper,
    text: Seq<char>,
    scores: Seq<Tensor>,
    error: EngineError,
)
    requires
        samples.len() > MAX_SAFE_SAMPLES,
    ensures
        ({
            let end = samples.skip(samples.len() - MAX_SAFE_SAMPLES);
            &&& recognized_part(samples) == Some(end)
            &&& recognized_part(end) == Some(end)
            &&& may_hear(words, lang, before, samples, normalize, draw, after, text, scores)
                == may_hear(words, lang, before, end, normalize, draw, after, text, scores)
            &&& may_not_hear(
                words,
                lang,
                device,
                before,
                samples,
                normalize,
                draw,
                after,
                error,
            ) == may_not_hear(words, lang, device, before, end, normalize, draw, after, error)
        }),
{
}

/// The tokens that are no text leave no trace in a transcript.
pub proof fn special_tokens_are_silent(vocab: Vocab, tokens: Seq<u32>, special: u32)
    requires
        special >= FIRST_SPECIAL,
    ensures
        spoken(vocab, tokens.push(special)) == spoken(vocab, tokens),
{
    assert(tokens.push(special).drop_last() =~= tokens);
}

/// The parts of a transcription are spoken one after the other, and no tokens say nothing.
pub proof fn parts_are_spoken_in_order(vocab: Vocab, a: Seq<u32>, b: Seq<u32>)
    ensures
        spoken(vocab, a + b) == spoken(vocab, a) + spoken(vocab, b),
        spoken(vocab, Seq::<u32>::empty()).len() == 0,
    decreases b.len(),
{
    if b.len() == 0 {
        assert(a + b =~= a);
        assert(spoken(vocab, a) + spoken(vocab, b) =~= spoken(vocab, a));
    } else {
        parts_are_spoken_in_order(vocab, a, b.drop_last());
        assert((a + b).drop_last() =~= a + b.drop_last());
        assert((a + b).last() == b.last());
        assert(spoken(vocab, a + b) =~= spoken(vocab, a) + spoken(vocab, b));
    }
}

/// Every character of a text token is spoken: U+0120 stands for a space, U+010A for a line feed
/// and U+0109 for a tab, and any other character for itself.
pub proof fn marks_stand_for_white_space(vocab: Vocab, tokens: Seq<u32>, id: u32, token: Seq<char>)
    requires
        id < 50257,
        vocab.token_of(id) == Some(token),
    ensures
        ({
            let before = spoken(vocab, tokens);
            let after = spoken(vocab, tokens.push(id));
            &&& after.len() == before.len() + token.len()
            &&& after.take(before.len() as int) == before
            &&& forall|i: int|
                0 <= i < token.len() ==> {
                    let (c, said) = (#[trigger] token[i], after[before.len() + i]);
                    &&& c as u32 == 0x120 ==> said as u32 == 32
                    &&& c as u32 == 0x10a ==> said as u32 == 10
                    &&& c as u32 == 0x109 ==> said as u32 == 9
                    &&& c as u32 != 0x120 && c as u32 != 0x10a && c as u32 != 0x109 ==> said == c
                }
        }),
{
    let before = spoken(vocab, tokens);
    let after = spoken(vocab, tokens.push(id));
    assert(tokens.push(id).drop_last() =~= tokens);
    assert(after.take(before.len() as int) =~= before);
    assert forall|i: int| 0 <= i < token.len() implies after[before.len() + i] == restored(
        #[trigger] token[i],
    ) by {}
}

/// A text token without any of the three marks is spoken as it is.
pub proof fn text_tokens_are_spoken_as_they_are(
    vocab: Vocab,
    tokens: Seq<u32>,
    id: u32,
    token: Seq<char>,
)
    requires
        id < 50257,
        vocab.token_of(id) == Some(token),
        !token.contains('\u{120}'),
        !token.contains('\u{10a}'),
        !token.contains('\u{109}'),
    ensures
        spoken(vocab, tokens.push(id)) == spoken(vocab, tokens) + token,
{
    marks_stand_for_white_space(vocab, tokens, id, token);
    let before = spoken(vocab, tokens);
    let after = spoken(vocab, tokens.push(id));
    assert forall|i: int| 0 <= i < after.len() implies after[i] == (before + token)[i] by {
        if i < before.len() {
            assert(after.take(before.len() as int)[i] == after[i]);
        } else {
            let c = token[i - before.len()];
            assert(token.contains(c));
            assert(after[before.len() + (i - before.len())] == c);
        }
    }
    assert(after =~= before + token);
}

/// A number that belongs to no token, and any number from 50257 on, says nothing.
pub proof fn other_numbers_say_nothing(vocab: Vocab, tokens: Seq<u32>, id: u32)
    requires
        id >= 50257 || vocab.token_of(id) is None,
    ensures
        spoken(vocab, tokens.push(id)) == spoken(vocab, tokens),
{
    assert(tokens.push(id).drop_last() =~= tokens);
}

/// A transcript is empty if the network says that there is no speech. Otherwise it is what the
/// tokens speak, without white space around and without notes.
pub proof fn transcripts_say_what_is_spoken(vocab: Vocab, tokens: Seq<u32>)
    ensures
        no_speech(vocab@, tokens) ==> transcript_of(vocab, tokens).len() == 0,
        !no_speech(vocab@, tokens) ==> transcript_of(vocab, tokens) == trimmed(
            outside_parens(trimmed(spoken(vocab, tokens))),
        ),
        !no_speech(vocab@, tokens) && !spoken(vocab, tokens).contains('(') ==> transcript_of(
            vocab,
            tokens,
        ) == trimmed(spoken(vocab, tokens)),
{
    let said = spoken(vocab, tokens);
    if !said.contains('(') {
        trimming_adds_nothing(said);
        assert forall|i: int| 0 <= i < trimmed(said).len() implies trimmed(said)[i] != '(' by {
            assert(said.contains(trimmed(said)[i]));
        }
        plain_text_is_kept(trimmed(said));
        trimming_is_stable(said);
    }
}

/// The network says that there is no speech exactly if one of the tokens is the one for no
/// speech or the one for no captions, by the vocabulary or else by its usual number.
pub proof fn no_speech_is_said_by_two_tokens(ids: Map<Seq<char>, u32>, tokens: Seq<u32>)
    ensures
        no_speech(ids, tokens) <==> exists|i: int|
            0 <= i < tokens.len() && {
                let t = #[trigger] tokens[i];
                ||| ids.contains_key("<|nospeech|>"@) && t == ids["<|nospeech|>"@]
                ||| !ids.contains_key("<|nospeech|>"@) && t == 50362
                ||| ids.contains_key("<|nocaptions|>"@) && t == ids["<|nocaptions|>"@]
                ||| !ids.contains_key("<|nocaptions|>"@) && t == 50361
            },
{
}

/// A transcription starts with four tokens: that of the start, that of the language, that for
/// transcribing and that for leaving out the time, each by the vocabulary or else by its usual
/// number. Only the second one depends on the language, and a language that is not Chinese,
/// Japanese or Korean is taken for English. The end of the text has a token in the same way.
pub proof fn prompts_name_the_language(ids: Map<Seq<char>, u32>, lang: Seq<char>)
    ensures
        prompt(ids, lang).len() == 4,
        ids.contains_key("<|startoftranscript|>"@) ==> prompt(ids, lang)[0]
            == ids["<|startoftranscript|>"@],
        !ids.contains_key("<|startoftranscript|>"@) ==> prompt(ids, lang)[0] == 50257,
        lang == "zh"@ && ids.contains_key("<|zh|>"@) ==> prompt(ids, lang)[1] == ids["<|zh|>"@],
        lang == "zh"@ && !ids.contains_key("<|zh|>"@) ==> prompt(ids, lang)[1] == 50259,
        lang == "ja"@ && ids.contains_key("<|ja|>"@) ==> prompt(ids, lang)[1] == ids["<|ja|>"@],
        lang == "ja"@ && !ids.contains_key("<|ja|>"@) ==> prompt(ids, lang)[1] == 50259,
        lang == "ko"@ && ids.contains_key("<|ko|>"@) ==> prompt(ids, lang)[1] == ids["<|ko|>"@],
        lang == "ko"@ && !ids.contains_key("<|ko|>"@) ==> prompt(ids, lang)[1] == 50259,
        lang != "zh"@ && lang != "ja"@ && lang != "ko"@ && ids.contains_key("<|en|>"@) ==> prompt(
            ids,
            lang,
        )[1] == ids["<|en|>"@],
        lang != "zh"@ && lang != "ja"@ && lang != "ko"@ && !ids.contains_key("<|en|>"@) ==> prompt(
            ids,
            lang,
        )[1] == 50259,
        ids.contains_key("<|transcribe|>"@) ==> prompt(ids, lang)[2] == ids["<|transcribe|>"@],
        !ids.contains_key("<|transcribe|>"@) ==> prompt(ids, lang)[2] == 50359,
        ids.contains_key("<|notimestamps|>"@) ==> prompt(ids, lang)[3] == ids["<|notimestamps|>"@],
        !ids.contains_key("<|notimestamps|>"@) ==> prompt(ids, lang)[3] == 50363,
        ids.contains_key("<|endoftext|>"@) ==> end_of_text(ids) == ids["<|endoftext|>"@],
        !ids.contains_key("<|endoftext|>"@) ==> end_of_text(ids) == 50257,
{
    reveal_strlit("zh");
    reveal_strlit("ja");
    reveal_strlit("ko");
    assert("zh"@[0] != "ja"@[0] && "zh"@[0] != "ko"@[0] && "ja"@[0] != "ko"@[0]);
}

/// How many more parentheses `s` opens than it closes.
pub open spec fn unclosed(s: Seq<char>) -> int
    decreases s.len(),
{
    if s.len() == 0 {
        0
    } else {
        unclosed(s.drop_last()) + if s.last() == '(' {
            1int
        } else if s.last() == ')' {
            -1
        } else {
            0
        }
    }
}

/// Whether `s` closes no parenthesis that it has not opened.
pub open spec fn nested(s: Seq<char>) -> bool {
    forall|k: int| 0 <= k <= s.len() ==> unclosed(#[trigger] s.take(k)) >= 0
}

proof fn inside_stays_inside(head: Seq<char>, b: Seq<char>)
    requires
        open_parens(head) > 0,
        nested(b),
    ensures
        open_parens(head + b) == open_parens(head) + unclosed(b),
        unclosed(b) >= 0,
        outside_parens(head + b) == outside_parens(head),
    decreases b.len(),
{
    assert(b.take(b.len() as int) =~= b);
    if b.len() == 0 {
        assert(head + b =~= head);
    } else {
        let init = b.drop_last();
        assert forall|k: int| 0 <= k <= init.len() implies unclosed(#[trigger] init.take(k)) >= 0 by {
            assert(init.take(k) =~= b.take(k));
        }
        inside_stays_inside(head, init);
        assert((head + b).drop_last() =~= head + init);
        assert((head + b).last() == b.last());
    }
}

proof fn outside_starts_over(head: Seq<char>, b: Seq<char>)
    requires
        open_parens(head) == 0,
    ensures
        open_parens(head + b) == open_parens(b),
        outside_parens(head + b) == outside_parens(head) + outside_parens(b),
    decreases b.len(),
{
    if b.len() == 0 {
        assert(head + b =~= head);
        assert(outside_parens(head) + outside_parens(b) =~= outside_parens(head));
    } else {
        outside_starts_over(head, b.drop_last());
        assert((head + b).drop_last() =~= head + b.drop_last());
        assert((head + b).last() == b.last());
        assert(outside_parens(head + b) =~= outside_parens(head) + outside_parens(b));
    }
}

/// A note is removed with all notes in it; what stands before it is kept, and what follows it is
/// looked at in the same way. A note that is never closed reaches to the end of the text. Where
/// no parenthesis is open, a closing one is text like any other.
pub proof fn notes_are_removed_with_what_is_in_them(a: Seq<char>, note: Seq<char>, rest: Seq<char>)
    requires
        !a.contains('('),
        nested(note),
    ensures
        outside_parens(a) == a,
        outside_parens(a + seq!['('] + note) == a,
        cleaned(a + seq!['('] + note) == trimmed(a),
        unclosed(note) == 0 ==> outside_parens(a + seq!['('] + note + seq![')'] + rest) == a
            + outside_parens(rest),
        unclosed(note) == 0 ==> cleaned(a + seq!['('] + note + seq![')'] + rest) == trimmed(
            a + outside_parens(rest),
        ),
{
    let opened = a + seq!['('];
    plain_text_is_outside(a);
    assert(opened.drop_last() =~= a);
    inside_stays_inside(opened, note);
    if unclosed(note) == 0 {
        let closed = opened + note + seq![')'];
        assert(closed.drop_last() =~= opened + note);
        outside_starts_over(closed, rest);
    }
}

/// Less than 0.3 s of audio is not recognized, up to 15 s are as they are, and of more than that
/// the last 15 s.
pub proof fn the_last_fifteen_seconds_are_recognized<S>(older: Seq<S>, samples: Seq<S>)
    ensures
        samples.len() < 4800 ==> recognized_part(samples) is None,
        4800 <= samples.len() <= 240000 ==> recognized_part(samples) == Some(samples),
        samples.len() == 240000 ==> recognized_part(older + samples) == Some(samples),
{
    let all = older + samples;
    if samples.len() == 240000 {
        assert(all.skip(all.len() - 240000) =~= samples);
        if older.len() == 0 {
            assert(all =~= samples);
        }
    }
}

/// Audio is silent exactly if its energy is a number below 0.001, whose pattern is 0x3a83126f.
pub proof fn silence_is_below_a_thousandth(rms: Single)
    ensures
        rms.bits <= 0x7f80_0000 ==> (silent(rms) <==> rms.bits < 0x3a83_126f),
        0x8000_0000 <= rms.bits <= 0xff80_0000 ==> silent(rms),
        0x7f80_0000 < rms.bits < 0x8000_0000 || rms.bits > 0xff80_0000 ==> !silent(rms),
{
}

/// Each reply is chosen by the network in the state in which the reply before left it, from all
/// tokens so far, and only the first one flushes the cache. There are at most 100 replies, and
/// none follows the end of the text.
pub proof fn replies_follow_the_network(
    models: Seq<Whisper>,
    features: Tensor,
    start: Seq<u32>,
    eot: u32,
    replies: Seq<u32>,
    scores: Seq<Tensor>,
)
    requires
        start.len() > 0,
        transcription_begun(models, features, start, eot, replies, scores),
    ensures
        models.len() == replies.len() + 1,
        scores.len() == replies.len(),
        replies.len() <= 100,
        start.last() == eot ==> replies.len() == 0,
        forall|k: int| 0 <= k < replies.len() - 1 ==> #[trigger] replies[k] != eot,
        forall|k: int|
            0 <= k < replies.len() ==> whisper_chooses(
                models[k],
                start + #[trigger] replies.take(k),
                features,
                k == 0,
                models[k + 1],
                replies[k],
                scores[k],
            ),
{
    let all = start + replies;
    assert forall|k: int| 0 <= k < replies.len() - 1 implies #[trigger] replies[k] != eot by {
        assert(all[start.len() - 1 + (k + 1)] != eot);
        assert(all[start.len() + k] == replies[k]);
    }
    if replies.len() > 0 {
        assert(all[start.len() - 1 + 0] != eot);
    }
    assert forall|k: int| 0 <= k < replies.len() implies whisper_chooses(
        models[k],
        start + #[trigger] replies.take(k),
        features,
        k == 0,
        models[k + 1],
        replies[k],
        scores[k],
    ) by {
        assert(run_step(models, features, start, replies, scores, k));
    }
}

/// Decoding stops at the end of the text or after 100 replies, and neither earlier nor later.
pub proof fn decoding_stops_at_the_end(
    models: Seq<Whisper>,
    features: Tensor,
    start: Seq<u32>,
    eot: u32,
    replies: Seq<u32>,
    scores: Seq<Tensor>,
)
    requires
        start.len() > 0,
    ensures
        transcription_run(models, features, start, eot, replies, scores) <==> {
            &&& transcription_begun(models, features, start, eot, replies, scores)
            &&& replies.len() == 100 || (replies.len() == 0 && start.last() == eot) || (
            replies.len() > 0 && replies.last() == eot)
        },
{
    if replies.len() > 0 {
        assert((start + replies).last() == replies.last());
    } else {
        assert(start + replies =~= start);
    }
}

/// Whether the network, in state `before`, decodes the tokens to this hidden state and gives it
/// these scores, of which `rated` are the log-probabilities for the last position.
pub open spec fn scored_like_this(
    before: Whisper,
    ids: Seq<u32>,
    features: Tensor,
    flush: bool,
    after: Whisper,
    reply: u32,
    hidden: Tensor,
    logits: Tensor,
    rated: Tensor,
) -> bool {
    &&& decodes(before, ids, features, flush, after, hidden)
    &&& projects(after, hidden, logits)
    &&& chosen_last(logits, reply, rated)
}

/// A token is chosen only if the decoder takes the tokens to a hidden state whose scores choose
/// it; its score is its own log-probability among those of all tokens.
pub proof fn choices_are_scored(
    before: Whisper,
    ids: Seq<u32>,
    features: Tensor,
    flush: bool,
    after: Whisper,
    reply: u32,
    score: Tensor,
)
    requires
        whisper_chooses(before, ids, features, flush, after, reply, score),
    ensures
        exists|hidden: Tensor, logits: Tensor, rated: Tensor|
            #[trigger] scored_like_this(
                before,
                ids,
                features,
                flush,
                after,
                reply,
                hidden,
                logits,
                rated,
            ) && part_of(rated, reply as nat, score),
{
    let rated = choose|rated: Tensor| #[trigger]
        whisper_rates(before, ids, features, flush, after, reply, rated) && part_of(
            rated,
            reply as nat,
            score,
        );
    let (hidden, logits) = choose|hidden: Tensor, logits: Tensor|
        {
            &&& #[trigger] decodes(before, ids, features, flush, after, hidden)
            &&& #[trigger] projects(after, hidden, logits)
            &&& chosen_last(logits, reply, rated)
        };
    assert(scored_like_this(
        before,
        ids,
        features,
        flush,
        after,
        reply,
        hidden,
        logits,
        rated,
    ));
}

/// Whether a spectrogram is encoded to these features, and a run of the network on them, without
/// a cache and from the prompt on, has these replies with these scores.
pub open spec fn recognized_like_this(
    words: Vocab,
    lang: Seq<char>,
    before: Whisper,
    mel: Tensor,
    after: Whisper,
    encoder: Whisper,
    features: Tensor,
    models: Seq<Whisper>,
    replies: Seq<u32>,
    chosen: Seq<Tensor>,
) -> bool {
    &&& encodes(before, mel, encoder, features)
    &&& transcription_run(
        models,
        features,
        prompt(words@, lang),
        end_of_text(words@),
        replies,
        chosen,
    )
    &&& models[0] == whisper_without_cache(encoder)
    &&& models.last() == after
}

/// What is recognized in a spectrogram is the transcript of the prompt and of all replies of
/// the network to it, together with the scores of all replies; if the network says that there is
/// no speech, it is nothing, without any scores.
pub proof fn recognized_texts_are_transcripts(
    words: Vocab,
    lang: Seq<char>,
    before: Whisper,
    mel: Tensor,
    after: Whisper,
    text: Seq<char>,
    scores: Seq<Tensor>,
)
    requires
        may_recognize(words, lang, before, mel, after, text, scores),
    ensures
        exists|
            encoder: Whisper,
            features: Tensor,
            models: Seq<Whisper>,
            replies: Seq<u32>,
            chosen: Seq<Tensor>,
        |
            {
                let tokens = prompt(words@, lang) + replies;
                &&& #[trigger] recognized_like_this(
                    words,
                    lang,
                    before,
                    mel,
                    after,
                    encoder,
                    features,
                    models,
                    replies,
                    chosen,
                )
                &&& text == transcript_of(words, tokens)
                &&& no_speech(words@, tokens) ==> text.len() == 0 && scores.len() == 0
                &&& !no_speech(words@, tokens) ==> scores == chosen && scores.len()
                    == replies.len()
            },
{
    let (encoder, features, tokens, chosen) = choose|
        encoder: Whisper,
        features: Tensor,
        tokens: Seq<u32>,
        chosen: Seq<Tensor>,
    |
        {
            &&& #[trigger] encodes(before, mel, encoder, features)
            &&& #[trigger] may_transcribe(
                words,
                lang,
                whisper_without_cache(encoder),
                features,
                after,
                tokens,
                chosen,
            )
            &&& text == transcript_of(words, tokens)
            &&& scores == if no_speech(words@, tokens) {
                Seq::<Tensor>::empty()
            } else {
                chosen
            }
        };
    let (models, replies) = choose|models: Seq<Whisper>, replies: Seq<u32>|
        {
            &&& #[trigger] transcription_run(
                models,
                features,
                prompt(words@, lang),
                end_of_text(words@),
                replies,
                chosen,
            )
            &&& models[0] == whisper_without_cache(encoder)
            &&& models.last() == after
            &&& tokens == prompt(words@, lang) + replies
        };
    assert(recognized_like_this(
        words,
        lang,
        before,
        mel,
        after,
        encoder,
        features,
        models,
        replies,
        chosen,
    ));
}

/// Whether a recording is measured like this, is not silent, and has this spectrogram.
pub open spec fn drawn_like_this<
    S,
    N: Fn(Vec<S>) -> (Vec<S>, Single),
    D: Fn(Vec<S>) -> Result<Tensor, candle_core::Error>,
>(
    part: Seq<S>,
    normalize: N,
    draw: D,
    normalized: Seq<S>,
    rms: Single,
    mel: Tensor,
) -> bool {
    &&& measured(normalize, part, normalized, rms)
    &&& !silent(rms)
    &&& drawn(draw, normalized, Ok(mel))
}

/// A text is heard only in a recording of at least 0.3 s that is not silent: it is what is
/// recognized in the spectrogram of the normalized samples of its last 15 s, whatever came
/// before them. Where nothing is heard without that, the network stays as it was.
pub proof fn texts_are_heard_in_speech<
    S,
    N: Fn(Vec<S>) -> (Vec<S>, Single),
    D: Fn(Vec<S>) -> Result<Tensor, candle_core::Error>,
>(
    words: Vocab,
    lang: Seq<char>,
    before: Whisper,
    older: Seq<S>,
    part: Seq<S>,
    normalize: N,
    draw: D,
    after: Whisper,
    text: Seq<char>,
    scores: Seq<Tensor>,
)
    requires
        part.len() <= 240000,
        older.len() > 0 ==> part.len() == 240000,
        may_hear(words, lang, before, older + part, normalize, draw, after, text, scores),
    ensures
        part.len() < 4800 ==> text.len() == 0 && scores.len() == 0 && after == before,
        part.len() >= 4800 ==> {
            ||| {
                &&& text.len() == 0
                &&& scores.len() == 0
                &&& after == before
                &&& exists|normalized: Seq<S>, rms: Single| #[trigger]
                    measured(normalize, part, normalized, rms) && silent(rms)
            }
            ||| exists|normalized: Seq<S>, rms: Single, mel: Tensor| #[trigger]
                drawn_like_this(part, normalize, draw, normalized, rms, mel) && may_recognize(
                    words,
                    lang,
                    before,
                    mel,
                    after,
                    text,
                    scores,
                )
        },
{
    the_end_is_recognized(older, part);
    if part.len() >= 4800 {
        let (normalized, rms) = choose|normalized: Seq<S>, rms: Single| #[trigger]
            measured(normalize, part, normalized, rms) && may_hear_normalized(
                words,
                lang,
                before,
                normalized,
                rms,
                draw,
                after,
                text,
                scores,
            );
        if !silent(rms) {
            let mel = choose|mel: Tensor| #[trigger]
                drawn(draw, normalized, Ok(mel)) && may_recognize(
                    words,
                    lang,
                    before,
                    mel,
                    after,
                    text,
                    scores,
                );
            assert(drawn_like_this(part, normalize, draw, normalized, rms, mel));
        }
    }
}

proof fn the_end_is_recognized<S>(older: Seq<S>, part: Seq<S>)
    requires
        part.len() <= 240000,
        older.len() > 0 ==> part.len() == 240000,
    ensures
        part.len() < 4800 ==> recognized_part(older + part) is None,
        part.len() >= 4800 ==> recognized_part(older + part) == Some(part),
{
    the_last_fifteen_seconds_are_recognized(older, part);
    if older.len() == 0 {
        assert(older + part =~= part);
    }
}

/// What is measured and drawn is what the two given functions make of the samples themselves.
pub proof fn samples_are_handed_on_whole<
    S,
    N: Fn(Vec<S>) -> (Vec<S>, Single),
    D: Fn(Vec<S>) -> Result<Tensor, candle_core::Error>,
>(
    normalize: N,
    draw: D,
    given: Vec<S>,
    normalized: Vec<S>,
    rms: Single,
    drawing: Result<Tensor, candle_core::Error>,
)
    ensures
        call_ensures(normalize, (given,), (normalized, rms)) ==> measured(
            normalize,
            given@,
            normalized@,
            rms,
        ),
        call_ensures(draw, (given,), drawing) ==> drawn(draw, given@, drawing),
        measured(normalize, given@, normalized@, rms) ==> exists|v: Vec<S>, w: Vec<S>|
            v@ == given@ && w@ == normalized@ && #[trigger] call_ensures(
                normalize,
                (v,),
                (w, rms),
            ),
        drawn(draw, given@, drawing) ==> exists|v: Vec<S>|
            v@ == given@ && #[trigger] call_ensures(draw, (v,), drawing),
{
}

/// Recognition fails only on a recording of at least 0.3 s whose last 15 s are not silent: where
/// no spectrogram of the normalized samples can be drawn, where that has no entries, or where
/// the network fails on it. Each kind of error has a cause of its own.
pub proof fn short_or_silent_audio_never_fails<
    S,
    N: Fn(Vec<S>) -> (Vec<S>, Single),
    D: Fn(Vec<S>) -> Result<Tensor, candle_core::Error>,
>(
    words: Vocab,
    lang: Seq<char>,
    device: Device,
    before: Whisper,
    older: Seq<S>,
    part: Seq<S>,
    normalize: N,
    draw: D,
    after: Whisper,
    error: EngineError,
)
    requires
        part.len() <= 240000,
        older.len() > 0 ==> part.len() == 240000,
        may_not_hear(words, lang, device, before, older + part, normalize, draw, after, error),
    ensures
        part.len() >= 4800,
        error is NoAudio ==> exists|normalized: Seq<S>, rms: Single, mel: Tensor| #[trigger]
            drawn_like_this(part, normalize, draw, normalized, rms, mel) && shape(mel).len() == 3
                && !nonempty(mel),
        error is NoScores ==> exists|normalized: Seq<S>, rms: Single, mel: Tensor| #[trigger]
            drawn_like_this(part, normalize, draw, normalized, rms, mel) && encodable(mel)
                && may_fail(words, lang, device, before, mel, after, true),
        error matches EngineError::Tensor(e) ==> {
            ||| exists|normalized: Seq<S>, rms: Single| #[trigger]
                measured(normalize, part, normalized, rms) && !silent(rms) && drawn(
                    draw,
                    normalized,
                    Err(e),
                )
            ||| exists|normalized: Seq<S>, rms: Single, mel: Tensor| #[trigger]
                drawn_like_this(part, normalize, draw, normalized, rms, mel) && encodable(mel)
                    && may_fail(words, lang, device, before, mel, after, false)
        },
        !(error is NoSingles),
{
    the_end_is_recognized(older, part);
    let (normalized, rms) = choose|normalized: Seq<S>, rms: Single| #[trigger]
        measured(normalize, part, normalized, rms) && !silent(rms) && {
            ||| error matches EngineError::Tensor(e) && drawn(draw, normalized, Err(e))
            ||| exists|mel: Tensor| #[trigger]
                drawn(draw, normalized, Ok(mel)) && if error is NoAudio {
                    !encodable(mel)
                } else {
                    &&& encodable(mel)
                    &&& error is Tensor || error is NoScores
                    &&& may_fail(words, lang, device, before, mel, after, error is NoScores)
                }
        };
    if !(error matches EngineError::Tensor(e) && drawn(draw, normalized, Err(e))) {
        let mel = choose|mel: Tensor| #[trigger]
            drawn(draw, normalized, Ok(mel)) && if error is NoAudio {
                !encodable(mel)
            } else {
                &&& encodable(mel)
                &&& error is Tensor || error is NoScores
                &&& may_fail(words, lang, device, before, mel, after, error is NoScores)
            };
        assert(drawn_like_this(part, normalize, draw, normalized, rms, mel));
    }
}

/// Whether a spectrogram is encoded to these features, and the network, without a cache and from
/// the prompt on, gives these replies to them and does not end the text with them.
pub open spec fn interrupted_like_this(
    words: Vocab,
    lang: Seq<char>,
    before: Whisper,
    mel: Tensor,
    encoder: Whisper,
    features: Tensor,
    models: Seq<Whisper>,
    replies: Seq<u32>,
    scores: Seq<Tensor>,
) -> bool {
    &&& encodes(before, mel, encoder, features)
    &&& transcription_begun(
        models,
        features,
        prompt(words@, lang),
        end_of_text(words@),
        replies,
        scores,
    )
    &&& models[0] == whisper_without_cache(encoder)
    &&& replies.len() < 100
    &&& (prompt(words@, lang) + replies).last() != end_of_text(words@)
}

/// There is no score for what follows only after replies that have not ended the text: then it
/// is the network, in the state that they left it in, that has no score for what follows them.
pub proof fn failures_have_a_cause(
    words: Vocab,
    lang: Seq<char>,
    device: Device,
    before: Whisper,
    mel: Tensor,
    after: Whisper,
)
    requires
        may_fail(words, lang, device, before, mel, after, true),
    ensures
        exists|
            encoder: Whisper,
            features: Tensor,
            models: Seq<Whisper>,
            replies: Seq<u32>,
            scores: Seq<Tensor>,
        |
            #[trigger] interrupted_like_this(
                words,
                lang,
                before,
                mel,
                encoder,
                features,
                models,
                replies,
                scores,
            ) && whisper_rates_none(
                models.last(),
                prompt(words@, lang) + replies,
                features,
                replies.len() == 0,
                after,
            ),
{
    let (encoder, features) = choose|encoder: Whisper, features: Tensor| #[trigger]
        encodes(before, mel, encoder, features) && may_get_stuck(
            words,
            lang,
            device,
            whisper_without_cache(encoder),
            features,
            after,
            true,
        );
    let start = prompt(words@, lang);
    let (models, replies, scores) = choose|
        models: Seq<Whisper>,
        replies: Seq<u32>,
        scores: Seq<Tensor>,
    |
        {
            &&& #[trigger] transcription_begun(
                models,
                features,
                prompt(words@, lang),
                end_of_text(words@),
                replies,
                scores,
            )
            &&& !transcription_over(start, end_of_text(words@), replies)
            &&& models[0] == whisper_without_cache(encoder)
            &&& whisper_rates_none(
                models.last(),
                start + replies,
                features,
                replies.len() == 0,
                after,
            )
        };
    assert(interrupted_like_this(
        words,
        lang,
        before,
        mel,
        encoder,
        features,
        models,
        replies,
        scores,
    ));
}

/// The network refuses to rate what follows the tokens only where something does not work: where
/// the device holds the tokens, the decoder takes them, and what it gives has scores of the right
/// shape, there is no refusal.
pub proof fn working_networks_do_not_refuse(
    before: Whisper,
    device: Device,
    ids: Seq<u32>,
    features: Tensor,
    flush: bool,
    after: Whisper,
)
    requires
        holds_row(device, ids),
        forall|row: Tensor| #[trigger]
            is_row(row, ids) ==> decoder_takes(before, row, features, flush),
        forall|hidden: Tensor| #[trigger]
            decodes(before, ids, features, flush, after, hidden) ==> projectable(after, hidden),
        forall|hidden: Tensor, logits: Tensor| #[trigger]
            decodes(before, ids, features, flush, after, hidden) && #[trigger] projects(
                after,
                hidden,
                logits,
            ) ==> rates_last(logits),
    ensures
        !whisper_refuses(before, device, ids, features, flush, after),
        !whisper_rates_none(before, ids, features, flush, after),
{
    if whisper_rates_none(before, ids, features, flush, after) {
        let (hidden, logits) = choose|hidden: Tensor, logits: Tensor|
            {
                &&& #[trigger] decodes(before, ids, features, flush, after, hidden)
                &&& #[trigger] projects(after, hidden, logits)
                &&& rates_none_last(logits)
            };
        assert(rates_last(logits));
    }
}

/// The recognition of a spectrogram is refused only if the encoder does not take it, or if the
/// network, in the state that some replies left it in that have not ended the text, refuses to
/// rate what follows them.
pub proof fn refusals_have_a_cause(
    words: Vocab,
    lang: Seq<char>,
    device: Device,
    before: Whisper,
    mel: Tensor,
    after: Whisper,
)
    requires
        may_fail(words, lang, device, before, mel, after, false),
        encoder_takes(before, mel),
    ensures
        exists|
            encoder: Whisper,
            features: Tensor,
            models: Seq<Whisper>,
            replies: Seq<u32>,
            scores: Seq<Tensor>,
        |
            #[trigger] interrupted_like_this(
                words,
                lang,
                before,
                mel,
                encoder,
                features,
                models,
                replies,
                scores,
            ) && whisper_refuses(
                models.last(),
                device,
                prompt(words@, lang) + replies,
                features,
                replies.len() == 0,
                after,
            ),
{
    let (encoder, features) = choose|encoder: Whisper, features: Tensor| #[trigger]
        encodes(before, mel, encoder, features) && may_get_stuck(
            words,
            lang,
            device,
            whisper_without_cache(encoder),
            features,
            after,
            false,
        );
    let start = prompt(words@, lang);
    let (models, replies, scores) = choose|
        models: Seq<Whisper>,
        replies: Seq<u32>,
        scores: Seq<Tensor>,
    |
        {
            &&& #[trigger] transcription_begun(
                models,
                features,
                prompt(words@, lang),
                end_of_text(words@),
                replies,
                scores,
            )
            &&& !transcription_over(start, end_of_text(words@), replies)
            &&& models[0] == whisper_without_cache(encoder)
            &&& whisper_refuses(
                models.last(),
                device,
                start + replies,
                features,
                replies.len() == 0,
                after,
            )
        };
    assert(interrupted_like_this(
        words,
        lang,
        before,
        mel,
        encoder,
        features,
        models,
        replies,
        scores,
    ));
}

/// A text that has been cleaned opens no parentheses. One that opens none is only trimmed, and
/// cleaning what has been cleaned changes nothing.
pub proof fn cleaning_removes_notes_only(text: &str, r: String, again: &str, twice: String)
    requires
        call_ensures(AsrRecognizer::clean_text, (text,), r),
        again@ == r@,
        call_ensures(AsrRecognizer::clean_text, (again,), twice),
    ensures
        !r@.contains('('),
        !text@.contains('(') ==> r@ == trimmed(text@),
        twice@ == r@,
{
    cleaned_text_has_no_notes(text@);
    if !text@.contains('(') {
        plain_text_is_kept(text@);
    }
    cleaning_is_stable(text@);
}

/// The transcript of tokens that speak of no notes is their plain text, unless the network says
/// that there is no speech; then it is empty.
pub proof fn transcripts_are_plain_text_without_notes(
    recognizer: &AsrRecognizer,
    tokens: &[u32],
    none: bool,
    plain: String,
    text: String,
)
    requires
        call_ensures(AsrRecognizer::hears_no_speech, (recognizer, tokens), none),
        call_ensures(AsrRecognizer::plain_text, (recognizer, tokens), plain),
        call_ensures(AsrRecognizer::transcript, (recognizer, tokens), text),
    ensures
        none ==> text@.len() == 0,
        !none && !plain@.contains('(') ==> text@ == plain@,
        !text@.contains('('),
        plain@ == trimmed(spoken(recognizer.words(), tokens@)),
{
    let said = spoken(recognizer.words(), tokens@);
    transcripts_say_what_is_spoken(recognizer.words(), tokens@);
    cleaned_text_has_no_notes(trimmed(said));
    trimming_is_stable(said);
    if !plain@.contains('(') {
        plain_text_is_kept(trimmed(said));
    }
}

/// The window that is recognized is the end of the recording: all of it from 0.3 s to 15 s, the
/// last 15 s of a longer one, and nothing of a shorter one.
pub proof fn windows_are_the_end_of_the_recording<S>(samples: &[S], r: Option<&[S]>)
    requires
        call_ensures(recognition_window::<S>, (samples,), r),
    ensures
        r is Some <==> samples@.len() >= 4800,
        r matches Some(part) ==> {
            &&& part@.len() == if samples@.len() > 240000 {
                240000
            } else {
                samples@.len() as int
            }
            &&& part@ == samples@.skip(samples@.len() - part@.len())
        },
{
    recognized_part_is_bounded(samples@);
}

} // verus!
