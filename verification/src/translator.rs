//! Translation with a Marian network.

use crate::config::{config_ids, read_config_ids, read_config_inner, read_config_sizes};
use crate::engine::{
    choose_only, chosen_only, holds_row, id_row, is_row, load_marian, marian_decode,
    marian_decoder_takes, marian_decodes, marian_encode, marian_encoder_takes, marian_encodes,
    marian_fits, marian_loads, marian_reset, marian_runs, marian_usable, marian_without_cache,
    nonempty, rates_none_only, rates_only, EngineError, LAYER_BYTES,
};
use crate::text::{
    all_ascii, ascii_lower, ascii_lowered, blank, chars_of, is_blank, is_white_space, string_of,
    to_ascii_lower, trim, trim_end, trim_start, trimmed, trimming_adds_nothing, trimming_is_stable,
};
use crate::vocab::{faithful, LoadError, Vocab};
use candle_core::{Device, Tensor};
use candle_transformers::models::marian::{Config, MTModel};
use vstd::prelude::*;
use vstd::slice::slice_subrange;
use vstd::string::*;

verus! {

/// The mark that stands for a space in the tokens of a vocabulary.
pub const SPACE_MARK: char = '\u{2581}';

/// The longest translation, in tokens.
pub const MAX_OUTPUT_TOKENS: usize = 256;

/// `c` with a space replaced by its mark.
pub open spec fn mark(c: char) -> char {
    if c == ' ' {
        SPACE_MARK
    } else {
        c
    }
}

/// `c` with the mark of a space replaced by a space.
pub open spec fn unmark(c: char) -> char {
    if c == SPACE_MARK {
        ' '
    } else {
        c
    }
}

/// A text as it is cut into tokens: without white space at its ends, in lower case if it is
/// ASCII, with its spaces marked and one mark before it.
pub open spec fn prepared(text: Seq<char>) -> Seq<char> {
    let body = trimmed(text);
    let folded = if all_ascii(body) {
        body.map_values(|c: char| ascii_lower(c))
    } else {
        body
    };
    seq![SPACE_MARK] + folded.map_values(|c: char| mark(c))
}

/// The length of the longest token among the first `n` beginnings of `s`; 0 if there is none.
pub open spec fn longest_token(ids: Map<Seq<char>, u32>, s: Seq<char>, n: nat) -> nat
    decreases n,
{
    if n == 0 {
        0
    } else if ids.contains_key(s.take(n as int)) {
        n
    } else {
        longest_token(ids, s, (n - 1) as nat)
    }
}

/// The numbers of the tokens of `s`: always the longest token that fits comes next, and a
/// character at which no token starts is left out.
pub open spec fn pieces(ids: Map<Seq<char>, u32>, s: Seq<char>) -> Seq<u32>
    decreases s.len(),
{
    if s.len() == 0 {
        seq![]
    } else {
        let n = longest_token(ids, s, s.len());
        if 0 < n <= s.len() {
            seq![ids[s.take(n as int)]] + pieces(ids, s.skip(n as int))
        } else {
            pieces(ids, s.skip(1))
        }
    }
}

/// A text as the network reads it.
pub open spec fn tokens(ids: Map<Seq<char>, u32>, eos: u32, text: Seq<char>) -> Seq<u32> {
    pieces(ids, prepared(text)).push(eos)
}

/// Prepares a text for being cut into tokens.
fn prepare(text: &str) -> (r: Vec<char>)
    ensures
        r@ == prepared(text@),
{
    let all = chars_of(text);
    let body = trim(&all);
    let n: usize = body.len();
    let mut ascii = true;
    for i in 0..n
        invariant
            n == body@.len(),
            ascii == forall|j: int| 0 <= j < i ==> #[trigger] body@[j] <= '\u{7f}',
    {
        if body[i] > '\u{7f}' {
            ascii = false;
        }
    }
    let ghost folded = if all_ascii(body@) {
        body@.map_values(|c: char| ascii_lower(c))
    } else {
        body@
    };
    let mut r: Vec<char> = Vec::new();
    r.push(SPACE_MARK);
    for i in 0..n
        invariant
            n == body@.len(),
            ascii == all_ascii(body@),
            folded == (if all_ascii(body@) {
                body@.map_values(|c: char| ascii_lower(c))
            } else {
                body@
            }),
            r@ == seq![SPACE_MARK] + folded.map_values(|c: char| mark(c)).take(i as int),
    {
        let c: char = body[i];
        let lower: char = if ascii {
            to_ascii_lower(c)
        } else {
            c
        };
        if lower == ' ' {
            r.push(SPACE_MARK);
        } else {
            r.push(lower);
        }
    }
    assert(folded.map_values(|c: char| mark(c)).take(n as int) =~= folded.map_values(
        |c: char| mark(c),
    ));
    r
}

/// With no token longer than `m`, beginnings longer than `m` do not matter.
proof fn long_beginnings_do_not_matter(ids: Map<Seq<char>, u32>, s: Seq<char>, m: nat, n: nat)
    requires
        forall|t: Seq<char>| #[trigger] ids.contains_key(t) ==> t.len() <= m,
        m <= n <= s.len(),
    ensures
        longest_token(ids, s, n) == longest_token(ids, s, m),
    decreases n,
{
    if n > m {
        assert(s.take(n as int).len() == n);
        long_beginnings_do_not_matter(ids, s, m, (n - 1) as nat);
    }
}

/// A translator: a network with its vocabulary.
pub struct TranslatorEngine {
    model: MTModel,
    vocab: Vocab,
    device: Device,
    decoder_start_token_id: u32,
    eos_token_id: u32,
}

/// The text that the tokens with the given numbers spell; a number without a token spells
/// nothing.
pub open spec fn spelled(vocab: Vocab, ids: Seq<u32>) -> Seq<char>
    decreases ids.len(),
{
    if ids.len() == 0 {
        seq![]
    } else {
        spelled(vocab, ids.drop_last()) + match vocab.token_of(ids.last()) {
            Some(token) => token,
            None => seq![],
        }
    }
}

/// A translation as it is read: its tokens in a row, marks as spaces, no white space around.
pub open spec fn wording(vocab: Vocab, ids: Seq<u32>) -> Seq<char> {
    trimmed(spelled(vocab, ids).map_values(|c: char| unmark(c)))
}

/// Whether the network, in state `before` and after `past` tokens, may choose `reply` to
/// follow `prev`: a token with the highest score.
pub open spec fn marian_chooses(
    before: MTModel,
    prev: u32,
    encoded: Tensor,
    past: nat,
    after: MTModel,
    reply: u32,
) -> bool {
    exists|logits: Tensor| #[trigger]
        marian_decodes(before, seq![prev], encoded, past, after, logits) && chosen_only(
            logits,
            reply,
        )
}

/// Whether the network, in state `before` and after `past` tokens, may have no score for what
/// follows `prev`.
pub open spec fn marian_rates_none(
    before: MTModel,
    prev: u32,
    encoded: Tensor,
    past: nat,
    after: MTModel,
) -> bool {
    exists|logits: Tensor| #[trigger]
        marian_decodes(before, seq![prev], encoded, past, after, logits) && rates_none_only(logits)
}

/// Whether the network, in state `before` and after `past` tokens, may refuse to rate what
/// follows `prev`: the device cannot hold it, the decoder does not take it, or the scores have
/// the wrong shape.
pub open spec fn marian_refuses(
    before: MTModel,
    device: Device,
    prev: u32,
    encoded: Tensor,
    past: nat,
    after: MTModel,
) -> bool {
    ||| !holds_row(device, seq![prev])
    ||| exists|row: Tensor| #[trigger]
        is_row(row, seq![prev]) && !marian_decoder_takes(before, row, encoded, past)
    ||| exists|logits: Tensor| #[trigger]
        marian_decodes(before, seq![prev], encoded, past, after, logits) && !rates_only(logits)
            && !rates_none_only(logits)
}

/// Whether the network may have answered with `replies` so far, one after the other: each is
/// chosen to follow the one before it, the first one to follow `start`, and nothing follows
/// `eos`.
pub open spec fn translation_begun(
    models: Seq<MTModel>,
    encoded: Tensor,
    start: u32,
    eos: u32,
    replies: Seq<u32>,
) -> bool {
    &&& models.len() == replies.len() + 1
    &&& replies.len() <= MAX_OUTPUT_TOKENS
    &&& forall|k: int|
        0 <= k < replies.len() ==> #[trigger] marian_chooses(
            models[k],
            (seq![start] + replies)[k],
            encoded,
            k as nat,
            models[k + 1],
            replies[k],
        )
    &&& forall|k: int| 0 <= k < replies.len() - 1 ==> #[trigger] replies[k] != eos
}

/// Whether a translation ends with the given replies: the last one is `eos`, or the longest
/// translation is reached.
pub open spec fn translation_over(eos: u32, replies: Seq<u32>) -> bool {
    replies.len() == MAX_OUTPUT_TOKENS || (replies.len() > 0 && replies.last() == eos)
}

/// Whether the network may answer with `replies`, and no further.
pub open spec fn translation_run(
    models: Seq<MTModel>,
    encoded: Tensor,
    start: u32,
    eos: u32,
    replies: Seq<u32>,
) -> bool {
    translation_begun(models, encoded, start, eos, replies) && translation_over(eos, replies)
}

/// The replies that belong to the translation: all but a final `eos`.
pub open spec fn translation_ids(replies: Seq<u32>, eos: u32) -> Seq<u32> {
    if replies.len() > 0 && replies.last() == eos {
        replies.drop_last()
    } else {
        replies
    }
}

/// Whether a text may be translated to `result` by a network in state `before`: the network
/// reads the text as [`tokens`] says, and `result` is the wording of a run of replies to it.
/// Its caches are empty afterwards.
pub open spec fn may_translate(
    words: Vocab,
    start: u32,
    eos: u32,
    before: MTModel,
    text: Seq<char>,
    after: MTModel,
    result: Seq<char>,
) -> bool {
    exists|encoded: Tensor, models: Seq<MTModel>, replies: Seq<u32>|
        {
            &&& #[trigger] marian_encodes(before, tokens(words@, eos, text), 0, models[0], encoded)
            &&& #[trigger] translation_run(models, encoded, start, eos, replies)
            &&& result == wording(words, translation_ids(replies, eos))
            &&& after == marian_without_cache(models.last())
        }
}

/// Whether the translation of a text may fail. Either the network does not take the text,
/// unless `unrated`; or, after some replies that do not end the translation, it has no score
/// for what follows, if `unrated`, or else refuses to rate it.
pub open spec fn may_fail(
    words: Vocab,
    device: Device,
    start: u32,
    eos: u32,
    before: MTModel,
    text: Seq<char>,
    after: MTModel,
    unrated: bool,
) -> bool {
    ||| !unrated && !holds_row(device, tokens(words@, eos, text))
    ||| !unrated && exists|row: Tensor| #[trigger]
        is_row(row, tokens(words@, eos, text)) && !marian_encoder_takes(before, row, 0)
    ||| exists|encoded: Tensor, models: Seq<MTModel>, replies: Seq<u32>|
        {
            let prev = (seq![start] + replies).last();
            &&& #[trigger] marian_encodes(before, tokens(words@, eos, text), 0, models[0], encoded)
            &&& #[trigger] translation_begun(models, encoded, start, eos, replies)
            &&& !translation_over(eos, replies)
            &&& if unrated {
                marian_rates_none(models.last(), prev, encoded, replies.len(), after)
            } else {
                marian_refuses(models.last(), device, prev, encoded, replies.len(), after)
            }
        }
}

impl TranslatorEngine {
    /// The network.
    pub closed spec fn network(&self) -> MTModel {
        self.model
    }

    /// The vocabulary.
    pub closed spec fn words(&self) -> Vocab {
        self.vocab
    }

    /// The numbers of the first and of the last token of a text.
    pub closed spec fn ends(&self) -> (u32, u32) {
        (self.decoder_start_token_id, self.eos_token_id)
    }

    /// Where the network runs.
    pub closed spec fn place(&self) -> Device {
        self.device
    }

    /// Whether the network can be run; it can be from the start on and stays so.
    pub open spec fn ready(&self) -> bool {
        marian_runs(self.network())
    }

    /// Loads a translator: a network with the given configuration and weights.
    ///
    /// This succeeds exactly if the configuration is that of a network that can be run and the
    /// weights fit it.
    pub fn new(config: &Config, vocab: Vocab, weights: &[u8], device: Device) -> (r: Result<
        Self,
        LoadError,
    >)
        ensures
            match r {
                Ok(translator) => {
                    &&& marian_usable(*config)
                    &&& marian_fits(*config, weights@, device)
                    &&& translator.ready()
                    &&& marian_loads(*config, weights@, device, translator.network())
                    &&& translator.words() == vocab
                    &&& translator.place() == device
                    &&& translator.ends() == config_ids(*config)
                },
                Err(LoadError::Network) => !marian_usable(*config),
                Err(e) => {
                    &&& marian_usable(*config)
                    &&& !marian_fits(*config, weights@, device)
                    &&& e is Weights
                },
            },
    {
        let (heads, width, encoder_layers, decoder_layers) = read_config_sizes(config);
        let most_layers: usize = isize::MAX as usize / LAYER_BYTES;
        let (encoder_inner, decoder_inner, gated) = read_config_inner(config);
        if gated && ((encoder_layers > 0 && encoder_inner <= 1) || (decoder_layers > 0
            && decoder_inner <= 1)) {
            return Err(LoadError::Network);
        }
        if heads == 0 && (encoder_layers > 0 || decoder_layers > 0) {
            return Err(LoadError::Network);
        }
        if width == 0 || encoder_layers > most_layers || decoder_layers
            > most_layers {
            return Err(LoadError::Network);
        }
        let (decoder_start_token_id, eos_token_id) = read_config_ids(config);
        match load_marian(config, weights, &device) {
            Ok(model) => Ok(
                TranslatorEngine { model, vocab, device, decoder_start_token_id, eos_token_id },
            ),
            Err(e) => Err(LoadError::Weights(e)),
        }
    }

    /// Cuts a text into tokens, always the longest one first.
    pub fn tokenize(&self, text: &str) -> (r: Vec<u32>)
        ensures
            r@ == tokens(self.words()@, self.ends().1, text@),
    {
        let chars = prepare(text);
        let max_token_len: usize = self.vocab.max_token_len();
        let mut ids: Vec<u32> = Vec::new();
        let mut pos: usize = 0;
        let n: usize = chars.len();
        let ghost v = self.vocab@;
        assert(chars@.skip(0) =~= chars@);
        while pos < n
            invariant
                pos <= n,
                n == chars@.len(),
                v == self.vocab@,
                forall|t: Seq<char>| #[trigger] v.contains_key(t) ==> t.len() <= max_token_len,
                ids@ + pieces(v, chars@.skip(pos as int)) == pieces(v, chars@),
            decreases n - pos,
        {
            let ghost rest = chars@.skip(pos as int);
            let remaining: usize = n - pos;
            let mut len: usize = if remaining < max_token_len {
                remaining
            } else {
                max_token_len
            };
            proof {
                if max_token_len <= remaining {
                    long_beginnings_do_not_matter(v, rest, len as nat, remaining as nat);
                }
            }
            let mut matched: Option<u32> = None;
            while len > 0 && matched.is_none()
                invariant
                    pos < n,
                    n == chars@.len(),
                    v == self.vocab@,
                    remaining == n - pos,
                    len <= remaining,
                    rest == chars@.skip(pos as int),
                    longest_token(v, rest, remaining as nat) == longest_token(v, rest, len as nat),
                    matched matches Some(id) ==> len > 0 && v.contains_key(rest.take(len as int))
                        && v[rest.take(len as int)] == id,
                decreases len + if matched.is_none() { 1int } else { 0int },
            {
                let piece = string_of(slice_subrange(&chars, pos, pos + len));
                assert(piece@ =~= rest.take(len as int));
                matched = self.vocab.id(piece.as_str());
                if matched.is_none() {
                    len = len - 1;
                }
            }
            let ghost before = ids@;
            match matched {
                Some(id) => {
                    ids.push(id);
                    assert(rest.skip(len as int) =~= chars@.skip(pos + len));
                    assert(before + pieces(v, rest) =~= ids@ + pieces(v, rest.skip(len as int)));
                    pos = pos + len;
                },
                None => {
                    assert(rest.skip(1) =~= chars@.skip(pos + 1));
                    pos = pos + 1;
                },
            }
        }
        assert(ids@ =~= pieces(v, chars@));
        ids.push(self.eos_token_id);
        ids
    }

    /// The text of a translation, given the numbers of its tokens.
    pub fn detokenize(&self, ids: &[u32]) -> (r: String)
        ensures
            r@ == wording(self.words(), ids@),
    {
        let mut chars: Vec<char> = Vec::new();
        let n: usize = ids.len();
        let ghost f = |c: char| unmark(c);
        for i in 0..n
            invariant
                n == ids@.len(),
                f == (|c: char| unmark(c)),
                chars@ == spelled(self.vocab, ids@.take(i as int)).map_values(f),
        {
            let ghost before = chars@;
            let ghost sofar = spelled(self.vocab, ids@.take(i as int));
            assert(ids@.take(i + 1).drop_last() =~= ids@.take(i as int));
            match self.vocab.token(ids[i]) {
                Some(token) => {
                    for c in it: token.as_str().chars()
                        invariant
                            it.seq() == token@,
                            f == (|c: char| unmark(c)),
                            chars@ == before + token@.map_values(f).take(it.index()),
                    {
                        if c == SPACE_MARK {
                            chars.push(' ');
                        } else {
                            chars.push(c);
                        }
                    }
                    assert(token@.map_values(f).take(token@.len() as int) =~= token@.map_values(f));
                    assert((sofar + token@).map_values(f) =~= before + token@.map_values(f));
                },
                None => {
                    assert(sofar + Seq::<char>::empty() =~= sofar);
                },
            }
        }
        assert(ids@.take(n as int) =~= ids@);
        string_of(trim(&chars))
    }

    /// One step of a translation: the token that is to follow `prev`.
    fn next_token(&mut self, prev: u32, encoded: &Tensor, past: usize) -> (r: Result<
        u32,
        EngineError,
    >)
        requires
            old(self).ready(),
            nonempty(*encoded),
            past <= 0xffff,
        ensures
            final(self).ready(),
            final(self).words() == old(self).words(),
            final(self).ends() == old(self).ends(),
            final(self).place() == old(self).place(),
            match r {
                Ok(reply) => marian_chooses(
                    old(self).network(),
                    prev,
                    *encoded,
                    past as nat,
                    final(self).network(),
                    reply,
                ),
                Err(EngineError::NoScores) => marian_rates_none(
                    old(self).network(),
                    prev,
                    *encoded,
                    past as nat,
                    final(self).network(),
                ),
                Err(e) => e is Tensor && marian_refuses(
                    old(self).network(),
                    old(self).place(),
                    prev,
                    *encoded,
                    past as nat,
                    final(self).network(),
                ),
            },
    {
        let row: Vec<u32> = vec![prev];
        assert(row@ =~= seq![prev]);
        let input = match id_row(&row, &self.device) {
            Ok(t) => t,
            Err(e) => return Err(EngineError::Tensor(e)),
        };
        let logits = match marian_decode(&mut self.model, &input, encoded, past) {
            Ok(t) => t,
            Err(e) => return Err(EngineError::Tensor(e)),
        };
        choose_only(&logits)
    }

    /// Translates a text.
    ///
    /// A blank text has an empty translation. Of another one the network decides the
    /// translation: whatever it replies, the text is handed to it as [`tokens`] says, each
    /// reply is handed back to it, and the translation is what the replies spell. This fails
    /// only as [`may_fail`] says; a translation that succeeds leaves the network without a
    /// cache.
    pub fn translate(&mut self, text: &str) -> (r: Result<String, EngineError>)
        requires
            old(self).ready(),
        ensures
            final(self).ready(),
            final(self).words() == old(self).words(),
            final(self).ends() == old(self).ends(),
            final(self).place() == old(self).place(),
            is_blank(text@) ==> final(self).network() == old(self).network() && (r matches Ok(t)
                && t@.len() == 0),
            !is_blank(text@) ==> match r {
                Ok(t) => may_translate(
                    old(self).words(),
                    old(self).ends().0,
                    old(self).ends().1,
                    old(self).network(),
                    text@,
                    final(self).network(),
                    t@,
                ),
                Err(e) => (e is Tensor || e is NoScores) && may_fail(
                    old(self).words(),
                    old(self).place(),
                    old(self).ends().0,
                    old(self).ends().1,
                    old(self).network(),
                    text@,
                    final(self).network(),
                    e is NoScores,
                ),
            },
    {
        if blank(text) {
            return Ok(String::new());
        }
        let input_ids = self.tokenize(text);
        let input = match id_row(&input_ids, &self.device) {
            Ok(t) => t,
            Err(e) => return Err(EngineError::Tensor(e)),
        };
        let encoded = match marian_encode(&mut self.model, &input, 0) {
            Ok(t) => t,
            Err(e) => return Err(EngineError::Tensor(e)),
        };
        let (start, eos): (u32, u32) = (self.decoder_start_token_id, self.eos_token_id);
        let mut output_ids: Vec<u32> = vec![start];
        let ghost mut models: Seq<MTModel> = seq![self.model];
        let ghost mut replies: Seq<u32> = seq![];
        let mut done = false;
        while !done && output_ids.len() <= MAX_OUTPUT_TOKENS
            invariant
                !is_blank(text@),
                self.ready(),
                nonempty(encoded),
                done ==> output_ids@.len() <= MAX_OUTPUT_TOKENS,
                1 <= output_ids@.len() <= MAX_OUTPUT_TOKENS + 1,
                self.words() == old(self).words(),
                self.ends() == old(self).ends(),
                self.place() == old(self).place(),
                (start, eos) == old(self).ends(),
                models.len() == replies.len() + 1,
                models[0] == models.first(),
                marian_encodes(
                    old(self).network(),
                    tokens(old(self).words()@, eos, text@),
                    0,
                    models[0],
                    encoded,
                ),
                models.last() == self.network(),
                output_ids@ == seq![start] + translation_ids(replies, eos),
                done <==> replies.len() > 0 && replies.last() == eos,
                forall|k: int| 0 <= k < replies.len() - 1 ==> #[trigger] replies[k] != eos,
                forall|k: int|
                    0 <= k < replies.len() ==> #[trigger] marian_chooses(
                        models[k],
                        (seq![start] + replies)[k],
                        encoded,
                        k as nat,
                        models[k + 1],
                        replies[k],
                    ),
            decreases MAX_OUTPUT_TOKENS + 1 - output_ids@.len() + if done { 0int } else { 1int },
        {
            let past: usize = output_ids.len() - 1;
            let prev: u32 = output_ids[past];
            let ghost before = replies;
            let ghost models_before = models;
            proof {
                assert(translation_ids(replies, eos) == replies);
                assert(translation_begun(models, encoded, start, eos, replies));
                assert(!translation_over(eos, replies));
                assert(prev == (seq![start] + replies).last());
            }
            let reply: u32 = match self.next_token(prev, &encoded, past) {
                Ok(reply) => reply,
                Err(e) => return Err(e),
            };
            proof {
                replies = replies.push(reply);
                models = models.push(self.network());
                assert forall|k: int| 0 <= k < replies.len() implies #[trigger] marian_chooses(
                    models[k],
                    (seq![start] + replies)[k],
                    encoded,
                    k as nat,
                    models[k + 1],
                    replies[k],
                ) by {
                    if k < before.len() {
                        assert(marian_chooses(
                            models_before[k],
                            (seq![start] + before)[k],
                            encoded,
                            k as nat,
                            models_before[k + 1],
                            before[k],
                        ));
                        assert((seq![start] + replies)[k] == (seq![start] + before)[k]);
                    } else {
                        assert((seq![start] + replies)[k] == prev);
                    }
                }
                assert(replies.drop_last() =~= before);
            }
            if reply == eos {
                done = true;
            } else {
                output_ids.push(reply);
            }
            assert(output_ids@ =~= seq![start] + translation_ids(replies, eos));
        }
        marian_reset(&mut self.model);
        assert(translation_run(models, encoded, start, eos, replies));
        let ids = slice_subrange(&output_ids, 1, output_ids.len());
        assert(ids@ =~= translation_ids(replies, eos));
        Ok(self.detokenize(ids))
    }
}

/// The length that [`longest_token`] gives belongs to a token, and no longer beginning is one.
pub proof fn longest_token_is_longest(ids: Map<Seq<char>, u32>, s: Seq<char>, n: nat)
    requires
        n <= s.len(),
    ensures
        longest_token(ids, s, n) <= n,
        longest_token(ids, s, n) > 0 ==> ids.contains_key(
            s.take(longest_token(ids, s, n) as int),
        ),
        forall|m: int|
            longest_token(ids, s, n) < m <= n ==> !ids.contains_key(#[trigger] s.take(m)),
    decreases n,
{
    if n > 0 && !ids.contains_key(s.take(n as int)) {
        longest_token_is_longest(ids, s, (n - 1) as nat);
    }
}

/// Every number that a text is cut into belongs to a token.
proof fn pieces_are_tokens(ids: Map<Seq<char>, u32>, s: Seq<char>)
    ensures
        forall|i: int|
            0 <= i < pieces(ids, s).len() ==> ids.contains_value(#[trigger] pieces(ids, s)[i]),
    decreases s.len(),
{
    if s.len() > 0 {
        let n = longest_token(ids, s, s.len());
        longest_token_is_longest(ids, s, s.len());
        if 0 < n <= s.len() {
            let first = s.take(n as int);
            pieces_are_tokens(ids, s.skip(n as int));
            assert(ids.contains_key(first));
            assert forall|i: int| 0 <= i < pieces(ids, s).len() implies ids.contains_value(
                #[trigger] pieces(ids, s)[i],
            ) by {
                if i > 0 {
                    assert(pieces(ids, s)[i] == pieces(ids, s.skip(n as int))[i - 1]);
                } else {
                    assert(pieces(ids, s)[i] == ids[first]);
                }
            }
        } else {
            pieces_are_tokens(ids, s.skip(1));
            assert(pieces(ids, s) == pieces(ids, s.skip(1)));
        }
    }
}

/// A text is read as numbers of tokens, followed by the end mark.
pub proof fn texts_are_read_as_tokens(ids: Map<Seq<char>, u32>, eos: u32, text: Seq<char>)
    ensures
        tokens(ids, eos, text).len() > 0,
        tokens(ids, eos, text).last() == eos,
        forall|i: int|
            0 <= i < tokens(ids, eos, text).len() - 1 ==> ids.contains_value(
                #[trigger] tokens(ids, eos, text)[i],
            ),
{
    pieces_are_tokens(ids, prepared(text));
    assert forall|i: int| 0 <= i < tokens(ids, eos, text).len() - 1 implies ids.contains_value(
        #[trigger] tokens(ids, eos, text)[i],
    ) by {
        assert(tokens(ids, eos, text)[i] == pieces(ids, prepared(text))[i]);
    }
}

/// White space around a text does not matter.
pub proof fn white_space_around_does_not_matter(
    ids: Map<Seq<char>, u32>,
    eos: u32,
    text: Seq<char>,
)
    ensures
        tokens(ids, eos, trimmed(text)) == tokens(ids, eos, text),
{
    trimming_is_stable(text);
}

proof fn lowering_keeps_white_space(c: char)
    ensures
        is_white_space(ascii_lower(c)) == is_white_space(c),
        ascii_lower(ascii_lower(c)) == ascii_lower(c),
        c <= '\u{7f}' ==> ascii_lower(c) <= '\u{7f}',
        c > '\u{7f}' ==> ascii_lower(c) == c,
{
}

proof fn lowering_commutes_with_trimming(s: Seq<char>)
    ensures
        trim_start(s.map_values(|c: char| ascii_lower(c))) == trim_start(s).map_values(
            |c: char| ascii_lower(c),
        ),
        trim_end(s.map_values(|c: char| ascii_lower(c))) == trim_end(s).map_values(
            |c: char| ascii_lower(c),
        ),
    decreases s.len(),
{
    let f = |c: char| ascii_lower(c);
    if s.len() > 0 {
        lowering_keeps_white_space(s[0]);
        lowering_keeps_white_space(s.last());
        assert(s.map_values(f).drop_first() =~= s.drop_first().map_values(f));
        assert(s.map_values(f).drop_last() =~= s.drop_last().map_values(f));
        lowering_commutes_with_trimming(s.drop_first());
        lowering_commutes_with_trimming(s.drop_last());
    }
}

/// Whether two texts are the same but for the case of ASCII letters.
pub open spec fn same_but_for_case(a: Seq<char>, b: Seq<char>) -> bool {
    a.map_values(|c: char| ascii_lower(c)) == b.map_values(|c: char| ascii_lower(c))
}

proof fn ascii_text_is_read_in_lower_case(text: Seq<char>, lower: Seq<char>)
    requires
        all_ascii(trimmed(text)),
        lower == text.map_values(|c: char| ascii_lower(c)),
    ensures
        prepared(text) == seq![SPACE_MARK] + trimmed(lower).map_values(|c: char| mark(c)),
{
    lowering_commutes_with_trimming(text);
    lowering_commutes_with_trimming(trim_start(text));
}

/// The case of an ASCII text does not matter: a text that differs from it only in the case of
/// letters, such as the same text in lower or in upper case, is read as the same tokens.
pub proof fn ascii_case_does_not_matter(
    ids: Map<Seq<char>, u32>,
    eos: u32,
    a: Seq<char>,
    b: Seq<char>,
)
    requires
        all_ascii(trimmed(a)),
        same_but_for_case(a, b),
    ensures
        tokens(ids, eos, a) == tokens(ids, eos, b),
{
    let f = |c: char| ascii_lower(c);
    let lower = a.map_values(f);
    lowering_commutes_with_trimming(a);
    lowering_commutes_with_trimming(trim_start(a));
    lowering_commutes_with_trimming(b);
    lowering_commutes_with_trimming(trim_start(b));
    let (x, y) = (trimmed(a), trimmed(b));
    assert(x.map_values(f) == y.map_values(f));
    assert(x.len() == x.map_values(f).len() && y.len() == y.map_values(f).len());
    assert forall|i: int| 0 <= i < y.len() implies #[trigger] y[i] <= '\u{7f}' by {
        assert(x[i] <= '\u{7f}');
        lowering_keeps_white_space(x[i]);
        lowering_keeps_white_space(y[i]);
        assert(x.map_values(f)[i] == y.map_values(f)[i]);
    }
    ascii_text_is_read_in_lower_case(a, lower);
    ascii_text_is_read_in_lower_case(b, lower);
}

/// The upper-case form of an ASCII character.
pub open spec fn ascii_upper(c: char) -> char {
    if 'a' <= c <= 'z' {
        ((c as u8) - 32) as u8 as char
    } else {
        c
    }
}

/// A text in lower case and a text in upper case differ from the text only in case.
pub proof fn either_case_is_the_same_text(text: Seq<char>)
    ensures
        same_but_for_case(text, text.map_values(|c: char| ascii_lower(c))),
        same_but_for_case(text, text.map_values(|c: char| ascii_upper(c))),
{
    let f = |c: char| ascii_lower(c);
    let g = |c: char| ascii_upper(c);
    assert(text.map_values(f) =~= text.map_values(f).map_values(f));
    assert(text.map_values(f) =~= text.map_values(g).map_values(f));
}

/// Whether every character of `s` is a token.
pub open spec fn covered(ids: Map<Seq<char>, u32>, s: Seq<char>) -> bool {
    forall|i: int| 0 <= i < s.len() ==> ids.contains_key(seq![#[trigger] s[i]])
}

proof fn spelled_concat(vocab: Vocab, a: Seq<u32>, b: Seq<u32>)
    ensures
        spelled(vocab, a + b) == spelled(vocab, a) + spelled(vocab, b),
    decreases b.len(),
{
    if b.len() == 0 {
        assert(a + b =~= a);
        assert(spelled(vocab, a) + Seq::<char>::empty() =~= spelled(vocab, a));
    } else {
        spelled_concat(vocab, a, b.drop_last());
        assert((a + b).drop_last() =~= a + b.drop_last());
        assert((a + b).last() == b.last());
        assert(spelled(vocab, a + b) =~= spelled(vocab, a) + spelled(vocab, b));
    }
}

/// What was cut into tokens is spelled by them again, if every character of it is a token, so
/// that none has to be left out, and the numbers of the vocabulary lead back to their tokens.
pub proof fn tokens_spell_the_text(vocab: Vocab, s: Seq<char>)
    requires
        faithful(vocab),
        covered(vocab@, s),
    ensures
        spelled(vocab, pieces(vocab@, s)) == s,
    decreases s.len(),
{
    if s.len() > 0 {
        let n = longest_token(vocab@, s, s.len());
        longest_token_is_longest(vocab@, s, s.len());
        assert(vocab@.contains_key(seq![s[0]]));
        assert(s.take(1) =~= seq![s[0]]);
        assert(0 < n <= s.len());
        let first = s.take(n as int);
        let id = vocab@[first];
        let rest = s.skip(n as int);
        tokens_spell_the_text(vocab, rest);
        spelled_concat(vocab, seq![id], pieces(vocab@, rest));
        assert(seq![id].drop_last() =~= Seq::<u32>::empty());
        assert(spelled(vocab, Seq::<u32>::empty()) =~= Seq::<char>::empty());
        assert(spelled(vocab, seq![id]) =~= first);
        assert(first + rest =~= s);
    }
}

/// A translation is spelled by every reply but the end mark that ends it, in their order.
pub proof fn only_the_end_mark_is_left_out(replies: Seq<u32>, reply: u32, eos: u32)
    ensures
        translation_ids(replies.push(eos), eos) == replies,
        reply != eos ==> translation_ids(replies.push(reply), eos) == replies.push(reply),
        translation_ids(Seq::<u32>::empty(), eos).len() == 0,
{
    assert(replies.push(eos).drop_last() =~= replies);
}

/// A text is read with one mark before it and each space in it as a mark. An ASCII text is read
/// in lower case, any other one as it is; nothing else changes, and nothing is left out but the
/// white space around.
pub proof fn texts_are_read_character_by_character(text: Seq<char>)
    ensures
        ({
            let (body, read) = (trimmed(text), prepared(text));
            let ascii = forall|j: int| 0 <= j < body.len() ==> ((#[trigger] body[j]) as int) < 128;
            &&& read.len() == body.len() + 1
            &&& read[0] as int == 0x2581
            &&& forall|i: int|
                0 <= i < body.len() ==> {
                    let c = #[trigger] body[i];
                    read[i + 1] as int == if c == ' ' {
                        0x2581
                    } else if ascii && 'A' <= c <= 'Z' {
                        c as int + 32
                    } else {
                        c as int
                    }
                }
        }),
{
    let (body, read) = (trimmed(text), prepared(text));
    let ascii = forall|j: int| 0 <= j < body.len() ==> ((#[trigger] body[j]) as int) < 128;
    assert(ascii == all_ascii(body)) by {
        if all_ascii(body) {
            assert forall|j: int| 0 <= j < body.len() implies ((#[trigger] body[j]) as int) < 128 by {
                assert(body[j] <= '\u{7f}');
            }
        }
        if ascii {
            assert forall|j: int| 0 <= j < body.len() implies #[trigger] body[j] <= '\u{7f}' by {
                assert((body[j] as int) < 128);
            }
        }
    }
    assert forall|i: int| 0 <= i < body.len() implies ({
        let c = #[trigger] body[i];
        read[i + 1] as int == if c == ' ' {
            0x2581
        } else if ascii && 'A' <= c <= 'Z' {
            c as int + 32
        } else {
            c as int
        }
    }) by {
        let c = body[i];
        let folded = if all_ascii(body) {
            body.map_values(|c: char| ascii_lower(c))
        } else {
            body
        };
        assert(read[i + 1] == mark(folded[i]));
    }
}

/// Where tokens start, the longest of them comes first, and its number is followed by those of
/// what is behind it; where no token starts, a character is left out. Nothing has no tokens.
pub proof fn the_longest_token_comes_first(ids: Map<Seq<char>, u32>, s: Seq<char>, n: int)
    ensures
        pieces(ids, Seq::<char>::empty()).len() == 0,
        0 < n <= s.len() && ids.contains_key(s.take(n)) && (forall|m: int|
            n < m <= s.len() ==> !ids.contains_key(#[trigger] s.take(m))) ==> pieces(ids, s)
            == seq![ids[s.take(n)]] + pieces(ids, s.skip(n)),
        s.len() > 0 && (forall|m: int|
            0 < m <= s.len() ==> !ids.contains_key(#[trigger] s.take(m))) ==> pieces(ids, s)
            == pieces(ids, s.skip(1)),
{
    longest_token_is_longest(ids, s, s.len());
    let k = longest_token(ids, s, s.len()) as int;
    if 0 < n <= s.len() && ids.contains_key(s.take(n)) && (forall|m: int|
        n < m <= s.len() ==> !ids.contains_key(#[trigger] s.take(m))) {
        assert(k >= n);
        assert(k == n);
    }
    if s.len() > 0 && (forall|m: int|
        0 < m <= s.len() ==> !ids.contains_key(#[trigger] s.take(m))) {
        assert(k == 0);
    }
}

/// What the network reads are the tokens of the prepared text and then the end mark.
pub proof fn the_end_mark_follows_the_text(ids: Map<Seq<char>, u32>, eos: u32, text: Seq<char>)
    ensures
        tokens(ids, eos, text).len() == pieces(ids, prepared(text)).len() + 1,
        tokens(ids, eos, text).drop_last() == pieces(ids, prepared(text)),
        tokens(ids, eos, text).last() == eos,
{
    assert(tokens(ids, eos, text).drop_last() =~= pieces(ids, prepared(text)));
}

/// The parts of a translation are spelled one after the other: a number by its token, if it has
/// one, and by nothing otherwise.
pub proof fn parts_are_spelled_in_order(vocab: Vocab, a: Seq<u32>, b: Seq<u32>, id: u32)
    ensures
        spelled(vocab, a + b) == spelled(vocab, a) + spelled(vocab, b),
        vocab.token_of(id) matches Some(token) ==> spelled(vocab, a.push(id)) == spelled(vocab, a)
            + token,
        vocab.token_of(id) is None ==> spelled(vocab, a.push(id)) == spelled(vocab, a),
        spelled(vocab, Seq::<u32>::empty()).len() == 0,
{
    spelled_concat(vocab, a, b);
    assert(a.push(id).drop_last() =~= a);
    assert(spelled(vocab, a) + Seq::<char>::empty() =~= spelled(vocab, a));
}

/// A translation is worded as it is spelled, character by character, but with a space for each
/// mark, and without white space around.
pub proof fn marks_are_worded_as_spaces(vocab: Vocab, ids: Seq<u32>, plain: Seq<char>)
    requires
        plain.len() == spelled(vocab, ids).len(),
        forall|i: int|
            0 <= i < plain.len() ==> (#[trigger] plain[i]) as int == if spelled(
                vocab,
                ids,
            )[i] as int == 0x2581 {
                32
            } else {
                spelled(vocab, ids)[i] as int
            },
    ensures
        wording(vocab, ids) == trimmed(plain),
{
    let marked = spelled(vocab, ids).map_values(|c: char| unmark(c));
    assert forall|i: int| 0 <= i < plain.len() implies plain[i] == marked[i] by {
        assert(marked[i] == unmark(spelled(vocab, ids)[i]));
    }
    assert(marked =~= plain);
}

/// A text without marks that is cut into tokens and worded again is the text without the white
/// space around it, in lower case if it is ASCII; as long as every character of it is a token
/// and the numbers of the vocabulary lead back to their tokens.
pub proof fn texts_are_worded_as_they_were_read(vocab: Vocab, text: Seq<char>)
    requires
        faithful(vocab),
        covered(vocab@, prepared(text)),
        !text.contains(SPACE_MARK),
    ensures
        wording(vocab, pieces(vocab@, prepared(text))) == if all_ascii(trimmed(text)) {
            ascii_lowered(trimmed(text))
        } else {
            trimmed(text)
        },
{
    tokens_spell_the_text(vocab, prepared(text));
    let body = trimmed(text);
    let f = |c: char| ascii_lower(c);
    let folded = if all_ascii(body) {
        body.map_values(f)
    } else {
        body
    };
    trimming_adds_nothing(text);
    let unmarked = prepared(text).map_values(|c: char| unmark(c));
    assert(unmarked =~= seq![' '] + folded) by {
        assert forall|i: int| 0 <= i < folded.len() implies unmarked[i + 1] == folded[i] by {
            assert(text.contains(body[i]));
            lowering_keeps_white_space(body[i]);
            assert(folded[i] == body[i] || folded[i] == ascii_lower(body[i]));
            assert(folded[i] != SPACE_MARK);
            assert(prepared(text)[i + 1] == mark(folded[i]));
        }
    }
    assert((seq![' '] + folded).drop_first() =~= folded);
    trimming_is_stable(text);
    lowering_commutes_with_trimming(body);
    lowering_commutes_with_trimming(trim_start(body));
    assert(trimmed(folded) == folded);
}

/// Each reply is chosen by the network in the state in which the reply before left it, from that
/// reply alone and the number of replies so far; the first one from the start mark. There are at
/// most 256 replies, and none follows the end mark.
pub proof fn replies_follow_the_network(
    models: Seq<MTModel>,
    encoded: Tensor,
    start: u32,
    eos: u32,
    replies: Seq<u32>,
)
    requires
        translation_begun(models, encoded, start, eos, replies),
    ensures
        models.len() == replies.len() + 1,
        replies.len() <= 256,
        forall|k: int| 0 <= k < replies.len() - 1 ==> #[trigger] replies[k] != eos,
        replies.len() > 0 ==> marian_chooses(models[0], start, encoded, 0, models[1], replies[0]),
        forall|k: int|
            0 < k < replies.len() ==> marian_chooses(
                models[k],
                replies[k - 1],
                encoded,
                k as nat,
                models[k + 1],
                #[trigger] replies[k],
            ),
{
    let all = seq![start] + replies;
    if replies.len() > 0 {
        let first: int = 0;
        assert(marian_chooses(
            models[first],
            all[first],
            encoded,
            first as nat,
            models[first + 1],
            replies[first],
        ));
    }
    assert forall|k: int| 0 < k < replies.len() implies marian_chooses(
        models[k],
        replies[k - 1],
        encoded,
        k as nat,
        models[k + 1],
        #[trigger] replies[k],
    ) by {
        assert(all[k] == replies[k - 1]);
        assert(marian_chooses(models[k], all[k], encoded, k as nat, models[k + 1], replies[k]));
    }
}

/// A translation ends with the end mark or after 256 replies, and neither earlier nor later.
pub proof fn translations_stop_at_the_end(
    models: Seq<MTModel>,
    encoded: Tensor,
    start: u32,
    eos: u32,
    replies: Seq<u32>,
)
    ensures
        translation_run(models, encoded, start, eos, replies) <==> {
            &&& translation_begun(models, encoded, start, eos, replies)
            &&& replies.len() == 256 || replies.len() > 0 && replies.last() == eos
        },
        translation_run(models, encoded, start, eos, replies) ==> replies.len() > 0,
{
}

/// A token is chosen only if the decoder gives scores to what follows the token before it, and
/// those choose it.
pub proof fn choices_are_scored(
    before: MTModel,
    prev: u32,
    encoded: Tensor,
    past: nat,
    after: MTModel,
    reply: u32,
)
    ensures
        marian_chooses(before, prev, encoded, past, after, reply) <==> exists|logits: Tensor|
            #[trigger]
            marian_decodes(before, seq![prev], encoded, past, after, logits) && chosen_only(
                logits,
                reply,
            ),
{
}

/// Whether the network reads a text and answers it like this.
pub open spec fn answered_like_this(
    words: Vocab,
    start: u32,
    eos: u32,
    before: MTModel,
    text: Seq<char>,
    encoded: Tensor,
    models: Seq<MTModel>,
    replies: Seq<u32>,
) -> bool {
    &&& marian_encodes(before, pieces(words@, prepared(text)).push(eos), 0, models[0], encoded)
    &&& translation_run(models, encoded, start, eos, replies)
}

/// A translation is the wording of all replies that the network gives to the text, but for the
/// end mark that ends them. Afterwards the network is left without a cache.
pub proof fn translations_are_worded_replies(
    words: Vocab,
    start: u32,
    eos: u32,
    before: MTModel,
    text: Seq<char>,
    after: MTModel,
    result: Seq<char>,
)
    requires
        may_translate(words, start, eos, before, text, after, result),
    ensures
        exists|encoded: Tensor, models: Seq<MTModel>, replies: Seq<u32>|
            {
                &&& #[trigger] answered_like_this(
                    words,
                    start,
                    eos,
                    before,
                    text,
                    encoded,
                    models,
                    replies,
                )
                &&& replies.last() == eos ==> result == wording(words, replies.drop_last())
                &&& replies.last() != eos ==> result == wording(words, replies)
                &&& after == marian_without_cache(models.last())
            },
{
    let (encoded, models, replies) = choose|
        encoded: Tensor,
        models: Seq<MTModel>,
        replies: Seq<u32>,
    |
        {
            &&& #[trigger] marian_encodes(before, tokens(words@, eos, text), 0, models[0], encoded)
            &&& #[trigger] translation_run(models, encoded, start, eos, replies)
            &&& result == wording(words, translation_ids(replies, eos))
            &&& after == marian_without_cache(models.last())
        };
    assert(answered_like_this(words, start, eos, before, text, encoded, models, replies));
    translations_stop_at_the_end(models, encoded, start, eos, replies);
}

/// The network refuses to rate what follows a token only where something does not work: where
/// the device holds the token, the decoder takes it and gives scores of the right shape, there
/// is no refusal.
pub proof fn working_networks_do_not_refuse(
    before: MTModel,
    device: Device,
    prev: u32,
    encoded: Tensor,
    past: nat,
    after: MTModel,
)
    requires
        holds_row(device, seq![prev]),
        forall|row: Tensor| #[trigger]
            is_row(row, seq![prev]) ==> marian_decoder_takes(before, row, encoded, past),
        forall|logits: Tensor| #[trigger]
            marian_decodes(before, seq![prev], encoded, past, after, logits) ==> rates_only(logits),
    ensures
        !marian_refuses(before, device, prev, encoded, past, after),
        !marian_rates_none(before, prev, encoded, past, after),
{
    if marian_rates_none(before, prev, encoded, past, after) {
        let logits = choose|logits: Tensor| #[trigger]
            marian_decodes(before, seq![prev], encoded, past, after, logits) && rates_none_only(
                logits,
            );
        assert(rates_only(logits));
    }
}

/// Whether the network reads a text like this and gives these replies to it, without ending the
/// translation with them; `prev` is the last one of them, or the start mark.
pub open spec fn interrupted_like_this(
    words: Vocab,
    start: u32,
    eos: u32,
    before: MTModel,
    text: Seq<char>,
    encoded: Tensor,
    models: Seq<MTModel>,
    replies: Seq<u32>,
    prev: u32,
) -> bool {
    &&& marian_encodes(before, pieces(words@, prepared(text)).push(eos), 0, models[0], encoded)
    &&& translation_begun(models, encoded, start, eos, replies)
    &&& replies.len() < 256
    &&& replies.len() == 0 ==> prev == start
    &&& replies.len() > 0 ==> prev == replies.last() && prev != eos
}

/// There is no score for what follows only after replies that have not ended the translation:
/// then it is the network, in the state that they left it in, that has no score for what follows
/// the last of them.
pub proof fn missing_scores_have_a_cause(
    words: Vocab,
    device: Device,
    start: u32,
    eos: u32,
    before: MTModel,
    text: Seq<char>,
    after: MTModel,
)
    requires
        may_fail(words, device, start, eos, before, text, after, true),
    ensures
        exists|encoded: Tensor, models: Seq<MTModel>, replies: Seq<u32>, prev: u32|
            #[trigger] interrupted_like_this(
                words,
                start,
                eos,
                before,
                text,
                encoded,
                models,
                replies,
                prev,
            ) && marian_rates_none(models.last(), prev, encoded, replies.len(), after),
{
    let (encoded, models, replies) = choose|
        encoded: Tensor,
        models: Seq<MTModel>,
        replies: Seq<u32>,
    |
        {
            let prev = (seq![start] + replies).last();
            &&& #[trigger] marian_encodes(before, tokens(words@, eos, text), 0, models[0], encoded)
            &&& #[trigger] translation_begun(models, encoded, start, eos, replies)
            &&& !translation_over(eos, replies)
            &&& marian_rates_none(models.last(), prev, encoded, replies.len(), after)
        };
    let prev = (seq![start] + replies).last();
    assert(interrupted_like_this(
        words,
        start,
        eos,
        before,
        text,
        encoded,
        models,
        replies,
        prev,
    ));
}

/// A translation is refused only if the device or the encoder does not take the tokens of the
/// text, or if the network, in the state that some replies left it in that have not ended the
/// translation, refuses to rate what follows the last of them.
pub proof fn refusals_have_a_cause(
    words: Vocab,
    device: Device,
    start: u32,
    eos: u32,
    before: MTModel,
    text: Seq<char>,
    after: MTModel,
)
    requires
        may_fail(words, device, start, eos, before, text, after, false),
        holds_row(device, pieces(words@, prepared(text)).push(eos)),
        forall|row: Tensor| #[trigger]
            is_row(row, pieces(words@, prepared(text)).push(eos)) ==> marian_encoder_takes(
                before,
                row,
                0,
            ),
    ensures
        exists|encoded: Tensor, models: Seq<MTModel>, replies: Seq<u32>, prev: u32|
            #[trigger] interrupted_like_this(
                words,
                start,
                eos,
                before,
                text,
                encoded,
                models,
                replies,
                prev,
            ) && marian_refuses(models.last(), device, prev, encoded, replies.len(), after),
{
    let (encoded, models, replies) = choose|
        encoded: Tensor,
        models: Seq<MTModel>,
        replies: Seq<u32>,
    |
        {
            let prev = (seq![start] + replies).last();
            &&& #[trigger] marian_encodes(before, tokens(words@, eos, text), 0, models[0], encoded)
            &&& #[trigger] translation_begun(models, encoded, start, eos, replies)
            &&& !translation_over(eos, replies)
            &&& marian_refuses(models.last(), device, prev, encoded, replies.len(), after)
        };
    let prev = (seq![start] + replies).last();
    assert(interrupted_like_this(
        words,
        start,
        eos,
        before,
        text,
        encoded,
        models,
        replies,
        prev,
    ));
}

/// A text without marks comes back from being cut into tokens and worded again, the end mark
/// left out: without the white space around it, and in lower case if it is ASCII. Every
/// character of it has to be a token, and the numbers have to lead back to their tokens.
pub proof fn tokenizing_is_undone_by_wording(
    translator: &TranslatorEngine,
    text: &str,
    ids: Vec<u32>,
    without_end: &[u32],
    r: String,
)
    requires
        call_ensures(TranslatorEngine::tokenize, (translator, text), ids),
        without_end@ == ids@.drop_last(),
        call_ensures(TranslatorEngine::detokenize, (translator, without_end), r),
        faithful(translator.words()),
        covered(translator.words()@, prepared(text@)),
        !text@.contains(SPACE_MARK),
    ensures
        ids@.last() == translator.ends().1,
        all_ascii(trimmed(text@)) ==> r@ == ascii_lowered(trimmed(text@)),
        !all_ascii(trimmed(text@)) ==> r@ == trimmed(text@),
{
    let words = translator.words();
    texts_are_worded_as_they_were_read(words, text@);
    the_end_mark_follows_the_text(words@, translator.ends().1, text@);
}

} // verus!
