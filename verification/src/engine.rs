//! The neural networks, as far as this library drives them.
//!
//! Everything in this module is a call into the `candle` crates. A tensor is seen by its
//! shape and by its entries. What a network computes is a sum of floating-point products
//! whose order depends on the machine, so the results of the networks are described by
//! relations: `decodes(.., hidden)` says that `hidden` is something that the decoder may
//! return for the other arguments, and does not say that there is only one such tensor.

use crate::config::{
    config_inner, config_sizes, whisper_config_layers, whisper_config_sizes,
};
use crate::single::Single;
use candle_core::{DType, Device, IndexOp, Tensor};
use candle_nn::VarBuilder;
use candle_transformers::models::marian;
use candle_transformers::models::marian::MTModel;
use candle_transformers::models::whisper;
use candle_transformers::models::whisper::model::Whisper;
use vstd::prelude::*;

verus! {

/// A tensor.
#[verifier::external_type_specification]
#[verifier::external_body]
pub struct ExTensor(candle_core::Tensor);

/// Where tensors are computed.
#[verifier::external_type_specification]
#[verifier::external_body]
pub struct ExDevice(candle_core::Device);

/// The error of a tensor operation.
#[verifier::external_type_specification]
#[verifier::external_body]
pub struct ExError(candle_core::Error);

/// A Whisper network with its weights and caches.
#[verifier::external_type_specification]
#[verifier::external_body]
pub struct ExWhisper(candle_transformers::models::whisper::model::Whisper);

/// A Marian network with its weights and caches.
#[verifier::external_type_specification]
#[verifier::external_body]
pub struct ExMTModel(candle_transformers::models::marian::MTModel);

/// The error of running a network.
#[derive(Debug)]
pub enum EngineError {
    /// A tensor operation failed.
    Tensor(candle_core::Error),
    /// A network gave no score to any token.
    NoScores,
    /// The scores that a network gave are no single-precision numbers.
    NoSingles,
    /// A spectrogram without entries.
    NoAudio,
}

/// The sizes of the dimensions of a tensor.
pub uninterp spec fn shape(t: Tensor) -> Seq<nat>;

/// The entries of a tensor of 32-bit numbers, as bit patterns, the last dimension running
/// fastest.
pub uninterp spec fn entries(t: Tensor) -> Seq<u32>;

/// Whether the entries of a tensor are single-precision numbers.
pub uninterp spec fn holds_singles(t: Tensor) -> bool;

/// Whether a tensor has something along its first dimension, if it has dimensions at all.
pub open spec fn has_parts(t: Tensor) -> bool {
    shape(t).len() > 0 ==> shape(t)[0] > 0
}

/// Whether no dimension of a tensor has size 0.
pub open spec fn nonempty(t: Tensor) -> bool {
    forall|i: int| 0 <= i < shape(t).len() ==> #[trigger] shape(t)[i] > 0
}

/// How many entries a tensor with the given sizes has.
pub open spec fn volume(sizes: Seq<nat>) -> nat
    decreases sizes.len(),
{
    if sizes.len() == 0 {
        1
    } else {
        sizes[0] * volume(sizes.drop_first())
    }
}

/// The sizes that remain of `sizes` without a first dimension of size 1.
pub open spec fn squeezed_sizes(sizes: Seq<nat>) -> Seq<nat> {
    if sizes.len() > 0 && sizes[0] == 1 {
        sizes.drop_first()
    } else {
        sizes
    }
}

/// Whether `r` is `t` without its first dimension, if that has size 1, and `t` otherwise.
pub open spec fn squeezed(t: Tensor, r: Tensor) -> bool {
    &&& shape(t).len() > 0
    &&& shape(r) == squeezed_sizes(shape(t))
    &&& entries(r) == entries(t)
    &&& holds_singles(r) == holds_singles(t)
}

/// Whether `r` is the part of `t` at position `i` of the first dimension.
pub open spec fn part_of(t: Tensor, i: nat, r: Tensor) -> bool {
    let step = volume(shape(t).drop_first());
    &&& shape(t).len() > 0
    &&& i < shape(t)[0]
    &&& shape(r) == shape(t).drop_first()
    &&& entries(r) == entries(t).subrange((i * step) as int, ((i + 1) * step) as int)
    &&& holds_singles(r) == holds_singles(t)
}

/// What `Tensor::argmax` over the only dimension of a tensor gives.
pub uninterp spec fn argmax_of(t: Tensor) -> u32;

/// Whether entry `i` of a vector of scores may be chosen: no entry is above it. As a position
/// has 32 bits, this says nothing of vectors with more entries than there are positions.
pub open spec fn best(t: Tensor, i: u32) -> bool {
    &&& i == argmax_of(t)
    &&& shape(t).len() == 1
    &&& i < shape(t)[0]
    &&& holds_singles(t) && shape(t)[0] <= 0x1_0000_0000 ==> forall|j: int|
        0 <= j < entries(t).len() ==> !(Single { bits: #[trigger] entries(t)[j] }).above(
            Single { bits: entries(t)[i as int] },
        )
}

/// Whether `r` is something that `candle_nn::ops::log_softmax` over the first dimension may
/// return for `t`.
pub uninterp spec fn log_softmax_of(t: Tensor, r: Tensor) -> bool;

/// Whether a tensor consists of one row that holds the given numbers.
pub open spec fn is_row(t: Tensor, ids: Seq<u32>) -> bool {
    shape(t) == seq![1nat, ids.len()] && entries(t) == ids && !holds_singles(t)
}

/// Whether a device can hold a row of the given numbers.
pub uninterp spec fn holds_row(device: Device, ids: Seq<u32>) -> bool;

/// `Tensor::new` and `Tensor::unsqueeze`: a tensor with one row that holds the given numbers.
/// Whether the device can hold it is named [`holds_row`].
#[verifier::external_body]
pub(crate) fn id_row(ids: &[u32], device: &Device) -> (r: Result<Tensor, candle_core::Error>)
    ensures
        r is Ok <==> holds_row(*device, ids@),
        r matches Ok(t) ==> is_row(t, ids@),
{
    Tensor::new(ids, device)?.unsqueeze(0)
}

/// `Tensor::dim`: the size of dimension `i`; it fails exactly if there is no such dimension.
#[verifier::external_body]
pub(crate) fn dim(t: &Tensor, i: usize) -> (r: Result<usize, candle_core::Error>)
    ensures
        match r {
            Ok(n) => i < shape(*t).len() && n == shape(*t)[i as int],
            Err(_) => i >= shape(*t).len(),
        },
{
    t.dim(i)
}

/// `Tensor::squeeze` of the first dimension: leaves it out if it has size 1. It fails exactly if
/// there is no dimension.
#[verifier::external_body]
pub(crate) fn squeeze(t: &Tensor) -> (r: Result<Tensor, candle_core::Error>)
    ensures
        match r {
            Ok(s) => squeezed(*t, s),
            Err(_) => shape(*t).len() == 0,
        },
{
    t.squeeze(0)
}

/// `IndexOp::i`: the part of a tensor at a position of its first dimension. It fails exactly if
/// there is no such position.
#[verifier::external_body]
pub(crate) fn part(t: &Tensor, i: usize) -> (r: Result<Tensor, candle_core::Error>)
    ensures
        match r {
            Ok(s) => part_of(*t, i as nat, s),
            Err(_) => shape(*t).len() == 0 || i >= shape(*t)[0],
        },
{
    t.i(i)
}

/// `Tensor::get`: the part of a tensor at a position of its first dimension. It fails exactly if
/// there is no such position.
#[verifier::external_body]
pub(crate) fn get(t: &Tensor, i: usize) -> (r: Result<Tensor, candle_core::Error>)
    requires
        shape(*t).len() > 0,
        holds_singles(*t),
    ensures
        match r {
            Ok(s) => part_of(*t, i as nat, s),
            Err(_) => i >= shape(*t)[0],
        },
{
    t.get(i)
}

/// `Tensor::dtype`: whether the entries of a tensor are single-precision numbers.
#[verifier::external_body]
pub(crate) fn has_singles(t: &Tensor) -> (b: bool)
    ensures
        b == holds_singles(*t),
{
    t.dtype() == DType::F32
}

/// `Tensor::argmax` and `Tensor::to_scalar`: the position of an entry that none is above. It
/// fails exactly on what is no vector; a vector without entries makes it panic. The entries are
/// laid out anew before, with `Tensor::force_contiguous`, as a vector whose entries all lie at
/// one place makes it panic too.
#[verifier::external_body]
pub(crate) fn argmax(t: &Tensor) -> (r: Result<u32, candle_core::Error>)
    requires
        has_parts(*t),
        holds_singles(*t),
    ensures
        match r {
            Ok(i) => i == argmax_of(*t) && best(*t, i),
            Err(_) => shape(*t).len() != 1,
        },
{
    t.force_contiguous()?.argmax(0)?.to_scalar::<u32>()
}

/// `candle_nn::ops::log_softmax`: a tensor of the same shape, which [`log_softmax_of`] relates
/// to the given one. It fails exactly if there is no dimension. It panics on a dimension
/// without entries and on numbers that are no floating-point ones. The entries are laid out
/// anew before, with `Tensor::force_contiguous`, as a vector whose entries all lie at one place
/// makes it panic too.
#[verifier::external_body]
pub(crate) fn log_softmax(t: &Tensor) -> (r: Result<Tensor, candle_core::Error>)
    requires
        nonempty(*t),
        holds_singles(*t),
    ensures
        match r {
            Ok(s) => {
                &&& log_softmax_of(*t, s)
                &&& shape(s) == shape(*t)
                &&& holds_singles(s)
            },
            Err(_) => shape(*t).len() == 0,
        },
{
    candle_nn::ops::log_softmax(&t.force_contiguous()?, 0)
}

/// Whether a tensor is a vector of single-precision numbers, and has entries.
pub open spec fn scored(t: Tensor) -> bool {
    holds_singles(t) && shape(t).len() == 1 && shape(t)[0] > 0
}

/// The position of a score that none is above.
///
/// This succeeds exactly on a vector of single-precision numbers that has entries.
pub fn choose_best(scores: &Tensor) -> (r: Result<u32, EngineError>)
    ensures
        match r {
            Ok(i) => scored(*scores) && best(*scores, i),
            Err(EngineError::NoSingles) => !holds_singles(*scores),
            Err(EngineError::NoScores) => holds_singles(*scores) && !has_parts(*scores),
            Err(e) => e is Tensor && holds_singles(*scores) && has_parts(*scores) && shape(
                *scores,
            ).len() != 1,
        },
{
    if !has_singles(scores) {
        return Err(EngineError::NoSingles);
    }
    if let Ok(0) = dim(scores, 0) {
        return Err(EngineError::NoScores);
    }
    match argmax(scores) {
        Ok(i) => Ok(i),
        Err(e) => Err(EngineError::Tensor(e)),
    }
}

/// Whether scores for several positions hold a vector of scores for the last one: they form a
/// matrix, possibly as the only part of a tensor, and have entries.
pub open spec fn rates_last(logits: Tensor) -> bool {
    let sizes = squeezed_sizes(shape(logits));
    &&& holds_singles(logits)
    &&& shape(logits).len() > 0
    &&& sizes.len() == 2
    &&& sizes[0] > 0
    &&& sizes[1] > 0
}

/// Whether the scores for the last position are there, but none of them.
pub open spec fn rates_none_last(logits: Tensor) -> bool {
    let sizes = squeezed_sizes(shape(logits));
    holds_singles(logits) && sizes.len() >= 2 && sizes[0] > 0 && sizes[1] == 0
}

/// Whether `row` are the scores for the last position.
pub open spec fn last_row(logits: Tensor, row: Tensor) -> bool {
    exists|matrix: Tensor| #[trigger]
        squeezed(logits, matrix) && part_of(matrix, (shape(matrix)[0] - 1) as nat, row)
}

/// Whether `reply` is a token with the highest score for the last position, and `scores` are the
/// log-probabilities of all tokens there.
pub open spec fn chosen_last(logits: Tensor, reply: u32, scores: Tensor) -> bool {
    exists|row: Tensor| #[trigger]
        last_row(logits, row) && best(row, reply) && log_softmax_of(row, scores) && shape(scores)
            == shape(row)
}

/// The token that is to follow, given the scores of all tokens for several positions, and the
/// log-probabilities of all tokens for the last position.
///
/// This succeeds exactly if there are scores for a last position.
pub fn choose_last(logits: &Tensor) -> (r: Result<(u32, Tensor), EngineError>)
    ensures
        r is Ok <==> rates_last(*logits),
        match r {
            Ok((reply, scores)) => {
                &&& chosen_last(*logits, reply, scores)
                &&& shape(scores) == seq![squeezed_sizes(shape(*logits))[1]]
                &&& reply < shape(scores)[0]
                &&& holds_singles(scores)
            },
            Err(EngineError::NoSingles) => !holds_singles(*logits),
            Err(EngineError::NoScores) => rates_none_last(*logits),
            Err(e) => e is Tensor && holds_singles(*logits) && !rates_none_last(*logits),
        },
{
    if !has_singles(logits) {
        return Err(EngineError::NoSingles);
    }
    let matrix = match squeeze(logits) {
        Ok(t) => t,
        Err(e) => return Err(EngineError::Tensor(e)),
    };
    let rows: usize = match dim(&matrix, 0) {
        Ok(n) => n,
        Err(e) => return Err(EngineError::Tensor(e)),
    };
    let last_idx: usize = if rows > 0 {
        rows - 1
    } else {
        0
    };
    let row = match part(&matrix, last_idx) {
        Ok(t) => t,
        Err(e) => return Err(EngineError::Tensor(e)),
    };
    let selected: u32 = match choose_best(&row) {
        Ok(i) => i,
        Err(e) => return Err(e),
    };
    let scores = match log_softmax(&row) {
        Ok(t) => t,
        Err(e) => return Err(EngineError::Tensor(e)),
    };
    assert(last_row(*logits, row));
    assert(chosen_last(*logits, selected, scores));
    assert(shape(scores) =~= seq![squeezed_sizes(shape(*logits))[1]]);
    Ok((selected, scores))
}

/// Whether scores hold a vector of scores for the only position: they form a vector that has
/// entries, within one or two dimensions of size 1.
pub open spec fn rates_only(logits: Tensor) -> bool {
    let sizes = squeezed_sizes(squeezed_sizes(shape(logits)));
    &&& holds_singles(logits)
    &&& shape(logits).len() > 0
    &&& squeezed_sizes(shape(logits)).len() > 0
    &&& sizes.len() == 1
    &&& sizes[0] > 0
}

/// Whether the scores for the only position are there, but none of them.
pub open spec fn rates_none_only(logits: Tensor) -> bool {
    let sizes = squeezed_sizes(squeezed_sizes(shape(logits)));
    holds_singles(logits) && sizes.len() > 0 && sizes[0] == 0
}

/// Whether `reply` is a token with the highest score for the only position.
pub open spec fn chosen_only(logits: Tensor, reply: u32) -> bool {
    exists|matrix: Tensor, scores: Tensor| #[trigger]
        squeezed(logits, matrix) && #[trigger] squeezed(matrix, scores) && best(scores, reply)
}

/// The token that is to follow, given the scores of all tokens for one position.
///
/// This succeeds exactly if there are scores for such a position.
pub fn choose_only(logits: &Tensor) -> (r: Result<u32, EngineError>)
    ensures
        r is Ok <==> rates_only(*logits),
        match r {
            Ok(reply) => chosen_only(*logits, reply),
            Err(EngineError::NoSingles) => !holds_singles(*logits),
            Err(EngineError::NoScores) => rates_none_only(*logits),
            Err(e) => e is Tensor && holds_singles(*logits) && !rates_none_only(*logits),
        },
{
    if !has_singles(logits) {
        return Err(EngineError::NoSingles);
    }
    let matrix = match squeeze(logits) {
        Ok(t) => t,
        Err(e) => return Err(EngineError::Tensor(e)),
    };
    let scores = match squeeze(&matrix) {
        Ok(t) => t,
        Err(e) => return Err(EngineError::Tensor(e)),
    };
    choose_best(&scores)
}

/// The numbers of attention heads of the encoder and of the decoder of a network, and its
/// width.
pub uninterp spec fn whisper_sizes(model: Whisper) -> (usize, usize, usize);

/// Whether the weights of a network are single-precision numbers.
pub uninterp spec fn whisper_in_singles(model: Whisper) -> bool;

/// The numbers of layers of the encoder and of the decoder of a network.
pub uninterp spec fn whisper_layers(model: Whisper) -> (usize, usize);

/// Whether a network can be run: not without width, and not with layers that have no heads. Its
/// weights are single-precision numbers.
pub open spec fn whisper_runs(model: Whisper) -> bool {
    let (encoder_heads, decoder_heads, width) = whisper_sizes(model);
    let (encoder_layers, decoder_layers) = whisper_layers(model);
    &&& encoder_layers > 0 ==> encoder_heads > 0
    &&& decoder_layers > 0 ==> decoder_heads > 0
    &&& width > 0
    &&& whisper_in_singles(model)
}

/// Whether the encoder may turn a spectrogram into these features.
pub uninterp spec fn encodes(before: Whisper, mel: Tensor, after: Whisper, features: Tensor) -> bool;

/// Whether the decoder may turn tokens and audio features into this hidden state.
pub uninterp spec fn decodes(
    before: Whisper,
    ids: Seq<u32>,
    features: Tensor,
    flush: bool,
    after: Whisper,
    hidden: Tensor,
) -> bool;

/// Whether the encoder takes a spectrogram.
pub uninterp spec fn encoder_takes(model: Whisper, mel: Tensor) -> bool;

/// Whether the decoder takes a row of tokens and audio features.
pub uninterp spec fn decoder_takes(model: Whisper, row: Tensor, features: Tensor, flush: bool) -> bool;

/// Whether a hidden state can be given scores.
pub uninterp spec fn projectable(model: Whisper, hidden: Tensor) -> bool;

/// Whether a hidden state may have these scores.
pub uninterp spec fn projects(model: Whisper, hidden: Tensor, logits: Tensor) -> bool;

/// What `Whisper::reset_kv_cache` makes of a network.
pub uninterp spec fn whisper_without_cache(model: Whisper) -> Whisper;

/// Whether a network may be loaded like this.
pub uninterp spec fn whisper_loads(
    config: whisper::Config,
    weights: Seq<u8>,
    device: Device,
    model: Whisper,
) -> bool;

/// Whether a network can be loaded like this: all weights that the configuration asks for are
/// there, in the sizes that it asks for.
pub uninterp spec fn whisper_fits(config: whisper::Config, weights: Seq<u8>, device: Device) -> bool;

/// Whether a configuration describes a network that can be run.
pub open spec fn whisper_usable(config: whisper::Config) -> bool {
    let (encoder_heads, decoder_heads, width) = whisper_config_sizes(config);
    let (encoder_layers, decoder_layers) = whisper_config_layers(config);
    &&& encoder_layers > 0 ==> encoder_heads > 0
    &&& decoder_layers > 0 ==> decoder_heads > 0
    &&& width > 1
}

/// `VarBuilder::from_slice_safetensors` and `Whisper::load`: a network with weights in the
/// safetensors format, which [`whisper_loads`] relates to them. Whether there is one is named
/// [`whisper_fits`]. The network keeps its configuration, and its weights are turned into
/// single-precision numbers.
#[verifier::external_body]
pub(crate) fn load_whisper(config: whisper::Config, weights: &[u8], device: &Device) -> (r: Result<
    Whisper,
    candle_core::Error,
>)
    requires
        whisper_usable(config),
    ensures
        r is Ok <==> whisper_fits(config, weights@, *device),
        r matches Ok(model) ==> {
            &&& whisper_loads(config, weights@, *device, model)
            &&& whisper_sizes(model) == whisper_config_sizes(config)
            &&& whisper_layers(model) == whisper_config_layers(config)
            &&& whisper_in_singles(model)
        },
{
    let vb = VarBuilder::from_slice_safetensors(weights, whisper::DTYPE, device)?;
    Whisper::load(&vb, config)
}

/// Whether a tensor can be handed to the encoder: it is no spectrogram at all, which the
/// encoder refuses, or one that has entries.
pub open spec fn encodable(mel: Tensor) -> bool {
    shape(mel).len() == 3 ==> nonempty(mel)
}

/// `AudioEncoder::forward` with its cache flushed: the features of a spectrogram, which
/// [`encodes`] relates to it. Whether the encoder takes it is named [`encoder_takes`]. Of the
/// shape of the features only that there are any is claimed.
#[verifier::external_body]
pub(crate) fn whisper_encode(model: &mut Whisper, mel: &Tensor) -> (r: Result<
    Tensor,
    candle_core::Error,
>)
    requires
        whisper_runs(*old(model)),
        encodable(*mel),
    ensures
        whisper_sizes(*final(model)) == whisper_sizes(*old(model)),
        whisper_layers(*final(model)) == whisper_layers(*old(model)),
        whisper_in_singles(*final(model)) == whisper_in_singles(*old(model)),
        r is Ok <==> encoder_takes(*old(model), *mel),
        r matches Ok(features) ==> encodes(*old(model), *mel, *final(model), features) && nonempty(
            features,
        ),
{
    model.encoder.forward(mel, true)
}

/// `TextDecoder::forward`: the hidden state after the given row of tokens, which [`decodes`]
/// relates to them. Whether the decoder takes them is named [`decoder_takes`]. The state is made
/// of single-precision numbers, as the weights are; features of another kind are refused.
#[verifier::external_body]
pub(crate) fn whisper_decode(
    model: &mut Whisper,
    ids: &Tensor,
    features: &Tensor,
    flush: bool,
) -> (r: Result<Tensor, candle_core::Error>)
    requires
        whisper_runs(*old(model)),
        nonempty(*ids),
        nonempty(*features),
    ensures
        whisper_sizes(*final(model)) == whisper_sizes(*old(model)),
        whisper_layers(*final(model)) == whisper_layers(*old(model)),
        whisper_in_singles(*final(model)) == whisper_in_singles(*old(model)),
        r is Ok <==> decoder_takes(*old(model), *ids, *features, flush),
        r matches Ok(hidden) ==> decodes(
            *old(model),
            entries(*ids),
            *features,
            flush,
            *final(model),
            hidden,
        ) && holds_singles(hidden),
{
    model.decoder.forward(ids, features, flush)
}

/// `TextDecoder::final_linear`: the scores of all tokens, which [`projects`] relates to the
/// hidden state. Whether there are any is named [`projectable`]. They are a product of the
/// hidden state with weights, and so numbers of the same kind as the state.
#[verifier::external_body]
pub(crate) fn whisper_project(model: &Whisper, hidden: &Tensor) -> (r: Result<
    Tensor,
    candle_core::Error,
>)
    requires
        holds_singles(*hidden),
    ensures
        r is Ok <==> projectable(*model, *hidden),
        r matches Ok(logits) ==> projects(*model, *hidden, logits) && holds_singles(logits),
{
    model.decoder.final_linear(hidden)
}

/// `Whisper::reset_kv_cache`.
#[verifier::external_body]
pub(crate) fn whisper_reset(model: &mut Whisper)
    ensures
        *final(model) == whisper_without_cache(*old(model)),
        whisper_sizes(*final(model)) == whisper_sizes(*old(model)),
        whisper_layers(*final(model)) == whisper_layers(*old(model)),
        whisper_in_singles(*final(model)) == whisper_in_singles(*old(model)),
{
    model.reset_kv_cache()
}

/// `whisper::SOT_TOKEN`.
#[verifier::external_body]
pub(crate) fn sot_token() -> (r: &'static str)
    ensures
        r@ == "<|startoftranscript|>"@,
{
    whisper::SOT_TOKEN
}

/// `whisper::TRANSCRIBE_TOKEN`.
#[verifier::external_body]
pub(crate) fn transcribe_token() -> (r: &'static str)
    ensures
        r@ == "<|transcribe|>"@,
{
    whisper::TRANSCRIBE_TOKEN
}

/// `whisper::NO_TIMESTAMPS_TOKEN`.
#[verifier::external_body]
pub(crate) fn no_timestamps_token() -> (r: &'static str)
    ensures
        r@ == "<|notimestamps|>"@,
{
    whisper::NO_TIMESTAMPS_TOKEN
}

/// `whisper::EOT_TOKEN`.
#[verifier::external_body]
pub(crate) fn eot_token() -> (r: &'static str)
    ensures
        r@ == "<|endoftext|>"@,
{
    whisper::EOT_TOKEN
}

/// Whether a network can be run: it has a width, its layers have attention heads and can be
/// gated if that is asked for, and its weights are single-precision numbers.
pub uninterp spec fn marian_runs(model: MTModel) -> bool;

/// Whether a network may be loaded like this.
pub uninterp spec fn marian_loads(
    config: marian::Config,
    weights: Seq<u8>,
    device: Device,
    model: MTModel,
) -> bool;

/// Whether a network can be loaded like this: all weights that the configuration asks for are
/// there, in the sizes that it asks for.
pub uninterp spec fn marian_fits(config: marian::Config, weights: Seq<u8>, device: Device) -> bool;

/// No layer of a network takes more memory than this, in bytes, besides its weights.
pub const LAYER_BYTES: usize = 4096;

/// Whether a configuration describes a network that can be run.
pub open spec fn marian_usable(config: marian::Config) -> bool {
    let (heads, width, encoder_layers, decoder_layers) = config_sizes(config);
    let (encoder_inner, decoder_inner, gated) = config_inner(config);
    &&& encoder_layers > 0 && gated ==> encoder_inner > 1
    &&& decoder_layers > 0 && gated ==> decoder_inner > 1
    &&& encoder_layers > 0 || decoder_layers > 0 ==> heads > 0
    &&& width > 0
    &&& encoder_layers <= isize::MAX as usize / LAYER_BYTES
    &&& decoder_layers <= isize::MAX as usize / LAYER_BYTES
}

/// `VarBuilder::from_slice_safetensors` and `MTModel::new`: a network with weights in the
/// safetensors format, which [`marian_loads`] relates to them. Whether there is one is named
/// [`marian_fits`]. Room for all layers is reserved at once, which panics where it exceeds the
/// address space. A gated inner layer is halved, and running it panics where it has no halves.
#[verifier::external_body]
pub(crate) fn load_marian(config: &marian::Config, weights: &[u8], device: &Device) -> (r: Result<
    MTModel,
    candle_core::Error,
>)
    requires
        marian_usable(*config),
    ensures
        r is Ok <==> marian_fits(*config, weights@, *device),
        r matches Ok(model) ==> marian_loads(*config, weights@, *device, model) && marian_runs(
            model,
        ),
{
    let vb = VarBuilder::from_slice_safetensors(weights, DType::F32, device)?;
    MTModel::new(config, vb)
}

/// Whether the encoder may turn a text of the given tokens into this tensor.
pub uninterp spec fn marian_encodes(
    before: MTModel,
    ids: Seq<u32>,
    past: nat,
    after: MTModel,
    encoded: Tensor,
) -> bool;

/// Whether the decoder, after `past` tokens, may give these scores to what follows `ids`.
pub uninterp spec fn marian_decodes(
    before: MTModel,
    ids: Seq<u32>,
    encoded: Tensor,
    past: nat,
    after: MTModel,
    logits: Tensor,
) -> bool;

/// Whether the encoder takes a row of tokens.
pub uninterp spec fn marian_encoder_takes(model: MTModel, row: Tensor, past: nat) -> bool;

/// Whether the decoder, after `past` tokens, takes a row of tokens.
pub uninterp spec fn marian_decoder_takes(
    model: MTModel,
    row: Tensor,
    encoded: Tensor,
    past: nat,
) -> bool;

/// What `MTModel::reset_kv_cache` makes of a network.
pub uninterp spec fn marian_without_cache(model: MTModel) -> MTModel;

/// `Encoder::forward` of `MTModel::encoder`: what the encoder makes of a row of tokens, which
/// [`marian_encodes`] relates to them. Whether the encoder takes them is named
/// [`marian_encoder_takes`]. Of the shape of the result only that it is not empty is claimed.
#[verifier::external_body]
pub(crate) fn marian_encode(model: &mut MTModel, ids: &Tensor, past: usize) -> (r: Result<
    Tensor,
    candle_core::Error,
>)
    requires
        marian_runs(*old(model)),
        nonempty(*ids),
        past <= 0xffff,
    ensures
        marian_runs(*final(model)),
        r is Ok <==> marian_encoder_takes(*old(model), *ids, past as nat),
        r matches Ok(encoded) ==> marian_encodes(
            *old(model),
            entries(*ids),
            past as nat,
            *final(model),
            encoded,
        ) && nonempty(encoded),
{
    model.encoder().forward(ids, past)
}

/// `MTModel::decode`: the scores of all tokens after a row of tokens, which
/// [`marian_decodes`] relates to it. Whether the decoder takes it is named
/// [`marian_decoder_takes`]. They are single-precision numbers, as the weights are.
#[verifier::external_body]
pub(crate) fn marian_decode(model: &mut MTModel, ids: &Tensor, encoded: &Tensor, past: usize) -> (r:
    Result<Tensor, candle_core::Error>)
    requires
        marian_runs(*old(model)),
        nonempty(*ids),
        nonempty(*encoded),
        past <= 0xffff,
    ensures
        marian_runs(*final(model)),
        r is Ok <==> marian_decoder_takes(*old(model), *ids, *encoded, past as nat),
        r matches Ok(logits) ==> marian_decodes(
            *old(model),
            entries(*ids),
            *encoded,
            past as nat,
            *final(model),
            logits,
        ) && holds_singles(logits),
{
    model.decode(ids, encoded, past)
}

/// `MTModel::reset_kv_cache`.
#[verifier::external_body]
pub(crate) fn marian_reset(model: &mut MTModel)
    ensures
        *final(model) == marian_without_cache(*old(model)),
        marian_runs(*final(model)) == marian_runs(*old(model)),
{
    model.reset_kv_cache()
}

/// Of scores for `n` positions only those for the last one decide: the choice is a token that
/// none is above there, whatever the scores for the positions before it are.
pub proof fn the_last_position_decides(
    logits: Tensor,
    n: nat,
    v: nat,
    reply: u32,
    scores: Tensor,
)
    requires
        shape(logits) == seq![1nat, n, v] || shape(logits) == seq![n, v] && n != 1,
        holds_singles(logits),
        v <= 0x1_0000_0000,
        chosen_last(logits, reply, scores),
        entries(logits).len() == n * v,
    ensures
        n > 0,
        reply < v,
        shape(scores) == seq![v],
        forall|j: int|
            0 <= j < v ==> !(Single { bits: #[trigger] entries(logits)[(n - 1) * v + j] }).above(
                Single { bits: entries(logits)[(n - 1) * v + reply] },
            ),
        exists|row: Tensor| #[trigger]
            log_softmax_of(row, scores) && shape(row) == seq![v] && entries(row) == entries(
                logits,
            ).subrange((n - 1) * v, n * v as int),
{
    let row = choose|row: Tensor| #[trigger]
        last_row(logits, row) && best(row, reply) && log_softmax_of(row, scores) && shape(scores)
            == shape(row);
    let matrix = choose|matrix: Tensor| #[trigger]
        squeezed(logits, matrix) && part_of(matrix, (shape(matrix)[0] - 1) as nat, row);
    assert(shape(matrix) =~= seq![n, v]);
    let sizes = shape(matrix).drop_first();
    assert(sizes =~= seq![v]);
    assert(sizes.drop_first() =~= Seq::<nat>::empty());
    assert(volume(sizes.drop_first()) == 1);
    assert(volume(sizes) == v) by (nonlinear_arith)
        requires
            volume(sizes) == sizes[0] * volume(sizes.drop_first()),
            sizes[0] == v,
            volume(sizes.drop_first()) == 1,
    ;
    let start = (n - 1) * v;
    assert(start >= 0 && start + v == n * v) by (nonlinear_arith)
        requires
            n > 0,
            start == (n - 1) * v,
    ;
    assert(entries(row) == entries(logits).subrange(start, start + v));
    assert forall|j: int| 0 <= j < v implies !(Single {
        bits: #[trigger] entries(logits)[(n - 1) * v + j],
    }).above(Single { bits: entries(logits)[(n - 1) * v + reply] }) by {
        assert(entries(row)[j] == entries(logits)[start + j]);
        assert(entries(row)[reply as int] == entries(logits)[start + reply]);
    }
}

/// Of scores for a single position the choice is a token that none is above.
pub proof fn the_highest_score_decides(logits: Tensor, v: nat, reply: u32)
    requires
        shape(logits) == seq![1nat, 1nat, v] || shape(logits) == seq![1nat, v] && v != 1,
        holds_singles(logits),
        v <= 0x1_0000_0000,
        chosen_only(logits, reply),
    ensures
        reply < v,
        forall|j: int|
            0 <= j < entries(logits).len() ==> !(Single {
                bits: #[trigger] entries(logits)[j],
            }).above(Single { bits: entries(logits)[reply as int] }),
{
    let (matrix, scores) = choose|matrix: Tensor, scores: Tensor| #[trigger]
        squeezed(logits, matrix) && #[trigger] squeezed(matrix, scores) && best(scores, reply);
    if shape(logits) == seq![1nat, 1nat, v] {
        assert(shape(matrix) =~= seq![1nat, v]);
    } else {
        assert(shape(matrix) =~= seq![v]);
    }
    assert(shape(scores) =~= seq![v]);
}

/// There is something to choose from exactly if there are single-precision scores for at least
/// one position and one token. Where there are positions but no token has a score, that is told
/// apart from scores of the wrong shape.
pub proof fn scores_are_there_or_not(logits: Tensor, n: nat, v: nat)
    ensures
        shape(logits) == seq![1nat, n, v] || shape(logits) == seq![n, v] && n != 1 ==> {
            &&& rates_last(logits) <==> holds_singles(logits) && n > 0 && v > 0
            &&& rates_none_last(logits) <==> holds_singles(logits) && n > 0 && v == 0
        },
        shape(logits) == seq![1nat, 1nat, v] || shape(logits) == seq![1nat, v] && v != 1 ==> {
            &&& rates_only(logits) <==> holds_singles(logits) && v > 0
            &&& rates_none_only(logits) <==> holds_singles(logits) && v == 0
        },
        shape(logits).len() == 0 || shape(logits).len() > 3 ==> !rates_last(logits) && !rates_only(
            logits,
        ),
        !(rates_last(logits) && rates_none_last(logits)),
        !(rates_only(logits) && rates_none_only(logits)),
{
    if shape(logits) == seq![1nat, n, v] {
        assert(squeezed_sizes(shape(logits)) =~= seq![n, v]);
    }
    if shape(logits) == seq![1nat, 1nat, v] {
        assert(squeezed_sizes(shape(logits)) =~= seq![1nat, v]);
        assert(squeezed_sizes(seq![1nat, v]) =~= seq![v]);
    }
    if shape(logits) == seq![1nat, v] {
        assert(squeezed_sizes(shape(logits)) =~= seq![v]);
    }
}

/// The first dimension is left out exactly if its size is 1; nothing else is.
pub proof fn only_a_single_part_is_unwrapped(n: nat, rest: Seq<nat>)
    ensures
        squeezed_sizes(seq![1nat] + rest) == rest,
        n != 1 ==> squeezed_sizes(seq![n] + rest) == seq![n] + rest,
        squeezed_sizes(Seq::<nat>::empty()) == Seq::<nat>::empty(),
{
    assert((seq![1nat] + rest).drop_first() =~= rest);
}

/// A tensor has as many entries as its sizes multiplied.
pub proof fn volumes_are_products(n: nat, rest: Seq<nat>)
    ensures
        volume(Seq::<nat>::empty()) == 1,
        volume(seq![n]) == n,
        volume(seq![n] + rest) == n * volume(rest),
{
    assert((seq![n] + rest).drop_first() =~= rest);
    let one: Seq<nat> = seq![n];
    assert(one.drop_first() =~= Seq::<nat>::empty());
    assert(volume(one.drop_first()) == 1);
    assert(volume(one) == n) by (nonlinear_arith)
        requires
            volume(one) == n * volume(one.drop_first()),
            volume(one.drop_first()) == 1,
    ;
}

/// A spectrogram is refused beforehand exactly if it has no entries: tensors without three
/// dimensions are for the encoder to refuse.
pub proof fn only_empty_spectrograms_are_refused(mel: Tensor, a: nat, b: nat, c: nat)
    ensures
        shape(mel) == seq![a, b, c] ==> (encodable(mel) <==> a > 0 && b > 0 && c > 0),
        shape(mel).len() != 3 ==> encodable(mel),
{
    if shape(mel) == seq![a, b, c] {
        assert(shape(mel)[0] == a && shape(mel)[1] == b && shape(mel)[2] == c);
    }
}

/// A recognition network can be run exactly if it is more than one wide and whichever of its
/// encoder and decoder has layers has attention heads too; a translation network if it has a
/// width, heads for its layers, halves for inner layers that are gated, and no more layers than
/// fit into memory.
pub proof fn networks_need_width_and_heads(w: whisper::Config, m: marian::Config)
    ensures
        ({
            let (encoder_heads, decoder_heads, width) = whisper_config_sizes(w);
            let (encoder_layers, decoder_layers) = whisper_config_layers(w);
            whisper_usable(w) <==> width >= 2 && (encoder_layers == 0 || encoder_heads != 0) && (
            decoder_layers == 0 || decoder_heads != 0)
        }),
        ({
            let (heads, width, encoder_layers, decoder_layers) = config_sizes(m);
            let (encoder_inner, decoder_inner, gated) = config_inner(m);
            marian_usable(m) <==> {
                &&& width != 0
                &&& heads != 0 || encoder_layers == 0 && decoder_layers == 0
                &&& !gated || (encoder_layers == 0 || encoder_inner >= 2) && (decoder_layers == 0
                    || decoder_inner >= 2)
                &&& encoder_layers <= isize::MAX as usize / 4096
                &&& decoder_layers <= isize::MAX as usize / 4096
            }
        }),
{
}

} // verus!
