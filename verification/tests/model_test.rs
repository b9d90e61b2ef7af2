use candle_core::{DType, Device, Tensor};
use live_translator::asr::{is_silent, recognition_window, AsrRecognizer};
use live_translator::config::{
    complete, mel_filter_values, parse_config, parse_whisper_config,
};
use live_translator::engine::{choose_best, choose_last, choose_only, EngineError};
use live_translator::single::Single;
use live_translator::translator::TranslatorEngine;
use live_translator::vocab::{LoadError, Vocab};

/// A tensor of zeros, but for some entries.
struct Weight {
    name: String,
    shape: Vec<usize>,
    entries: Vec<(usize, f32)>,
}

fn weight(name: &str, shape: &[usize]) -> Weight {
    Weight { name: name.to_string(), shape: shape.to_vec(), entries: vec![] }
}

/// The weights in the safetensors format: the length of a JSON header, the header, the data.
fn safetensors(weights: &[Weight]) -> Vec<u8> {
    let mut fields: Vec<String> = vec![];
    let mut data: Vec<u8> = vec![];
    for w in weights {
        let begin = data.len();
        let mut values = vec![0.0f32; w.shape.iter().product()];
        for (i, x) in &w.entries {
            values[*i] = *x;
        }
        for x in values {
            data.extend_from_slice(&x.to_le_bytes());
        }
        fields.push(format!(
            "\"{}\":{{\"dtype\":\"F32\",\"shape\":{:?},\"data_offsets\":[{},{}]}}",
            w.name,
            w.shape,
            begin,
            data.len()
        ));
    }
    let mut header = format!("{{{}}}", fields.join(","));
    while header.len() % 8 != 0 {
        header.push(' ');
    }
    let mut bytes = (header.len() as u64).to_le_bytes().to_vec();
    bytes.extend_from_slice(header.as_bytes());
    bytes.extend_from_slice(&data);
    bytes
}

fn set(weights: &mut Vec<Weight>, name: &str, entries: &[(usize, f32)]) {
    let w = weights.iter_mut().find(|w| w.name == name).unwrap();
    w.entries = entries.to_vec();
}

const WIDTH: usize = 4;

fn attention(weights: &mut Vec<Weight>, prefix: &str, key_bias: bool) {
    for p in ["q_proj", "k_proj", "v_proj", "out_proj"] {
        weights.push(weight(&format!("{}.{}.weight", prefix, p), &[WIDTH, WIDTH]));
        if key_bias || p != "k_proj" {
            weights.push(weight(&format!("{}.{}.bias", prefix, p), &[WIDTH]));
        }
    }
    norm(weights, &format!("{}_layer_norm", prefix));
}

fn norm(weights: &mut Vec<Weight>, prefix: &str) {
    weights.push(weight(&format!("{}.weight", prefix), &[WIDTH]));
    weights.push(weight(&format!("{}.bias", prefix), &[WIDTH]));
}

fn feed_forward(weights: &mut Vec<Weight>, prefix: &str, inner: usize) {
    weights.push(weight(&format!("{}.fc1.weight", prefix), &[inner, WIDTH]));
    weights.push(weight(&format!("{}.fc1.bias", prefix), &[inner]));
    weights.push(weight(&format!("{}.fc2.weight", prefix), &[WIDTH, inner]));
    weights.push(weight(&format!("{}.fc2.bias", prefix), &[WIDTH]));
    norm(weights, &format!("{}.final_layer_norm", prefix));
}

// A Whisper network with one layer each. Its attention and its inner layers compute zeros, so
// what follows a token depends only on the embeddings of the token and of its position.

const WORDS: usize = 50364;
const END: usize = 50257;
const NO_SPEECH: usize = 50362;
const NO_CAPTIONS: usize = 50361;
const HELLO: usize = 100;
const LAUGHS: usize = 101;
const WORLD: usize = 102;

fn whisper_config(heads: usize, width: usize) -> String {
    format!(
        "{{\"num_mel_bins\":2,\"max_source_positions\":8,\"d_model\":{},\
         \"encoder_attention_heads\":{},\"encoder_layers\":1,\"vocab_size\":{},\
         \"max_target_positions\":120,\"decoder_attention_heads\":{},\"decoder_layers\":1}}",
        width, heads, WORDS, heads
    )
}

fn whisper_vocab() -> Vocab {
    Vocab::parse(
        "{\"\u{120}hello\":100,\"(laughs)\":101,\"\u{120}wor\u{109}ld\u{10a}\":102,\
         \"<|startoftranscript|>\":50258,\"<|en|>\":50259,\"<|zh|>\":50260,\"<|ja|>\":50266,\
         \"<|ko|>\":50264,\"<|transcribe|>\":50359,\"<|notimestamps|>\":50363,\
         \"<|endoftext|>\":50257}",
    )
    .unwrap()
}

fn whisper_weights() -> Vec<Weight> {
    let mut w = vec![
        weight("model.encoder.conv1.weight", &[WIDTH, 2, 3]),
        weight("model.encoder.conv1.bias", &[WIDTH]),
        weight("model.encoder.conv2.weight", &[WIDTH, WIDTH, 3]),
        weight("model.encoder.conv2.bias", &[WIDTH]),
        weight("model.decoder.embed_tokens.weight", &[WORDS, WIDTH]),
        weight("model.decoder.embed_positions.weight", &[120, WIDTH]),
    ];
    attention(&mut w, "model.encoder.layers.0.self_attn", false);
    feed_forward(&mut w, "model.encoder.layers.0", 4 * WIDTH);
    norm(&mut w, "model.encoder.layer_norm");
    attention(&mut w, "model.decoder.layers.0.self_attn", false);
    attention(&mut w, "model.decoder.layers.0.encoder_attn", false);
    feed_forward(&mut w, "model.decoder.layers.0", 4 * WIDTH);
    norm(&mut w, "model.decoder.layer_norm");
    w
}

fn recognizer(weights: &[Weight], lang: &str) -> AsrRecognizer {
    let config = parse_whisper_config(&whisper_config(1, WIDTH)).unwrap();
    AsrRecognizer::new(config, whisper_vocab(), &safetensors(weights), Device::Cpu, lang).unwrap()
}

/// A recognizer whose network replies with the same token for ever.
fn always(token: usize) -> AsrRecognizer {
    let mut w = whisper_weights();
    set(&mut w, "model.decoder.layer_norm.bias", &[(0, 1.0)]);
    set(&mut w, "model.decoder.embed_tokens.weight", &[(token * WIDTH, 1.0)]);
    recognizer(&w, "en")
}

/// A recognizer whose network replies with the given tokens, one per position.
fn replying(tokens: &[usize; 3]) -> AsrRecognizer {
    let mut w = whisper_weights();
    set(&mut w, "model.decoder.layer_norm.weight", &[(0, 1.0), (1, 1.0), (2, 1.0), (3, 1.0)]);
    // Position 3 + k points along axis k, and the k-th token has its score there.
    let mut positions = vec![];
    let mut embeddings = vec![];
    for k in 0..3 {
        positions.push(((3 + k) * WIDTH + k, 100.0));
        embeddings.push((tokens[k] * WIDTH + k, 1.0));
    }
    set(&mut w, "model.decoder.embed_positions.weight", &positions);
    set(&mut w, "model.decoder.embed_tokens.weight", &embeddings);
    recognizer(&w, "en")
}

fn spectrogram() -> Tensor {
    Tensor::zeros((1, 2, 10), DType::F32, &Device::Cpu).unwrap()
}

#[test]
fn replies_are_spelled_until_the_end() {
    let mut asr = replying(&[HELLO, WORLD, END]);
    let (text, scores) = asr.recognize_spectrogram(&spectrogram()).unwrap();
    assert_eq!(text, "hello wor\tld");
    assert_eq!(scores.len(), 3);
    let features = asr.listen(&spectrogram()).unwrap();
    let (tokens, _) = asr.decode(&features).unwrap();
    assert_eq!(tokens, [50258, 50259, 50359, 50363, 100, 102, 50257]);
    assert_eq!(asr.plain_text(&tokens), "hello wor\tld");
}

#[test]
fn notes_are_cut_out_of_a_transcript() {
    let mut asr = replying(&[HELLO, LAUGHS, END]);
    assert_eq!(asr.recognize_spectrogram(&spectrogram()).unwrap().0, "hello");
    let features = asr.listen(&spectrogram()).unwrap();
    let (tokens, _) = asr.decode(&features).unwrap();
    assert_eq!(asr.plain_text(&tokens), "hello(laughs)");
}

#[test]
fn decoding_stops_after_a_hundred_tokens() {
    let mut asr = always(HELLO);
    let (text, scores) = asr.recognize_spectrogram(&spectrogram()).unwrap();
    assert_eq!(text, vec!["hello"; 100].join(" "));
    assert_eq!(scores.len(), 100);
    let expected = 1.0 - ((WORDS - 1) as f32 + 1.0f32.exp()).ln();
    for score in scores {
        let lp: f32 = score.to_scalar().unwrap();
        assert!((lp - expected).abs() < 1e-3, "{} {}", lp, expected);
    }
}

#[test]
fn the_end_may_come_at_once() {
    let (text, scores) = always(END).recognize_spectrogram(&spectrogram()).unwrap();
    assert_eq!(text, "");
    assert_eq!(scores.len(), 1);
}

#[test]
fn no_speech_leaves_neither_text_nor_scores() {
    for token in [NO_SPEECH, NO_CAPTIONS] {
        let (text, scores) = always(token).recognize_spectrogram(&spectrogram()).unwrap();
        assert_eq!(text, "");
        assert!(scores.is_empty());
    }
}

#[test]
fn a_prompt_that_ends_the_text_needs_no_network() {
    let config = parse_whisper_config(&whisper_config(1, WIDTH)).unwrap();
    let vocab = Vocab::parse("{\"<|notimestamps|>\":60000,\"<|endoftext|>\":60000}").unwrap();
    let bytes = safetensors(&whisper_weights());
    let mut asr = AsrRecognizer::new(config, vocab, &bytes, Device::Cpu, "en").unwrap();
    let features = asr.listen(&spectrogram()).unwrap();
    // The network has no such token, and is not asked.
    let (tokens, scores) = asr.decode(&features).unwrap();
    assert_eq!(tokens, [50257, 50259, 50359, 60000]);
    assert!(scores.is_empty());
    assert!(matches!(asr.next_token(&tokens, &features, true), Err(EngineError::Tensor(_))));
    assert_eq!(asr.recognize_spectrogram(&spectrogram()).unwrap().0, "");
}

#[test]
fn tokens_that_the_network_lacks_are_refused() {
    let mut config = parse_whisper_config(&whisper_config(1, WIDTH)).unwrap();
    config.vocab_size = 0;
    let mut w = whisper_weights();
    w.retain(|w| w.name != "model.decoder.embed_tokens.weight");
    w.push(weight("model.decoder.embed_tokens.weight", &[0, WIDTH]));
    let r = AsrRecognizer::new(config, whisper_vocab(), &safetensors(&w), Device::Cpu, "en");
    let mut asr = r.unwrap();
    assert!(asr.listen(&spectrogram()).is_ok());
    assert!(matches!(asr.recognize_spectrogram(&spectrogram()), Err(EngineError::Tensor(_))));
}

#[test]
fn layers_need_heads_but_a_network_needs_no_layers() {
    let mut config = parse_whisper_config(&whisper_config(0, WIDTH)).unwrap();
    config.encoder_layers = 0;
    config.decoder_layers = 0;
    let mut w = whisper_weights();
    set(&mut w, "model.decoder.layer_norm.bias", &[(0, 1.0)]);
    set(&mut w, "model.decoder.embed_tokens.weight", &[(END * WIDTH, 1.0)]);
    let r = AsrRecognizer::new(config, whisper_vocab(), &safetensors(&w), Device::Cpu, "en");
    assert_eq!(r.unwrap().recognize_spectrogram(&spectrogram()).unwrap().0, "");
    let mut config = parse_config(&marian_config("", 0, WIDTH).replace("swish", "swiglu")).unwrap();
    config.encoder_layers = 0;
    config.decoder_layers = 0;
    config.encoder_ffn_dim = 1;
    config.decoder_ffn_dim = 1;
    let bytes = safetensors(&marian_weights());
    let r = TranslatorEngine::new(&config, marian_vocab(), &bytes, Device::Cpu);
    assert_eq!(r.unwrap().translate("hello").unwrap(), "");
}

fn single(x: f32) -> Single {
    Single::from_bits(x.to_bits())
}

/// Doubles samples and claims that they are loud.
fn louder(samples: Vec<u32>) -> (Vec<u32>, Single) {
    (samples.iter().map(|s| 2 * s).collect(), single(0.1))
}

#[test]
fn recordings_are_recognized_by_their_spectrogram() {
    let mut asr = replying(&[HELLO, WORLD, END]);
    let samples = vec![3u32; 4800];
    let (text, scores) = asr
        .recognize_with_confidence(&samples, louder, |normalized| {
            assert_eq!(normalized, vec![6u32; 4800]);
            Ok(spectrogram())
        })
        .unwrap();
    assert_eq!(text, "hello wor\tld");
    assert_eq!(scores.len(), 3);
    assert_eq!(asr.recognize(&samples, louder, |_| Ok(spectrogram())).unwrap(), "hello wor\tld");
}

#[test]
fn short_and_silent_recordings_are_not_looked_at() {
    let mut asr = always(HELLO);
    let short = asr.recognize_with_confidence(&[0u32; 4799], |_| panic!(), |_| panic!()).unwrap();
    assert_eq!(short.0, "");
    assert!(short.1.is_empty());
    let silence = |samples: Vec<u32>| (samples, single(0.0009));
    let silent = asr.recognize_with_confidence(&[0u32; 4800], silence, |_| panic!()).unwrap();
    assert_eq!(silent.0, "");
    assert!(silent.1.is_empty());
}

#[test]
fn audio_before_the_last_15_seconds_changes_nothing() {
    let mut asr = replying(&[HELLO, END, END]);
    let samples: Vec<u32> = (0..250_000).collect();
    for recording in [&samples[..], &samples[10_000..]] {
        let text = asr.recognize(recording, louder, |normalized| {
            assert_eq!(normalized.len(), 240_000);
            assert_eq!(normalized[0], 20_000);
            Ok(spectrogram())
        });
        assert_eq!(text.unwrap(), "hello");
    }
}

#[test]
fn recordings_without_a_spectrogram_are_refused() {
    let mut asr = always(HELLO);
    let r = asr.recognize(&[1u32; 4800], louder, |_| {
        Tensor::zeros(3, DType::F32, &Device::Cpu)?.reshape((2, 2))
    });
    assert!(matches!(r, Err(EngineError::Tensor(_))));
    let r = asr.recognize(&[1u32; 4800], louder, |_| {
        Tensor::zeros((1, 2, 0), DType::F32, &Device::Cpu)
    });
    assert!(matches!(r, Err(EngineError::NoAudio)));
}

#[test]
fn the_next_token_comes_with_all_scores() {
    let mut asr = always(HELLO);
    let features = asr.listen(&spectrogram()).unwrap();
    let prompt = asr.prompt();
    let (token, scores) = asr.next_token(&prompt, &features, true).unwrap();
    assert_eq!(token, HELLO as u32);
    assert_eq!(scores.dims(), &[WORDS]);
}

#[test]
fn recognizing_twice_gives_the_same() {
    let mut asr = replying(&[WORLD, HELLO, END]);
    let first = asr.recognize_spectrogram(&spectrogram()).unwrap().0;
    assert_eq!(first, "wor\tld\n hello");
    assert_eq!(asr.recognize_spectrogram(&spectrogram()).unwrap().0, first);
}

#[test]
fn the_prompt_names_the_language() {
    let mut asr = always(END);
    for (lang, token) in [
        ("en", 50259),
        ("zh", 50260),
        ("ja", 50266),
        ("ko", 50264),
        ("auto", 50259),
        ("EN", 50259),
    ] {
        asr.set_language(lang);
        assert_eq!(asr.prompt(), [50258, token, 50359, 50363]);
    }
}

#[test]
fn tokens_that_are_missing_have_usual_numbers() {
    let config = parse_whisper_config(&whisper_config(1, WIDTH)).unwrap();
    let vocab = Vocab::parse("{}").unwrap();
    let bytes = safetensors(&whisper_weights());
    let asr = AsrRecognizer::new(config, vocab, &bytes, Device::Cpu, "zh").unwrap();
    assert_eq!(asr.prompt(), [50257, 50259, 50359, 50363]);
    assert!(asr.hears_no_speech(&[1, 50362]));
    assert!(asr.hears_no_speech(&[50361]));
    assert!(!asr.hears_no_speech(&[50360, 50363]));
}

#[test]
fn special_and_unknown_tokens_are_silent() {
    let asr = always(END);
    assert_eq!(asr.transcript(&[50258, 100, 50259, 55, 102, 50257]), "hello wor\tld");
    assert_eq!(asr.transcript(&[100, 50362]), "");
    assert_eq!(asr.transcript(&[]), "");
}

#[test]
fn notes_in_parentheses_are_removed() {
    for (text, expected) in [
        ("(laughs) hello (Music)", "hello"),
        ("a (b (c) d) e", "a  e"),
        ("a) b", "a) b"),
        ("a (b", "a"),
        ("plain", "plain"),
        ("()", ""),
    ] {
        let cleaned = AsrRecognizer::clean_text(text);
        assert_eq!(cleaned, expected);
        assert_eq!(AsrRecognizer::clean_text(&cleaned), cleaned);
    }
}

#[test]
fn the_end_of_a_recording_is_recognized() {
    let samples: Vec<u32> = (0..300_000).collect();
    assert!(recognition_window(&samples[..4799]).is_none());
    assert_eq!(recognition_window(&samples[..4800]).unwrap(), &samples[..4800]);
    assert_eq!(recognition_window(&samples[..240_000]).unwrap().len(), 240_000);
    assert_eq!(recognition_window(&samples).unwrap(), &samples[60_000..]);
}

#[test]
fn silence_is_below_a_thousandth() {
    for (rms, silent) in [(0.0f32, true), (0.00099, true), (0.001, false), (0.1, false)] {
        assert_eq!(is_silent(Single::from_bits(rms.to_bits())), silent);
    }
    assert!(!is_silent(Single::from_bits(f32::NAN.to_bits())));
}

#[test]
fn a_spectrogram_without_entries_is_refused() {
    let mut asr = always(END);
    for shape in [(0, 2, 10), (1, 0, 10), (1, 2, 0)] {
        let mel = Tensor::zeros(shape, DType::F32, &Device::Cpu).unwrap();
        assert!(matches!(asr.recognize_spectrogram(&mel), Err(EngineError::NoAudio)));
    }
    let flat = Tensor::zeros(7, DType::F32, &Device::Cpu).unwrap();
    assert!(matches!(asr.recognize_spectrogram(&flat), Err(EngineError::Tensor(_))));
}

#[test]
fn networks_that_cannot_run_are_refused() {
    let bytes = safetensors(&whisper_weights());
    for (heads, width) in [(0, WIDTH), (1, 0), (1, 1)] {
        let config = parse_whisper_config(&whisper_config(heads, width)).unwrap();
        let r = AsrRecognizer::new(config, whisper_vocab(), &bytes, Device::Cpu, "en");
        assert!(matches!(r, Err(LoadError::Network)));
    }
    let config = parse_whisper_config(&whisper_config(1, 8)).unwrap();
    let r = AsrRecognizer::new(config, whisper_vocab(), &bytes, Device::Cpu, "en");
    assert!(matches!(r, Err(LoadError::Weights(_))));
}

#[test]
fn broken_configurations_are_refused() {
    assert!(matches!(parse_whisper_config("{}"), Err(LoadError::Config(_))));
    assert!(matches!(parse_config("{"), Err(LoadError::ConfigSyntax(_))));
    assert!(matches!(parse_config("{}"), Err(LoadError::Config(_))));
    assert!(matches!(parse_config("7"), Err(LoadError::Config(_))));
}

#[test]
fn vocabularies_lead_both_ways() {
    let vocab = Vocab::parse("{\"a\":1,\"\u{2581}b\u{e9}\":2}").unwrap();
    assert_eq!(vocab.id("a"), Some(1));
    assert_eq!(vocab.id("\u{2581}b\u{e9}"), Some(2));
    assert_eq!(vocab.id("b"), None);
    assert_eq!(vocab.token(1).unwrap(), "a");
    assert_eq!(vocab.token(2).unwrap(), "\u{2581}b\u{e9}");
    assert!(vocab.token(3).is_none());
    assert_eq!(vocab.max_token_len(), 3);
    assert_eq!(Vocab::parse("{}").unwrap().max_token_len(), 16);
}

#[test]
fn broken_vocabularies_are_refused() {
    for raw in ["", "[]", "{\"a\":\"b\"}", "{\"a\":-1}", "{\"a\":4294967296}"] {
        assert!(matches!(Vocab::parse(raw), Err(LoadError::Vocab(_))), "{}", raw);
    }
}

// A Marian network of the same kind.

const MARIAN_WORDS: usize = 10;

fn marian_config(more: &str, heads: usize, width: usize) -> String {
    format!(
        "{{\"vocab_size\":{},\"max_position_embeddings\":300,\"encoder_layers\":1,\
         \"encoder_ffn_dim\":2,\"encoder_attention_heads\":1,\"decoder_layers\":1,\
         \"decoder_ffn_dim\":2,\"decoder_attention_heads\":{},\"use_cache\":true,\
         \"is_encoder_decoder\":true,\"activation_function\":\"swish\",\"d_model\":{},\
         \"decoder_start_token_id\":9,\"scale_embedding\":false,\"pad_token_id\":9,\
         \"eos_token_id\":0,\"forced_eos_token_id\":0{}}}",
        MARIAN_WORDS, heads, width, more
    )
}

fn marian_vocab() -> Vocab {
    Vocab::parse(
        "{\"</s>\":0,\"\u{2581}\":1,\"\u{2581}hello\":2,\"\u{2581}he\":3,\"llo\":4,\"o\":5,\
         \"你好\":6,\"\u{2581}世界\":7}",
    )
    .unwrap()
}

fn marian_weights() -> Vec<Weight> {
    let mut w = vec![
        weight("final_logits_bias", &[1, MARIAN_WORDS]),
        weight("model.shared.weight", &[MARIAN_WORDS, WIDTH]),
    ];
    attention(&mut w, "model.encoder.layers.0.self_attn", true);
    feed_forward(&mut w, "model.encoder.layers.0", 2);
    attention(&mut w, "model.decoder.layers.0.self_attn", true);
    attention(&mut w, "model.decoder.layers.0.encoder_attn", true);
    feed_forward(&mut w, "model.decoder.layers.0", 2);
    w
}

fn translator(weights: &[Weight]) -> TranslatorEngine {
    let config = parse_config(&marian_config("", 1, WIDTH)).unwrap();
    TranslatorEngine::new(&config, marian_vocab(), &safetensors(weights), Device::Cpu).unwrap()
}

/// A translator whose network replies with the same token for ever.
fn saying(token: usize) -> TranslatorEngine {
    let mut w = marian_weights();
    set(&mut w, "final_logits_bias", &[(token, 1.0)]);
    translator(&w)
}

#[test]
fn texts_are_cut_into_the_longest_tokens() {
    let nmt = saying(0);
    assert_eq!(nmt.tokenize("hello"), [2, 0]);
    assert_eq!(nmt.tokenize("  HeLLo hello\n"), [2, 2, 0]);
    assert_eq!(nmt.tokenize("hell"), [3, 0]);
    assert_eq!(nmt.tokenize("heLLOo"), [2, 5, 0]);
    assert_eq!(nmt.tokenize("xo"), [1, 5, 0]);
    assert_eq!(nmt.tokenize("你好 世界"), [1, 6, 7, 0]);
    assert_eq!(nmt.tokenize("你好 HELLO"), [1, 6, 1, 0]);
    assert_eq!(nmt.tokenize(""), [1, 0]);
}

#[test]
fn tokens_are_spelled_with_spaces() {
    let nmt = saying(0);
    assert_eq!(nmt.detokenize(&[6, 7]), "你好 世界");
    assert_eq!(nmt.detokenize(&[2, 8, 3, 4]), "hello hello");
    assert_eq!(nmt.detokenize(&[1, 1]), "");
    assert_eq!(nmt.detokenize(&[]), "");
}

#[test]
fn a_text_that_is_all_tokens_is_spelled_again() {
    let nmt = saying(0);
    let ids = nmt.tokenize("hello hello");
    assert_eq!(nmt.detokenize(&ids[..ids.len() - 1]), "hello hello");
}

#[test]
fn blank_texts_are_not_translated() {
    let mut nmt = saying(6);
    assert_eq!(nmt.translate("").unwrap(), "");
    assert_eq!(nmt.translate(" \t\n").unwrap(), "");
}

#[test]
fn translating_stops_after_256_tokens() {
    let mut nmt = saying(6);
    assert_eq!(nmt.translate("hello").unwrap(), "你好".repeat(256));
    assert_eq!(nmt.translate("hello").unwrap(), "你好".repeat(256));
}

#[test]
fn translating_may_end_at_once() {
    assert_eq!(saying(0).translate("hello").unwrap(), "");
}

#[test]
fn each_reply_follows_the_one_before_it() {
    let mut w = marian_weights();
    let ones: Vec<(usize, f32)> = (0..WIDTH).map(|i| (i, 1.0)).collect();
    for name in ["self_attn_layer_norm", "encoder_attn_layer_norm", "final_layer_norm"] {
        set(&mut w, &format!("model.decoder.layers.0.{}.weight", name), &ones);
    }
    // After the first token the scores favour 7, and after that the end of the text.
    set(
        &mut w,
        "model.shared.weight",
        &[
            (9 * WIDTH, 50.0),
            (7 * WIDTH, 100.0),
            (7 * WIDTH + 1, -200.0),
            (0, -100.0),
            (1, -500.0),
        ],
    );
    let mut nmt = translator(&w);
    assert_eq!(nmt.translate("hello").unwrap(), "世界");
}

#[test]
fn a_missing_field_is_filled_in() {
    let value = serde_json::from_str("{\"a\":1}").unwrap();
    let done = complete(value);
    assert_eq!(done["share_encoder_decoder_embeddings"], true);
    assert_eq!(done["a"], 1);
    let kept = complete(
        serde_json::from_str("{\"share_encoder_decoder_embeddings\":false}").unwrap(),
    );
    assert_eq!(kept["share_encoder_decoder_embeddings"], false);
    assert_eq!(complete(serde_json::from_str("[1]").unwrap())[0], 1);
    let shared = ",\"share_encoder_decoder_embeddings\":false";
    assert!(parse_config(&marian_config("", 1, 4)).unwrap().share_encoder_decoder_embeddings);
    assert!(!parse_config(&marian_config(shared, 1, 4)).unwrap().share_encoder_decoder_embeddings);
}

fn scores(values: &[f32], shape: &[usize]) -> Tensor {
    Tensor::from_slice(values, shape, &Device::Cpu).unwrap()
}

#[test]
fn the_best_score_is_chosen() {
    assert_eq!(choose_best(&scores(&[-1.0, 2.0, 2.0, 1.0], &[4])).unwrap(), 1);
    assert_eq!(choose_best(&scores(&[-3.0], &[1])).unwrap(), 0);
    let spread = scores(&[5.0], &[]).broadcast_as(1).unwrap();
    assert_eq!(choose_best(&spread).unwrap(), 0);
    let matrix = scores(&[1.0, 2.0], &[1, 2]);
    assert!(matches!(choose_best(&matrix), Err(EngineError::Tensor(_))));
    let number = scores(&[1.0], &[]);
    assert!(matches!(choose_best(&number), Err(EngineError::Tensor(_))));
    assert!(matches!(choose_best(&scores(&[], &[0])), Err(EngineError::NoScores)));
    let integers = Tensor::new(&[1u32, 2][..], &Device::Cpu).unwrap();
    assert!(matches!(choose_best(&integers), Err(EngineError::NoSingles)));
}

#[test]
fn the_last_position_is_rated() {
    let logits = scores(&[9.0, 0.0, 0.0, 0.0, 0.0, 1.0], &[1, 2, 3]);
    let (token, rated) = choose_last(&logits).unwrap();
    assert_eq!(token, 2);
    let rated: Vec<f32> = rated.to_vec1().unwrap();
    let total = (2.0 + 1.0f32.exp()).ln();
    for (a, b) in rated.iter().zip([-total, -total, 1.0 - total]) {
        assert!((a - b).abs() < 1e-5, "{} {}", a, b);
    }
    assert_eq!(choose_last(&scores(&[1.0, 3.0, 4.0, 2.0], &[2, 2])).unwrap().0, 0);
    assert_eq!(choose_last(&scores(&[7.0], &[1, 1, 1])).unwrap().0, 0);
    for shape in [&[][..], &[1], &[1, 1, 1, 1]] {
        assert!(matches!(choose_last(&scores(&[1.0], shape)), Err(EngineError::Tensor(_))));
    }
    assert!(matches!(choose_last(&scores(&[], &[0, 3])), Err(EngineError::Tensor(_))));
    assert!(matches!(choose_last(&scores(&[], &[1, 3, 0])), Err(EngineError::NoScores)));
    let integers = Tensor::zeros((1, 2, 3), DType::U32, &Device::Cpu).unwrap();
    assert!(matches!(choose_last(&integers), Err(EngineError::NoSingles)));
}

#[test]
fn the_only_position_is_rated() {
    assert_eq!(choose_only(&scores(&[0.0, 4.0, 3.0], &[1, 1, 3])).unwrap(), 1);
    assert_eq!(choose_only(&scores(&[0.0, 4.0, 5.0], &[3])).unwrap(), 2);
    assert_eq!(choose_only(&scores(&[2.0], &[1, 1, 1])).unwrap(), 0);
    assert!(matches!(choose_only(&scores(&[1.0], &[1])), Err(EngineError::Tensor(_))));
    assert!(matches!(choose_only(&scores(&[0.0; 6], &[1, 2, 3])), Err(EngineError::Tensor(_))));
    assert!(matches!(choose_only(&scores(&[], &[1, 1, 0])), Err(EngineError::NoScores)));
    let integers = Tensor::zeros((1, 1, 3), DType::U8, &Device::Cpu).unwrap();
    assert!(matches!(choose_only(&integers), Err(EngineError::NoSingles)));
}

#[test]
fn mel_filters_are_read_row_by_row() {
    let values = mel_filter_values("{\"mel_filters\":[[1.5,2],7,[\"x\"],[]],\"a\":0}").unwrap();
    assert_eq!(values.len(), 3);
    assert_eq!(values[0].as_f64(), Some(1.5));
    assert_eq!(values[1].as_f64(), Some(2.0));
    assert_eq!(values[2].as_f64(), None);
    for text in [
        "",
        "[[1]]",
        "{}",
        "{\"mel_filters\":3}",
        "{\"mel_filters\":[]}",
        "{\"mel_filters\":[[],5,{}]}",
    ] {
        assert!(mel_filter_values(text).is_none(), "{}", text);
    }
}

#[test]
fn either_case_is_read_as_the_same_tokens() {
    let nmt = saying(0);
    for text in ["hello hello", "HELLO HELLO", " Hello hELLO "] {
        assert_eq!(nmt.tokenize(text), [2, 2, 0]);
    }
}

#[test]
fn gated_layers_need_two_halves() {
    let gated = marian_config("", 1, WIDTH).replace("swish", "swiglu");
    let bytes = safetensors(&marian_weights());
    let config = parse_config(&gated).unwrap();
    let mut nmt = TranslatorEngine::new(&config, marian_vocab(), &bytes, Device::Cpu).unwrap();
    assert!(matches!(nmt.translate("hello"), Err(EngineError::Tensor(_))));
    for (encoder, decoder) in [(1, 2), (2, 1), (0, 2)] {
        let mut config = parse_config(&gated).unwrap();
        config.encoder_ffn_dim = encoder;
        config.decoder_ffn_dim = decoder;
        let r = TranslatorEngine::new(&config, marian_vocab(), &bytes, Device::Cpu);
        assert!(matches!(r, Err(LoadError::Network)));
    }
}

#[test]
fn inner_layers_of_width_one_run_without_gates() {
    let mut w: Vec<Weight> = vec![
        weight("final_logits_bias", &[1, MARIAN_WORDS]),
        weight("model.shared.weight", &[MARIAN_WORDS, WIDTH]),
    ];
    attention(&mut w, "model.encoder.layers.0.self_attn", true);
    feed_forward(&mut w, "model.encoder.layers.0", 1);
    attention(&mut w, "model.decoder.layers.0.self_attn", true);
    attention(&mut w, "model.decoder.layers.0.encoder_attn", true);
    feed_forward(&mut w, "model.decoder.layers.0", 1);
    let mut config = parse_config(&marian_config("", 1, WIDTH)).unwrap();
    config.encoder_ffn_dim = 1;
    config.decoder_ffn_dim = 1;
    let mut nmt =
        TranslatorEngine::new(&config, marian_vocab(), &safetensors(&w), Device::Cpu).unwrap();
    assert_eq!(nmt.translate("hello").unwrap(), "");
}

#[test]
fn translators_that_cannot_run_are_refused() {
    let bytes = safetensors(&marian_weights());
    for (heads, width) in [(0, WIDTH), (1, 0)] {
        let config = parse_config(&marian_config("", heads, width)).unwrap();
        let r = TranslatorEngine::new(&config, marian_vocab(), &bytes, Device::Cpu);
        assert!(matches!(r, Err(LoadError::Network)));
    }
    let mut config = parse_config(&marian_config("", 1, WIDTH)).unwrap();
    config.encoder_layers = usize::MAX;
    let r = TranslatorEngine::new(&config, marian_vocab(), &bytes, Device::Cpu);
    assert!(matches!(r, Err(LoadError::Network)));
    config.encoder_layers = 1;
    let r = TranslatorEngine::new(&config, marian_vocab(), &bytes[1..], Device::Cpu);
    assert!(matches!(r, Err(LoadError::Weights(_))));
}
