use live_translator::pipeline::{
    Ask, Effect, Input, Pipeline, Reaction, State, TranslationJob, TranslationResult,
};
use live_translator::protocol::{Command, Event};
use live_translator::single::Single;

fn single(x: f32) -> Single {
    Single::from_bits(x.to_bits())
}

fn fresh() -> Pipeline<f32> {
    Pipeline::new(single(0.005)).0
}

fn start(src: &str) -> Input<f32> {
    Input::Command(Command::Start { src: src.to_string(), tgt: "zh".to_string() })
}

fn voice(n: usize) -> Input<f32> {
    Input::Audio { chunk: vec![0.5; n], rms: single(0.5) }
}

fn silence() -> Input<f32> {
    Input::Audio { chunk: vec![0.0; 512], rms: single(0.0) }
}

fn empty(ms: u128) -> Input<f32> {
    Input::BacklogEmpty { since_partial_ms: ms }
}

fn heard(text: &str, confidence: f32) -> Input<f32> {
    Input::Heard(Some((text.to_string(), single(confidence))))
}

fn take(p: &mut Pipeline<f32>, input: Input<f32>) -> Reaction<f32> {
    p.step(input).unwrap()
}

/// The effects, each in a short form.
fn effects(r: &Reaction<f32>) -> Vec<String> {
    r.effects
        .iter()
        .map(|e| match e {
            Effect::SetLanguage(lang) => format!("language {}", lang),
            Effect::DropJobs => "drop jobs".to_string(),
            Effect::ReloadTranslator => "reload".to_string(),
            Effect::DropAudio => "drop audio".to_string(),
            Effect::Emit(Event::Status { state }) => format!("status {}", state),
            Effect::Emit(Event::Partial { text, lang, confidence }) => {
                format!("partial {} {} {}", text, lang, f32::from_bits(confidence.unwrap().bits))
            }
            Effect::Emit(Event::Final { text, translated, lang, confidence }) => format!(
                "final {} {} {} {}",
                text,
                translated,
                lang,
                f32::from_bits(confidence.unwrap().bits)
            ),
            Effect::Emit(Event::Error { message }) => format!("error {}", message),
            Effect::Translate(job) => format!(
                "translate {} {} {} {}",
                job.text,
                job.src_lang,
                f32::from_bits(job.confidence.bits),
                job.generation
            ),
        })
        .collect()
}

fn job(text: &str, generation: u64) -> TranslationJob {
    TranslationJob {
        text: text.to_string(),
        confidence: single(-0.25),
        src_lang: "en".to_string(),
        generation,
    }
}

fn result(text: &str, translated: &str, generation: u64) -> TranslationResult {
    job(text, generation).finish(Some(translated.to_string()))
}

/// Starts, speaks for `chunks` chunks, and stays silent until the segment is cut.
fn until_segment(p: &mut Pipeline<f32>, chunks: usize) -> Reaction<f32> {
    for _ in 0..chunks {
        take(p, voice(512));
        take(p, empty(0));
    }
    for _ in 0..14 {
        take(p, silence());
        take(p, empty(0));
    }
    take(p, silence())
}

#[test]
fn a_new_pipeline_reports_that_it_is_idle() {
    let (p, r) = Pipeline::<f32>::new(single(0.005));
    assert_eq!(p.state(), State::Idle);
    assert_eq!(effects(&r), ["status idle"]);
    assert!(matches!(r.ask, Ask::Wait));
}

#[test]
fn an_idle_pipeline_throws_audio_away() {
    let mut p = fresh();
    let r = take(&mut p, voice(512));
    assert_eq!(p.state(), State::Idle);
    assert!(r.effects.is_empty());
    assert!(matches!(r.ask, Ask::Wait));
}

#[test]
fn the_first_start_only_sets_the_language() {
    let mut p = fresh();
    let r = take(&mut p, start("en"));
    assert_eq!(p.state(), State::Listening);
    assert_eq!(effects(&r), ["language en", "drop audio", "status listening"]);
    let r = take(&mut p, start("en"));
    assert_eq!(effects(&r), ["drop audio", "status listening"]);
}

#[test]
fn another_language_drops_the_jobs_and_reloads_the_translator() {
    let mut p = fresh();
    take(&mut p, start("en"));
    let r = take(&mut p, start("ja"));
    assert_eq!(
        effects(&r),
        ["language ja", "drop jobs", "reload", "drop audio", "status listening"]
    );
}

#[test]
fn a_language_switch_after_auto_reloads_too() {
    let mut p = fresh();
    take(&mut p, start("en"));
    let switched = |lang: &str| {
        vec![
            format!("language {}", lang),
            "drop jobs".to_string(),
            "reload".to_string(),
            "drop audio".to_string(),
            "status listening".to_string(),
        ]
    };
    assert_eq!(effects(&take(&mut p, start("auto"))), switched("auto"));
    assert_eq!(effects(&take(&mut p, start("zh"))), switched("zh"));
}

#[test]
fn previews_keep_the_order_of_arrival() {
    let mut p = fresh();
    take(&mut p, start("en"));
    let r = take(&mut p, voice(1000));
    assert_eq!(p.state(), State::Speaking);
    assert!(matches!(r.ask, Ask::NextBacklog));
    let r = take(&mut p, Input::Backlog { chunk: vec![0.25; 1100], rms: single(0.25) });
    assert!(matches!(r.ask, Ask::NextBacklog));
    let r = take(&mut p, empty(500));
    match r.ask {
        Ask::RecognizePartial { samples } => {
            assert_eq!(samples.len(), 2100);
            assert_eq!(samples[0], 0.5);
            assert_eq!(samples[999], 0.5);
            assert_eq!(samples[1000], 0.25);
            assert_eq!(samples[2099], 0.25);
        }
        other => panic!("{:?}", other),
    }
}

#[test]
fn previews_wait_half_a_second_then_a_second() {
    let mut p = fresh();
    take(&mut p, start("en"));
    take(&mut p, voice(2048));
    assert!(matches!(take(&mut p, empty(10_000)).ask, Ask::Wait));
    take(&mut p, voice(1));
    assert!(matches!(take(&mut p, empty(499)).ask, Ask::Wait));
    take(&mut p, voice(1));
    assert!(matches!(take(&mut p, empty(500)).ask, Ask::RecognizePartial { .. }));
    take(&mut p, Input::Heard(None));
    take(&mut p, voice(29_950));
    assert!(matches!(take(&mut p, empty(999)).ask, Ask::Wait));
    take(&mut p, voice(1));
    assert!(matches!(take(&mut p, empty(1000)).ask, Ask::RecognizePartial { .. }));
}

#[test]
fn previews_show_the_last_five_seconds() {
    let mut p = fresh();
    take(&mut p, start("en"));
    let chunk: Vec<f32> = (0..100_000).map(|i| i as f32).collect();
    take(&mut p, Input::Audio { chunk, rms: single(0.5) });
    match take(&mut p, empty(1000)).ask {
        Ask::RecognizePartial { samples } => {
            assert_eq!(samples.len(), 80_000);
            assert_eq!(samples[0], 20_000.0);
        }
        other => panic!("{:?}", other),
    }
}

#[test]
fn uncertain_and_blank_previews_are_not_shown() {
    for (text, confidence, shown) in [
        ("hello", -0.85, true),
        ("hello", -3.0, true),
        ("hello", -3.0000002, false),
        ("hello", f32::NAN, false),
        ("  ", -0.1, false),
    ] {
        let mut p = fresh();
        take(&mut p, start("en"));
        take(&mut p, voice(3000));
        take(&mut p, empty(500));
        let r = take(&mut p, heard(text, confidence));
        assert!(matches!(r.ask, Ask::Wait));
        if shown {
            assert_eq!(effects(&r), [format!("partial hello en {}", confidence)]);
        } else {
            assert!(r.effects.is_empty());
        }
    }
}

#[test]
fn a_segment_is_recognized_and_handed_to_the_translator() {
    let mut p = fresh();
    take(&mut p, start("en"));
    let r = until_segment(&mut p, 10);
    match &r.ask {
        Ask::RecognizeSegment { samples, save_as } => {
            assert_eq!(samples.len(), 5120);
            assert_eq!(*save_as, Some(0));
        }
        other => panic!("{:?}", other),
    }
    let r = take(&mut p, heard("hello world", -0.125));
    assert_eq!(effects(&r), ["translate hello world en -0.125 1", "status listening"]);
    assert_eq!(p.state(), State::Listening);
    let r = take(&mut p, Input::Translated(result("hello world", "你好世界", 1)));
    assert_eq!(effects(&r), ["final hello world 你好世界 en -0.25"]);
    assert!(matches!(r.ask, Ask::Wait));
}

#[test]
fn only_the_first_two_segments_are_saved() {
    let mut p = fresh();
    take(&mut p, start("en"));
    for expected in [Some(0), Some(1), None, None] {
        match until_segment(&mut p, 10).ask {
            Ask::RecognizeSegment { save_as, .. } => assert_eq!(save_as, expected),
            other => panic!("{:?}", other),
        }
        take(&mut p, Input::Heard(None));
    }
}

#[test]
fn blank_and_failed_segments_are_not_translated() {
    for answer in [heard(" \n", -0.1), Input::Heard(None)] {
        let mut p = fresh();
        take(&mut p, start("en"));
        until_segment(&mut p, 10);
        let r = take(&mut p, answer);
        assert_eq!(effects(&r), ["status listening"]);
    }
}

#[test]
fn a_cut_after_ten_seconds_leads_back_to_listening() {
    let mut p = fresh();
    take(&mut p, start("en"));
    take(&mut p, voice(160_100));
    let r = take(&mut p, empty(0));
    match &r.ask {
        Ask::RecognizeSegment { samples, .. } => assert_eq!(samples.len(), 160_000),
        other => panic!("{:?}", other),
    }
    let r = take(&mut p, heard("a", -1.0));
    assert_eq!(effects(&r), ["translate a en -1 1", "status listening"]);
    assert_eq!(p.state(), State::Listening);
    // The segment has left the preview; the rest of the speech has not.
    take(&mut p, voice(1900));
    assert_eq!(p.state(), State::Speaking);
    assert!(matches!(take(&mut p, empty(1000)).ask, Ask::Wait));
    take(&mut p, voice(100));
    match take(&mut p, empty(1000)).ask {
        Ask::RecognizePartial { samples } => assert_eq!(samples.len(), 2100),
        other => panic!("{:?}", other),
    }
}

#[test]
fn several_segments_are_recognized_before_listening_again() {
    let mut p = fresh();
    take(&mut p, start("en"));
    take(&mut p, voice(330_000));
    assert!(matches!(take(&mut p, empty(0)).ask, Ask::RecognizeSegment { .. }));
    let r = take(&mut p, heard("a", -1.0));
    assert_eq!(effects(&r), ["translate a en -1 1"]);
    assert_eq!(p.state(), State::Speaking);
    assert!(matches!(r.ask, Ask::RecognizeSegment { .. }));
    let r = take(&mut p, heard("b", -1.0));
    assert_eq!(effects(&r), ["translate b en -1 1", "status listening"]);
    assert_eq!(p.state(), State::Listening);
}

#[test]
fn the_end_of_speech_keeps_its_last_samples() {
    let mut p = fresh();
    take(&mut p, start("en"));
    until_segment(&mut p, 10);
    take(&mut p, Input::Heard(None));
    // 4800 samples are left, so one sample more is enough for a preview.
    take(&mut p, voice(1));
    match take(&mut p, empty(500)).ask {
        Ask::RecognizePartial { samples } => assert_eq!(samples.len(), 4801),
        other => panic!("{:?}", other),
    }
}

#[test]
fn stop_reports_what_is_finished_and_then_idles() {
    let mut p = fresh();
    take(&mut p, start("en"));
    take(&mut p, voice(512));
    take(&mut p, empty(0));
    let r = take(&mut p, Input::Command(Command::Stop));
    assert_eq!(p.state(), State::Idle);
    assert!(r.effects.is_empty());
    assert!(matches!(r.ask, Ask::NextResult));
    let r = take(&mut p, Input::Translated(result("a", "b", 1)));
    assert_eq!(effects(&r), ["final a b en -0.25"]);
    assert!(matches!(r.ask, Ask::NextResult));
    let r = take(&mut p, Input::Translated(result("old", "older", 0)));
    assert!(r.effects.is_empty());
    let r = take(&mut p, Input::NoMoreResults);
    assert_eq!(effects(&r), ["status idle"]);
    assert!(matches!(r.ask, Ask::Wait));
}

#[test]
fn translations_from_before_a_start_are_dropped() {
    let mut p = fresh();
    take(&mut p, start("en"));
    take(&mut p, start("en"));
    assert!(take(&mut p, Input::Translated(result("a", "b", 1))).effects.is_empty());
    assert_eq!(take(&mut p, Input::Translated(result("a", "b", 2))).effects.len(), 1);
}

#[test]
fn quit_and_closed_channels_end_the_program() {
    let mut p = fresh();
    let r = take(&mut p, Input::Command(Command::Quit));
    assert_eq!(effects(&r), ["status exiting"]);
    assert!(matches!(r.ask, Ask::Exit));
    for closed in [Input::ControlClosed, Input::AudioClosed] {
        let mut p = fresh();
        let r = take(&mut p, closed);
        assert!(r.effects.is_empty());
        assert!(matches!(r.ask, Ask::Exit));
    }
}

#[test]
fn nothing_follows_the_end_of_the_program() {
    for last in [Input::Command(Command::Quit), Input::ControlClosed, Input::AudioClosed] {
        let mut p = fresh();
        take(&mut p, start("en"));
        assert!(matches!(take(&mut p, last).ask, Ask::Exit));
        assert!(p.step(start("ja")).is_none());
        assert!(p.step(Input::Command(Command::Stop)).is_none());
        assert!(p.step(Input::Command(Command::Quit)).is_none());
        assert!(p.step(voice(512)).is_none());
        assert!(p.step(Input::Translated(result("a", "b", 1))).is_none());
    }
}

#[test]
fn answers_that_nobody_asked_for_are_refused() {
    let mut p = fresh();
    assert!(p.step(empty(0)).is_none());
    assert!(p.step(heard("a", 0.0)).is_none());
    assert!(p.step(Input::NoMoreResults).is_none());
    assert!(p.step(Input::Backlog { chunk: vec![], rms: single(0.0) }).is_none());
    take(&mut p, start("en"));
    take(&mut p, voice(512));
    assert!(p.step(start("ja")).is_none());
    assert!(p.step(Input::AudioClosed).is_none());
    assert!(p.step(Input::Translated(result("a", "b", 1))).is_none());
    assert_eq!(p.state(), State::Speaking);
    assert!(p.step(empty(0)).is_some());
}

#[test]
fn a_failed_translation_is_empty() {
    let done = job("hello", 3).finish(None);
    assert_eq!(done.text, "hello");
    assert_eq!(done.translated, "");
    assert_eq!(done.src_lang, "en");
    assert_eq!(done.generation, 3);
    assert_eq!(done.confidence.bits, (-0.25f32).to_bits());
}
