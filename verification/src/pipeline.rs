//! The main loop as a state machine.
//!
//! A [`Pipeline`] takes in what happens (a command, a chunk of audio, a recognized text, a
//! finished translation) and answers with what has to be done about it. It does nothing
//! itself: the devices, the models and the clock are on the other side of [`Pipeline::step`].

use crate::audio::{sample_rate, window_size};
use crate::protocol::{Command, CommandView, Event, EventView};
use crate::single::Single;
use crate::text::{blank, is_blank};
use crate::vad::{
    extend, held, voice_loses_no_sample, Vad, VadState, MAX_SPEECH_SAMPLES, MIN_SPEECH_SAMPLES,
};
use vstd::prelude::*;
use vstd::slice::{slice_subrange, slice_to_vec};
use vstd::string::*;

verus! {

/// The most that is kept of the speech that is going on: 15 s.
pub const MAX_SPEECH_BUFFER: usize = 240000;

/// The stretch of speech that a preview is made from: 5 s.
pub const PARTIAL_WINDOW: usize = 80000;

/// The length of speech from which on previews are made less often: 2 s.
pub const PARTIAL_THRESHOLD: usize = 32000;

/// The pause between two previews of short speech, in milliseconds.
pub const PARTIAL_FAST_MS: u128 = 500;

/// The pause between two previews of long speech, in milliseconds.
pub const PARTIAL_SLOW_MS: u128 = 1000;

/// The shortest speech that is previewed is longer than this.
pub const PARTIAL_MIN: usize = 2048;

/// What is kept of the speech when it is over: 0.3 s.
pub const KEEP_SAMPLES: usize = 4800;

/// How many segments are saved for debugging.
pub const DEBUG_SAVE_SEGMENTS: u32 = 2;

/// The bit pattern of -3.0, the lowest confidence of a preview that is shown.
pub const MIN_CONFIDENCE_BITS: u32 = 0xc040_0000;

/// What the pipeline is doing.
#[derive(Clone, Copy, Debug, PartialEq, Eq, Structural)]
pub enum State {
    /// Nothing: audio is thrown away.
    Idle,
    /// Waiting for speech.
    Listening,
    /// Taking in speech.
    Speaking,
}

/// A recognized text that is to be translated.
#[derive(Debug)]
pub struct TranslationJob {
    pub text: String,
    pub confidence: Single,
    pub src_lang: String,
    /// The start command under which the text was heard.
    pub generation: u64,
}

/// A [`TranslationJob`] with its texts as sequences of characters.
pub struct JobView {
    pub text: Seq<char>,
    pub confidence: Single,
    pub src_lang: Seq<char>,
    pub generation: u64,
}

impl View for TranslationJob {
    type V = JobView;

    open spec fn view(&self) -> JobView {
        JobView {
            text: self.text@,
            confidence: self.confidence,
            src_lang: self.src_lang@,
            generation: self.generation,
        }
    }
}

/// A text with its translation.
#[derive(Debug)]
pub struct TranslationResult {
    pub text: String,
    pub confidence: Single,
    pub translated: String,
    pub src_lang: String,
    /// The start command under which the text was heard.
    pub generation: u64,
}

/// A [`TranslationResult`] with its texts as sequences of characters.
pub struct ResultView {
    pub text: Seq<char>,
    pub confidence: Single,
    pub translated: Seq<char>,
    pub src_lang: Seq<char>,
    pub generation: u64,
}

impl View for TranslationResult {
    type V = ResultView;

    open spec fn view(&self) -> ResultView {
        ResultView {
            text: self.text@,
            confidence: self.confidence,
            translated: self.translated@,
            src_lang: self.src_lang@,
            generation: self.generation,
        }
    }
}

impl TranslationJob {
    /// The result of this job; a text that could not be translated has an empty translation.
    pub fn finish(self, translated: Option<String>) -> (r: TranslationResult)
        ensures
            r@ == (ResultView {
                text: self.text@,
                confidence: self.confidence,
                translated: match translated {
                    Some(t) => t@,
                    None => Seq::<char>::empty(),
                },
                src_lang: self.src_lang@,
                generation: self.generation,
            }),
    {
        let translated = match translated {
            Some(t) => t,
            None => String::new(),
        };
        TranslationResult {
            text: self.text,
            confidence: self.confidence,
            translated,
            src_lang: self.src_lang,
            generation: self.generation,
        }
    }
}

/// What can happen to a pipeline.
pub enum Input<S> {
    /// A command came in.
    Command(Command),
    /// No command will come in any more.
    ControlClosed,
    /// A chunk of audio with its root mean square came in.
    Audio { chunk: Vec<S>, rms: Single },
    /// No audio will come in any more.
    AudioClosed,
    /// A translation is finished.
    Translated(TranslationResult),
    /// A further chunk of audio was waiting.
    Backlog { chunk: Vec<S>, rms: Single },
    /// No further chunk of audio was waiting; the last preview was made this long ago.
    BacklogEmpty { since_partial_ms: u128 },
    /// What was recognized, with its confidence, unless recognition failed.
    Heard(Option<(String, Single)>),
    /// No finished translation is waiting any more.
    NoMoreResults,
}

/// A recognized text as a sequence of characters.
pub open spec fn heard_view(heard: Option<(String, Single)>) -> Option<(Seq<char>, Single)> {
    match heard {
        Some((text, confidence)) => Some((text@, confidence)),
        None => None,
    }
}

/// An [`Input`] with its texts and samples as sequences.
pub enum InputView<S> {
    Command(CommandView),
    ControlClosed,
    Audio { chunk: Seq<S>, rms: Single },
    AudioClosed,
    Translated(ResultView),
    Backlog { chunk: Seq<S>, rms: Single },
    BacklogEmpty { since_partial_ms: u128 },
    Heard(Option<(Seq<char>, Single)>),
    NoMoreResults,
}

impl<S> View for Input<S> {
    type V = InputView<S>;

    open spec fn view(&self) -> InputView<S> {
        match self {
            Input::Command(c) => InputView::Command(c@),
            Input::ControlClosed => InputView::ControlClosed,
            Input::Audio { chunk, rms } => InputView::Audio { chunk: chunk@, rms: *rms },
            Input::AudioClosed => InputView::AudioClosed,
            Input::Translated(r) => InputView::Translated(r@),
            Input::Backlog { chunk, rms } => InputView::Backlog { chunk: chunk@, rms: *rms },
            Input::BacklogEmpty { since_partial_ms } => InputView::BacklogEmpty {
                since_partial_ms: *since_partial_ms,
            },
            Input::Heard(heard) => InputView::Heard(heard_view(*heard)),
            Input::NoMoreResults => InputView::NoMoreResults,
        }
    }
}

/// Something to be done that has no answer.
#[derive(Debug)]
pub enum Effect {
    /// Recognize speech in this language from now on.
    SetLanguage(String),
    /// Throw away the texts that wait for their translation.
    DropJobs,
    /// Load the translation model anew.
    ReloadTranslator,
    /// Throw away the chunks of audio that wait.
    DropAudio,
    /// Report an event.
    Emit(Event),
    /// Hand a text to the translator.
    Translate(TranslationJob),
}

/// An [`Effect`] with its texts as sequences of characters.
pub enum EffectView {
    SetLanguage(Seq<char>),
    DropJobs,
    ReloadTranslator,
    DropAudio,
    Emit(EventView),
    Translate(JobView),
}

impl View for Effect {
    type V = EffectView;

    open spec fn view(&self) -> EffectView {
        match self {
            Effect::SetLanguage(lang) => EffectView::SetLanguage(lang@),
            Effect::DropJobs => EffectView::DropJobs,
            Effect::ReloadTranslator => EffectView::ReloadTranslator,
            Effect::DropAudio => EffectView::DropAudio,
            Effect::Emit(event) => EffectView::Emit(event@),
            Effect::Translate(job) => EffectView::Translate(job@),
        }
    }
}

/// What has to be found out next.
#[derive(Debug)]
pub enum Ask<S> {
    /// Wait for a command, a chunk of audio or a finished translation.
    Wait,
    /// Look whether a further chunk of audio is waiting.
    NextBacklog,
    /// Recognize these samples for a preview.
    RecognizePartial { samples: Vec<S> },
    /// Recognize this segment; save it first if it has a number.
    RecognizeSegment { samples: Vec<S>, save_as: Option<u32> },
    /// Look whether a finished translation is waiting.
    NextResult,
    /// Nothing: the program is over.
    Exit,
}

/// An [`Ask`] with its samples as sequences.
pub enum AskView<S> {
    Wait,
    NextBacklog,
    RecognizePartial { samples: Seq<S> },
    RecognizeSegment { samples: Seq<S>, save_as: Option<u32> },
    NextResult,
    Exit,
}

impl<S> View for Ask<S> {
    type V = AskView<S>;

    open spec fn view(&self) -> AskView<S> {
        match self {
            Ask::Wait => AskView::Wait,
            Ask::NextBacklog => AskView::NextBacklog,
            Ask::RecognizePartial { samples } => AskView::RecognizePartial { samples: samples@ },
            Ask::RecognizeSegment { samples, save_as } => AskView::RecognizeSegment {
                samples: samples@,
                save_as: *save_as,
            },
            Ask::NextResult => AskView::NextResult,
            Ask::Exit => AskView::Exit,
        }
    }
}

/// The answer of a pipeline: what to do, in this order, and what to find out then.
#[derive(Debug)]
pub struct Reaction<S> {
    pub effects: Vec<Effect>,
    pub ask: Ask<S>,
}

/// A [`Reaction`] with its texts and samples as sequences.
#[verifier::ext_equal]
pub struct ReactionView<S> {
    pub effects: Seq<EffectView>,
    pub ask: AskView<S>,
}

impl<S> View for Reaction<S> {
    type V = ReactionView<S>;

    open spec fn view(&self) -> ReactionView<S> {
        ReactionView {
            effects: self.effects@.map_values(|e: Effect| e@),
            ask: self.ask@,
        }
    }
}

/// What a pipeline has asked for last.
enum Phase {
    Waiting,
    Backlog,
    Partial,
    Segment { len: usize },
    Results,
    Over,
}

/// What a pipeline has asked for last: the answer to it is the only input that it takes.
pub enum PhaseView {
    /// A command, a chunk of audio or a finished translation.
    Waiting,
    /// The chunks of audio that wait.
    Backlog,
    /// The text of a preview.
    Partial,
    /// The text of a segment of this length.
    Segment { len: nat },
    /// The finished translations that wait.
    Results,
    /// Nothing: the program is over.
    Over,
}

/// The state of a pipeline.
#[verifier::ext_equal]
pub struct PipelineState<S> {
    /// What it is doing.
    pub state: State,
    /// The language that is spoken.
    pub src_lang: Seq<char>,
    /// Whether it has been started at all.
    pub begun: bool,
    /// How often it has been started.
    pub generation: u64,
    /// The energy above which a chunk counts as voice.
    pub level: Single,
    /// The voice activity detector.
    pub vad: VadState<S>,
    /// The latest speech, from which previews are made.
    pub buffer: Seq<S>,
    /// How many segments there have been.
    pub segments: u32,
    /// What it has asked for.
    pub phase: PhaseView,
}

/// A status event.
pub open spec fn status(state: Seq<char>) -> EffectView {
    EffectView::Emit(EventView::Status { state })
}

/// The last `n` elements of `s`, or all of them if there are fewer.
pub open spec fn latest<A>(s: Seq<A>, n: int) -> Seq<A> {
    if s.len() > n {
        s.skip(s.len() - n)
    } else {
        s
    }
}

/// Whether a preview is due `ms` milliseconds after the last one.
pub open spec fn partial_due(len: nat, ms: u128) -> bool {
    &&& len > PARTIAL_MIN
    &&& ms >= if len >= PARTIAL_THRESHOLD {
        PARTIAL_SLOW_MS
    } else {
        PARTIAL_FAST_MS
    }
}

impl<S> PipelineState<S> {
    /// A pipeline that has not been started yet.
    pub open spec fn initial(level: Single) -> Self {
        PipelineState {
            state: State::Idle,
            src_lang: "auto"@,
            begun: false,
            generation: 0,
            level,
            vad: VadState::fresh(),
            buffer: seq![],
            segments: 0,
            phase: PhaseView::Waiting,
        }
    }

    /// The same with nothing heard.
    pub open spec fn silenced(self, state: State) -> Self {
        PipelineState { state, vad: VadState::fresh(), buffer: seq![], ..self }
    }

    /// The event for a finished translation, unless it belongs to an earlier start.
    pub open spec fn result_effects(self, r: ResultView) -> Seq<EffectView> {
        if r.generation == self.generation {
            seq![
                EffectView::Emit(
                    EventView::Final {
                        text: r.text,
                        translated: r.translated,
                        lang: r.src_lang,
                        confidence: Some(r.confidence),
                    },
                ),
            ]
        } else {
            seq![]
        }
    }

    /// After a start command.
    pub open spec fn started(self, src: Seq<char>) -> Self {
        PipelineState {
            src_lang: src,
            begun: true,
            generation: self.generation.wrapping_add(1),
            ..self.silenced(State::Listening)
        }
    }

    /// What a start command brings about: a new language is set, and unless it is the first
    /// start the translator starts over with it.
    pub open spec fn start_effects(self, src: Seq<char>) -> Seq<EffectView> {
        let switch = if src == self.src_lang {
            seq![]
        } else if !self.begun {
            seq![EffectView::SetLanguage(src)]
        } else {
            seq![
                EffectView::SetLanguage(src),
                EffectView::DropJobs,
                EffectView::ReloadTranslator,
            ]
        };
        switch + seq![EffectView::DropAudio, status("listening"@)]
    }

    /// Goes on to the next finished segment, or back to waiting if there is none. Speech that
    /// is over, or of which a segment was `cut` just now, is forgotten up to its last samples.
    pub open spec fn proceed(self, effects: Seq<EffectView>, cut: bool) -> (
        Self,
        ReactionView<S>,
    ) {
        if self.vad.pending.len() > 0 {
            let samples = self.vad.pending[0];
            let n = self.segments;
            (
                PipelineState {
                    vad: VadState { pending: self.vad.pending.drop_first(), ..self.vad },
                    segments: n.wrapping_add(1),
                    phase: PhaseView::Segment { len: samples.len() },
                    ..self
                },
                ReactionView {
                    effects,
                    ask: AskView::RecognizeSegment {
                        samples,
                        save_as: if n < DEBUG_SAVE_SEGMENTS {
                            Some(n)
                        } else {
                            None
                        },
                    },
                },
            )
        } else if self.state == State::Speaking && (cut || !self.vad.active) {
            (
                PipelineState {
                    state: State::Listening,
                    buffer: latest(self.buffer, KEEP_SAMPLES as int),
                    phase: PhaseView::Waiting,
                    ..self
                },
                ReactionView { effects: effects.push(status("listening"@)), ask: AskView::Wait },
            )
        } else {
            (
                PipelineState { phase: PhaseView::Waiting, ..self },
                ReactionView { effects, ask: AskView::Wait },
            )
        }
    }

    /// Takes in a chunk of audio.
    pub open spec fn after_audio(self, chunk: Seq<S>, rms: Single) -> (Self, ReactionView<S>) {
        let vad = self.vad.after_chunk(chunk, rms.above(self.level));
        if self.state == State::Idle {
            (self, ReactionView { effects: seq![], ask: AskView::Wait })
        } else if vad.active {
            (
                PipelineState {
                    state: State::Speaking,
                    vad,
                    buffer: self.buffer + chunk,
                    phase: PhaseView::Backlog,
                    ..self
                },
                ReactionView { effects: seq![], ask: AskView::NextBacklog },
            )
        } else {
            PipelineState {
                vad: if self.state == State::Speaking {
                    vad.flushed()
                } else {
                    vad
                },
                ..self
            }.proceed(seq![], false)
        }
    }

    /// Takes in a chunk of audio that was waiting behind another one.
    pub open spec fn after_backlog(self, chunk: Seq<S>, rms: Single) -> Self {
        PipelineState {
            vad: self.vad.after_chunk(chunk, rms.above(self.level)),
            buffer: self.buffer + chunk,
            ..self
        }
    }

    /// Goes on when no further chunk of audio is waiting.
    pub open spec fn after_last_chunk(self, ms: u128) -> (Self, ReactionView<S>) {
        let buffer = latest(self.buffer, MAX_SPEECH_BUFFER as int);
        let heard = PipelineState { buffer, ..self };
        if partial_due(buffer.len(), ms) {
            (
                PipelineState { phase: PhaseView::Partial, ..heard },
                ReactionView {
                    effects: seq![],
                    ask: AskView::RecognizePartial {
                        samples: latest(buffer, PARTIAL_WINDOW as int),
                    },
                },
            )
        } else {
            heard.proceed(seq![], false)
        }
    }

    /// The event for a preview, unless it is blank or too uncertain.
    pub open spec fn partial_effects(self, heard: Option<(Seq<char>, Single)>) -> Seq<EffectView> {
        match heard {
            Some((text, confidence)) => if !is_blank(text) && confidence.at_least(
                Single { bits: MIN_CONFIDENCE_BITS },
            ) {
                seq![
                    EffectView::Emit(
                        EventView::Partial {
                            text,
                            lang: self.src_lang,
                            confidence: Some(confidence),
                        },
                    ),
                ]
            } else {
                seq![]
            },
            None => seq![],
        }
    }

    /// The job for a segment, unless its text is blank.
    pub open spec fn segment_effects(self, heard: Option<(Seq<char>, Single)>) -> Seq<EffectView> {
        match heard {
            Some((text, confidence)) => if !is_blank(text) {
                seq![
                    EffectView::Translate(
                        JobView {
                            text,
                            confidence,
                            src_lang: self.src_lang,
                            generation: self.generation,
                        },
                    ),
                ]
            } else {
                seq![]
            },
            None => seq![],
        }
    }

    /// The same without the first `len` samples of the latest speech.
    pub open spec fn without_segment(self, len: nat) -> Self {
        PipelineState {
            buffer: if self.buffer.len() > len {
                self.buffer.skip(len as int)
            } else {
                seq![]
            },
            ..self
        }
    }

    /// After a command.
    pub open spec fn after_command(self, command: CommandView) -> (Self, ReactionView<S>) {
        match command {
            CommandView::Start { src, .. } => (
                self.started(src),
                ReactionView { effects: self.start_effects(src), ask: AskView::Wait },
            ),
            CommandView::Stop => (
                PipelineState { phase: PhaseView::Results, ..self.silenced(State::Idle) },
                ReactionView { effects: seq![], ask: AskView::NextResult },
            ),
            CommandView::Quit => (
                PipelineState { phase: PhaseView::Over, ..self },
                ReactionView { effects: seq![status("exiting"@)], ask: AskView::Exit },
            ),
        }
    }

    /// What an input does to a pipeline and what the pipeline answers; nothing if the input
    /// is no answer to what the pipeline has asked for.
    pub open spec fn step(self, input: InputView<S>) -> Option<(Self, ReactionView<S>)> {
        match (self.phase, input) {
            (PhaseView::Waiting, InputView::Command(command)) => Some(self.after_command(command)),
            (PhaseView::Waiting, InputView::ControlClosed) | (
                PhaseView::Waiting,
                InputView::AudioClosed,
            ) => Some(
                (
                    PipelineState { phase: PhaseView::Over, ..self },
                    ReactionView { effects: seq![], ask: AskView::Exit },
                ),
            ),
            (PhaseView::Waiting, InputView::Audio { chunk, rms }) => Some(
                self.after_audio(chunk, rms),
            ),
            (PhaseView::Waiting, InputView::Translated(r)) => Some(
                (self, ReactionView { effects: self.result_effects(r), ask: AskView::Wait }),
            ),
            (PhaseView::Backlog, InputView::Backlog { chunk, rms }) => Some(
                (
                    self.after_backlog(chunk, rms),
                    ReactionView { effects: seq![], ask: AskView::NextBacklog },
                ),
            ),
            (PhaseView::Backlog, InputView::BacklogEmpty { since_partial_ms }) => Some(
                self.after_last_chunk(since_partial_ms),
            ),
            (PhaseView::Partial, InputView::Heard(heard)) => Some(
                self.proceed(self.partial_effects(heard), false),
            ),
            (PhaseView::Segment { len }, InputView::Heard(heard)) => Some(
                self.without_segment(len).proceed(self.segment_effects(heard), true),
            ),
            (PhaseView::Results, InputView::Translated(r)) => Some(
                (self, ReactionView { effects: self.result_effects(r), ask: AskView::NextResult }),
            ),
            (PhaseView::Results, InputView::NoMoreResults) => Some(
                (
                    PipelineState { phase: PhaseView::Waiting, ..self },
                    ReactionView { effects: seq![status("idle"@)], ask: AskView::Wait },
                ),
            ),
            _ => None,
        }
    }

    /// What holds of every pipeline: an idle one has heard nothing, one that waits while speech
    /// is being taken in hears some, and what is kept of it is bounded.
    pub open spec fn valid(self) -> bool {
        &&& self.vad.valid()
        &&& self.state == State::Idle ==> self.vad == VadState::<S>::fresh() && self.buffer.len()
            == 0
        &&& !(self.phase is Backlog) ==> self.buffer.len() <= MAX_SPEECH_BUFFER
        &&& match self.phase {
            PhaseView::Waiting | PhaseView::Over => {
                &&& self.vad.pending.len() == 0
                &&& self.state == State::Speaking ==> self.vad.active
            },
            PhaseView::Results => self.state == State::Idle,
            PhaseView::Segment { .. } => self.state != State::Idle,
            PhaseView::Backlog | PhaseView::Partial => self.state == State::Speaking,
        }
    }
}

/// The main loop of the translator, for samples of type `S`.
pub struct Pipeline<S> {
    state: State,
    src_lang: String,
    begun: bool,
    generation: u64,
    vad: Vad<S>,
    speech_buffer: Vec<S>,
    segments: u32,
    phase: Phase,
}

impl<S: Copy> View for Pipeline<S> {
    type V = PipelineState<S>;

    closed spec fn view(&self) -> PipelineState<S> {
        PipelineState {
            state: self.state,
            src_lang: self.src_lang@,
            begun: self.begun,
            generation: self.generation,
            level: self.vad.level(),
            vad: self.vad@,
            buffer: self.speech_buffer@,
            segments: self.segments,
            phase: match self.phase {
                Phase::Waiting => PhaseView::Waiting,
                Phase::Backlog => PhaseView::Backlog,
                Phase::Partial => PhaseView::Partial,
                Phase::Segment { len } => PhaseView::Segment { len: len as nat },
                Phase::Results => PhaseView::Results,
                Phase::Over => PhaseView::Over,
            },
        }
    }
}

/// A status event.
fn status_event(state: &str) -> (r: Effect)
    ensures
        r@ == status(state@),
{
    Effect::Emit(Event::Status { state: String::from_str(state) })
}

/// Keeps the last `n` elements.
fn keep_latest<S: Copy>(buffer: &mut Vec<S>, n: usize)
    ensures
        final(buffer)@ == latest(old(buffer)@, n as int),
{
    let len: usize = buffer.len();
    if len > n {
        let mut rest = buffer.split_off(len - n);
        buffer.clear();
        buffer.append(&mut rest);
        assert(buffer@ =~= old(buffer)@.skip(len - n));
    }
}

/// An answer with no effects.
fn only<S>(ask: Ask<S>) -> (r: Reaction<S>)
    ensures
        r@ == (ReactionView { effects: Seq::<EffectView>::empty(), ask: ask@ }),
{
    let r = Reaction { effects: Vec::new(), ask };
    assert(r@.effects =~= Seq::<EffectView>::empty());
    r
}

/// The effects as sequences.
spec fn views(effects: Seq<Effect>) -> Seq<EffectView> {
    effects.map_values(|e: Effect| e@)
}

impl<S: Copy> Pipeline<S> {
    /// A pipeline that takes chunks with an energy above `threshold` for voice.
    ///
    /// The first thing to do for a new pipeline is to report that it is idle.
    pub fn new(threshold: Single) -> (r: (Self, Reaction<S>))
        ensures
            r.0@ == PipelineState::<S>::initial(threshold),
            r.0@.valid(),
            r.1@ == (ReactionView::<S> { effects: seq![status("idle"@)], ask: AskView::Wait }),
    {
        let pipeline = Pipeline {
            state: State::Idle,
            src_lang: String::from_str("auto"),
            begun: false,
            generation: 0,
            vad: Vad::new(threshold),
            speech_buffer: Vec::new(),
            segments: 0,
            phase: Phase::Waiting,
        };
        let effects: Vec<Effect> = vec![status_event("idle")];
        let reaction: Reaction<S> = Reaction { effects, ask: Ask::Wait };
        assert(reaction@.effects =~= seq![status("idle"@)]);
        assert(pipeline@ =~= PipelineState::<S>::initial(threshold));
        (pipeline, reaction)
    }

    /// What the pipeline is doing.
    pub fn state(&self) -> (r: State)
        ensures
            r == self@.state,
    {
        self.state
    }

    fn start(&mut self, src: String) -> (r: Reaction<S>)
        requires
            old(self)@.phase is Waiting,
        ensures
            final(self)@ == old(self)@.started(src@),
            r@ == (ReactionView::<S> { effects: old(self)@.start_effects(src@), ask: AskView::Wait }),
    {
        let ghost before = self@;
        let mut effects: Vec<Effect> = Vec::new();
        self.generation = self.generation.wrapping_add(1);
        if src != self.src_lang {
            effects.push(Effect::SetLanguage(src.clone()));
            if self.begun {
                effects.push(Effect::DropJobs);
                effects.push(Effect::ReloadTranslator);
            }
        }
        self.src_lang = src;
        self.begun = true;
        self.vad.reset();
        effects.push(Effect::DropAudio);
        self.speech_buffer.clear();
        self.state = State::Listening;
        effects.push(status_event("listening"));
        let r: Reaction<S> = Reaction { effects, ask: Ask::Wait };
        assert(r@.effects =~= before.start_effects(src@));
        assert(self@ =~= before.started(src@));
        r
    }

    fn stop(&mut self) -> (r: Reaction<S>)
        ensures
            final(self)@ == (PipelineState {
                phase: PhaseView::Results,
                ..old(self)@.silenced(State::Idle)
            }),
            r@ == (ReactionView::<S> { effects: seq![], ask: AskView::NextResult }),
    {
        self.state = State::Idle;
        self.vad.reset();
        self.speech_buffer.clear();
        self.phase = Phase::Results;
        only(Ask::NextResult)
    }

    fn results(&self, r: TranslationResult) -> (effects: Vec<Effect>)
        ensures
            views(effects@) == self@.result_effects(r@),
    {
        let mut effects: Vec<Effect> = Vec::new();
        if r.generation == self.generation {
            effects.push(
                Effect::Emit(
                    Event::Final {
                        text: r.text,
                        translated: r.translated,
                        lang: r.src_lang,
                        confidence: Some(r.confidence),
                    },
                ),
            );
        }
        assert(views(effects@) =~= self@.result_effects(r@));
        effects
    }

    fn proceed(&mut self, effects: Vec<Effect>, cut: bool) -> (r: Reaction<S>)
        requires
            old(self)@.vad.valid(),
        ensures
            ({
                let (after, reaction) = old(self)@.proceed(views(effects@), cut);
                final(self)@ == after && r@ == reaction
            }),
    {
        let ghost before = self@;
        let ghost already = views(effects@);
        let mut effects = effects;
        match self.vad.take_segment() {
            Some(segment) => {
                let samples = slice_to_vec(segment.samples());
                let n: u32 = self.segments;
                self.segments = n.wrapping_add(1);
                self.phase = Phase::Segment { len: samples.len() };
                let save_as: Option<u32> = if n < DEBUG_SAVE_SEGMENTS {
                    Some(n)
                } else {
                    None
                };
                assert(self@ =~= before.proceed(already, cut).0);
                Reaction { effects, ask: Ask::RecognizeSegment { samples, save_as } }
            },
            None => {
                self.phase = Phase::Waiting;
                if self.state == State::Speaking && (cut || !self.vad.is_speech()) {
                    self.state = State::Listening;
                    keep_latest(&mut self.speech_buffer, KEEP_SAMPLES);
                    effects.push(status_event("listening"));
                    assert(views(effects@) =~= already.push(status("listening"@)));
                }
                assert(self@ =~= before.proceed(already, cut).0);
                Reaction { effects, ask: Ask::Wait }
            },
        }
    }

    fn audio(&mut self, chunk: Vec<S>, rms: Single) -> (r: Reaction<S>)
        requires
            old(self)@.vad.valid(),
            old(self)@.phase is Waiting,
        ensures
            ({
                let (after, reaction) = old(self)@.after_audio(chunk@, rms);
                final(self)@ == after && r@ == reaction
            }),
    {
        if self.state == State::Idle {
            return only(Ask::Wait);
        }
        let was_speaking = self.state == State::Speaking;
        self.vad.accept_waveform(&chunk, rms);
        if self.vad.is_speech() {
            self.state = State::Speaking;
            extend(&mut self.speech_buffer, &chunk);
            self.phase = Phase::Backlog;
            only(Ask::NextBacklog)
        } else {
            if was_speaking {
                self.vad.flush();
            }
            let effects: Vec<Effect> = Vec::new();
            assert(views(effects@) =~= Seq::<EffectView>::empty());
            self.proceed(effects, false)
        }
    }

    fn backlog(&mut self, chunk: Vec<S>, rms: Single) -> (r: Reaction<S>)
        requires
            old(self)@.vad.valid(),
        ensures
            final(self)@ == old(self)@.after_backlog(chunk@, rms),
            r@ == (ReactionView::<S> { effects: seq![], ask: AskView::NextBacklog }),
    {
        self.vad.accept_waveform(&chunk, rms);
        extend(&mut self.speech_buffer, &chunk);
        only(Ask::NextBacklog)
    }

    fn last_chunk(&mut self, ms: u128) -> (r: Reaction<S>)
        requires
            old(self)@.vad.valid(),
        ensures
            ({
                let (after, reaction) = old(self)@.after_last_chunk(ms);
                final(self)@ == after && r@ == reaction
            }),
    {
        keep_latest(&mut self.speech_buffer, MAX_SPEECH_BUFFER);
        let len: usize = self.speech_buffer.len();
        let interval: u128 = if len >= (sample_rate() * 2) as usize {
            PARTIAL_SLOW_MS
        } else {
            PARTIAL_FAST_MS
        };
        if ms >= interval && len > window_size() * 4 {
            let samples = if len > PARTIAL_WINDOW {
                slice_to_vec(slice_subrange(&self.speech_buffer, len - PARTIAL_WINDOW, len))
            } else {
                slice_to_vec(&self.speech_buffer)
            };
            assert(samples@ =~= latest(self.speech_buffer@, PARTIAL_WINDOW as int));
            self.phase = Phase::Partial;
            only(Ask::RecognizePartial { samples })
        } else {
            let effects: Vec<Effect> = Vec::new();
            assert(views(effects@) =~= Seq::<EffectView>::empty());
            self.proceed(effects, false)
        }
    }

    fn heard_partial(&mut self, heard: Option<(String, Single)>) -> (r: Reaction<S>)
        requires
            old(self)@.vad.valid(),
        ensures
            ({
                let (after, reaction) = old(self)@.proceed(
                    old(self)@.partial_effects(heard_view(heard)),
                    false,
                );
                final(self)@ == after && r@ == reaction
            }),
    {
        let ghost what = heard_view(heard);
        let mut effects: Vec<Effect> = Vec::new();
        if let Some((text, confidence)) = heard {
            if !blank(text.as_str()) && confidence.ge(Single::from_bits(MIN_CONFIDENCE_BITS)) {
                effects.push(
                    Effect::Emit(
                        Event::Partial {
                            text,
                            lang: self.src_lang.clone(),
                            confidence: Some(confidence),
                        },
                    ),
                );
            }
        }
        assert(views(effects@) =~= self@.partial_effects(what));
        self.proceed(effects, false)
    }

    fn heard_segment(&mut self, len: usize, heard: Option<(String, Single)>) -> (r: Reaction<S>)
        requires
            old(self)@.vad.valid(),
        ensures
            ({
                let (after, reaction) = old(self)@.without_segment(len as nat).proceed(
                    old(self)@.segment_effects(heard_view(heard)),
                    true,
                );
                final(self)@ == after && r@ == reaction
            }),
    {
        let ghost what = heard_view(heard);
        let ghost before = self@;
        let mut effects: Vec<Effect> = Vec::new();
        if let Some((text, confidence)) = heard {
            if !blank(text.as_str()) {
                effects.push(
                    Effect::Translate(
                        TranslationJob {
                            text,
                            confidence,
                            src_lang: self.src_lang.clone(),
                            generation: self.generation,
                        },
                    ),
                );
            }
        }
        assert(views(effects@) =~= self@.segment_effects(what));
        if self.speech_buffer.len() > len {
            let mut rest = self.speech_buffer.split_off(len);
            self.speech_buffer.clear();
            self.speech_buffer.append(&mut rest);
        } else {
            self.speech_buffer.clear();
        }
        assert(self@.buffer =~= before.without_segment(len as nat).buffer);
        self.proceed(effects, true)
    }

    /// Takes in what has happened and answers with what has to be done about it.
    ///
    /// An input that is no answer to what was asked for last has no effect and no answer.
    pub fn step(&mut self, input: Input<S>) -> (r: Option<Reaction<S>>)
        requires
            old(self)@.valid(),
        ensures
            final(self)@.valid(),
            match r {
                Some(reaction) => old(self)@.step(input@) == Some((final(self)@, reaction@)),
                None => old(self)@.step(input@) is None && final(self)@ == old(self)@,
            },
    {
        proof {
            if old(self)@.step(input@) is Some {
                validity_is_kept(old(self)@, input@);
            }
        }
        match input {
            Input::Command(command) => match self.phase {
                Phase::Waiting => match command {
                    Command::Start { src, .. } => Some(self.start(src)),
                    Command::Stop => Some(self.stop()),
                    Command::Quit => {
                        let effects: Vec<Effect> = vec![status_event("exiting")];
                        let r: Reaction<S> = Reaction { effects, ask: Ask::Exit };
                        assert(r@.effects =~= seq![status("exiting"@)]);
                        self.phase = Phase::Over;
                        Some(r)
                    },
                },
                _ => None,
            },
            Input::ControlClosed | Input::AudioClosed => match self.phase {
                Phase::Waiting => {
                    self.phase = Phase::Over;
                    Some(only(Ask::Exit))
                },
                _ => None,
            },
            Input::Audio { chunk, rms } => match self.phase {
                Phase::Waiting => Some(self.audio(chunk, rms)),
                _ => None,
            },
            Input::Translated(result) => match self.phase {
                Phase::Waiting => Some(Reaction { effects: self.results(result), ask: Ask::Wait }),
                Phase::Results => Some(
                    Reaction { effects: self.results(result), ask: Ask::NextResult },
                ),
                _ => None,
            },
            Input::Backlog { chunk, rms } => match self.phase {
                Phase::Backlog => Some(self.backlog(chunk, rms)),
                _ => None,
            },
            Input::BacklogEmpty { since_partial_ms } => match self.phase {
                Phase::Backlog => Some(self.last_chunk(since_partial_ms)),
                _ => None,
            },
            Input::Heard(heard) => match self.phase {
                Phase::Partial => Some(self.heard_partial(heard)),
                Phase::Segment { len } => Some(self.heard_segment(len, heard)),
                _ => None,
            },
            Input::NoMoreResults => match self.phase {
                Phase::Results => {
                    self.phase = Phase::Waiting;
                    let effects: Vec<Effect> = vec![status_event("idle")];
                    let r: Reaction<S> = Reaction { effects, ask: Ask::Wait };
                    assert(r@.effects =~= seq![status("idle"@)]);
                    Some(r)
                },
                _ => None,
            },
        }
    }
}

/// No input makes a valid pipeline invalid.
pub proof fn validity_is_kept<S>(p: PipelineState<S>, input: InputView<S>)
    requires
        p.valid(),
    ensures
        match p.step(input) {
            Some((after, _)) => after.valid(),
            None => true,
        },
{
    match input {
        InputView::Audio { chunk, rms } => {
            crate::vad::validity_is_kept(p.vad, chunk, rms.above(p.level));
            let vad = p.vad.after_chunk(chunk, rms.above(p.level));
            crate::vad::validity_is_kept(vad, chunk, true);
        },
        InputView::Backlog { chunk, rms } => {
            crate::vad::validity_is_kept(p.vad, chunk, rms.above(p.level));
        },
        _ => {},
    }
}

/// An idle pipeline throws audio away: nothing changes and nothing is reported.
pub proof fn idle_hears_nothing<S>(p: PipelineState<S>, chunk: Seq<S>, rms: Single)
    requires
        p.state == State::Idle,
        p.phase is Waiting,
    ensures
        p.step(InputView::Audio { chunk, rms }) == Some(
            (p, ReactionView::<S> { effects: seq![], ask: AskView::Wait }),
        ),
{
}

/// A start command, and nothing else, changes the generation.
pub proof fn generations_count_starts<S>(p: PipelineState<S>, input: InputView<S>)
    requires
        p.step(input) is Some,
    ensures
        p.step(input).unwrap().0.generation == (match input {
            InputView::Command(CommandView::Start { .. }) => p.generation.wrapping_add(1),
            _ => p.generation,
        }),
        p.generation.wrapping_add(1) != p.generation,
{
}

/// A translation of something that was heard in another generation, that is under another start
/// command, is not reported.
pub proof fn stale_translations_are_dropped<S>(
    p: PipelineState<S>,
    heard: Option<(Seq<char>, Single)>,
    later: PipelineState<S>,
    result: ResultView,
)
    requires
        p.segment_effects(heard).len() > 0,
        p.segment_effects(heard)[0] matches EffectView::Translate(job) && result.generation
            == job.generation,
        later.generation != p.generation,
        later.phase is Waiting || later.phase is Results,
    ensures
        ({
            let (after, reaction) = later.step(InputView::Translated(result)).unwrap();
            &&& later.step(InputView::Translated(result)) is Some
            &&& after == later
            &&& reaction.effects.len() == 0
        }),
{
}

/// The translation of a segment is reported with the text, the language and the confidence
/// with which it was heard, as long as no start command has come in between.
pub proof fn translations_are_reported<S>(
    p: PipelineState<S>,
    text: Seq<char>,
    confidence: Single,
    translated: Seq<char>,
    later: PipelineState<S>,
)
    requires
        !is_blank(text),
        later.generation == p.generation,
        later.phase is Waiting || later.phase is Results,
    ensures
        ({
            let job = JobView {
                text,
                confidence,
                src_lang: p.src_lang,
                generation: p.generation,
            };
            let result = ResultView {
                text,
                confidence,
                translated,
                src_lang: p.src_lang,
                generation: job.generation,
            };
            &&& p.segment_effects(Some((text, confidence))) == seq![EffectView::Translate(job)]
            &&& later.step(InputView::Translated(result)) is Some
            &&& later.step(InputView::Translated(result)).unwrap().1.effects == seq![
                EffectView::Emit(
                    EventView::Final {
                        text,
                        translated,
                        lang: p.src_lang,
                        confidence: Some(confidence),
                    },
                ),
            ]
        }),
{
}

/// The states follow one another only like this: a start command leads to listening, a stop
/// command to idling, a chunk of audio in which speech goes on from listening to speaking, and
/// the end of speech or a recognized segment back.
pub proof fn states_follow_the_diagram<S>(p: PipelineState<S>, input: InputView<S>)
    requires
        p.valid(),
        p.step(input) is Some,
        p.step(input).unwrap().0.state != p.state,
    ensures
        ({
            let after = p.step(input).unwrap().0;
            match after.state {
                State::Idle => input == InputView::<S>::Command(CommandView::Stop),
                State::Speaking => {
                    &&& p.state == State::Listening
                    &&& input is Audio
                    &&& after.vad.active
                },
                State::Listening => {
                    ||| input matches InputView::Command(CommandView::Start { .. })
                    ||| {
                        &&& p.state == State::Speaking
                        &&& !after.vad.active || p.phase is Segment
                        &&& p.step(input).unwrap().1.effects.last() == status("listening"@)
                    }
                },
            }
        }),
{
}

/// Once the last finished segment has been recognized, speaking leads back to listening, and
/// that is reported, whether the segment was cut at a pause or after 10 s without one. Of what
/// was heard no more than 0.3 s are kept.
pub proof fn segments_lead_back_to_listening<S>(
    p: PipelineState<S>,
    heard: Option<(Seq<char>, Single)>,
)
    requires
        p.state == State::Speaking,
        p.phase is Segment,
        p.vad.pending.len() == 0,
    ensures
        ({
            let (after, reaction) = p.step(InputView::Heard(heard)).unwrap();
            &&& p.step(InputView::Heard(heard)) is Some
            &&& after.state == State::Listening
            &&& after.phase is Waiting
            &&& after.buffer.len() <= KEEP_SAMPLES
            &&& reaction.effects == p.segment_effects(heard).push(status("listening"@))
        }),
{
}

/// After the given chunks, each with its root mean square, which were waiting behind one
/// another.
pub open spec fn after_chunks<S>(p: PipelineState<S>, chunks: Seq<(Seq<S>, Single)>) -> PipelineState<
    S,
>
    decreases chunks.len(),
{
    if chunks.len() == 0 {
        p
    } else {
        after_chunks(p, chunks.drop_last()).after_backlog(chunks.last().0, chunks.last().1)
    }
}

/// The samples of the given chunks, in their order.
pub open spec fn samples_in<S>(chunks: Seq<(Seq<S>, Single)>) -> Seq<S>
    decreases chunks.len(),
{
    if chunks.len() == 0 {
        seq![]
    } else {
        samples_in(chunks.drop_last()) + chunks.last().0
    }
}

proof fn chunks_are_appended<S>(p: PipelineState<S>, chunks: Seq<(Seq<S>, Single)>)
    ensures
        after_chunks(p, chunks).buffer == p.buffer + samples_in(chunks),
        after_chunks(p, chunks).phase == p.phase,
    decreases chunks.len(),
{
    if chunks.len() > 0 {
        chunks_are_appended(p, chunks.drop_last());
        assert(after_chunks(p, chunks).buffer =~= p.buffer + samples_in(chunks));
    } else {
        assert(p.buffer + samples_in(chunks) =~= p.buffer);
    }
}

/// A preview is made from the latest 5 s of the speech, with all chunks in the order in which
/// they came: what was buffered, the chunk that was taken in, and the chunks that were waiting
/// behind it.
pub proof fn previews_keep_the_order<S>(
    p: PipelineState<S>,
    chunk: Seq<S>,
    rms: Single,
    waiting: Seq<(Seq<S>, Single)>,
    ms: u128,
    samples: Seq<S>,
)
    requires
        p.phase is Waiting,
        p.step(InputView::Audio { chunk, rms }).unwrap().1.ask is NextBacklog,
        after_chunks(p.step(InputView::Audio { chunk, rms }).unwrap().0, waiting).step(
            InputView::BacklogEmpty { since_partial_ms: ms },
        ).unwrap().1.ask == (AskView::RecognizePartial { samples }),
    ensures
        samples == latest(p.buffer + chunk + samples_in(waiting), PARTIAL_WINDOW as int),
{
    let first = p.step(InputView::Audio { chunk, rms }).unwrap().0;
    chunks_are_appended(first, waiting);
    let all = p.buffer + chunk + samples_in(waiting);
    assert(first.buffer == p.buffer + chunk);
    let kept = latest(all, MAX_SPEECH_BUFFER as int);
    assert(latest(kept, PARTIAL_WINDOW as int) =~= latest(all, PARTIAL_WINDOW as int));
}

/// Nothing follows the end of the program: whatever still comes in has no answer and changes
/// nothing. The program ends where that is asked for, and nowhere else.
pub proof fn nothing_follows_the_end<S>(p: PipelineState<S>, input: InputView<S>)
    ensures
        p.phase is Over ==> p.step(input) is None,
        p.step(input) matches Some((after, reaction)) ==> (after.phase is Over <==> reaction.ask
            == AskView::<S>::Exit),
        p.phase is Waiting ==> p.step(InputView::Command(CommandView::Quit)) == Some(
            (
                PipelineState { phase: PhaseView::Over, ..p },
                ReactionView::<S> { effects: seq![status("exiting"@)], ask: AskView::Exit },
            ),
        ),
{
}

/// Once stopped, a pipeline is idle, has forgotten what it heard, and says so after the last
/// translation that was waiting.
pub proof fn stop_silences<S>(p: PipelineState<S>)
    requires
        p.phase is Waiting,
    ensures
        ({
            let stopped = p.step(InputView::Command(CommandView::Stop)).unwrap().0;
            let after = stopped.step(InputView::NoMoreResults)->0;
            &&& after.0 == p.silenced(State::Idle)
            &&& after.1 == (ReactionView::<S> { effects: seq![status("idle"@)], ask: AskView::Wait })
        }),
{
}

/// A preview is made from more than 0.128 s and at most 5 s of the latest speech, never within
/// half a second of the last one, and never within a second if the speech has lasted 2 s.
pub proof fn previews_are_bounded<S>(p: PipelineState<S>, input: InputView<S>, samples: Seq<S>)
    requires
        p.step(input) is Some,
        p.step(input).unwrap().1.ask == (AskView::RecognizePartial { samples }),
    ensures
        PARTIAL_MIN < samples.len() <= PARTIAL_WINDOW,
        samples == latest(p.step(input).unwrap().0.buffer, PARTIAL_WINDOW as int),
        input matches InputView::BacklogEmpty { since_partial_ms } && since_partial_ms
            >= PARTIAL_FAST_MS && (p.step(input).unwrap().0.buffer.len() >= PARTIAL_THRESHOLD
            ==> since_partial_ms >= PARTIAL_SLOW_MS),
{
}

/// A segment that is to be recognized lasts at least 0.15 s and at most 10 s; the first two are
/// saved.
pub proof fn segments_are_bounded<S>(
    p: PipelineState<S>,
    input: InputView<S>,
    samples: Seq<S>,
    save_as: Option<u32>,
)
    requires
        p.valid(),
        p.step(input) is Some,
        p.step(input).unwrap().1.ask == (AskView::RecognizeSegment { samples, save_as }),
    ensures
        MIN_SPEECH_SAMPLES <= samples.len() <= MAX_SPEECH_SAMPLES,
        save_as == (if p.segments < DEBUG_SAVE_SEGMENTS {
            Some(p.segments)
        } else {
            None::<u32>
        }),
{
}

/// A start command sets a language exactly if it is another one, and starts the translator over
/// with it exactly if it is not the first start command.
pub proof fn language_switches_reload<S>(p: PipelineState<S>, src: Seq<char>)
    ensures
        p.start_effects(src).contains(EffectView::SetLanguage(src)) <==> src != p.src_lang,
        p.start_effects(src).contains(EffectView::ReloadTranslator) <==> src != p.src_lang
            && p.begun,
        p.start_effects(src).contains(EffectView::DropJobs) <==> p.start_effects(src).contains(
            EffectView::ReloadTranslator,
        ),
        p.start_effects(src).last() == status("listening"@),
        p.started(src).begun,
{
    let effects = p.start_effects(src);
    if src != p.src_lang {
        assert(effects[0] == EffectView::SetLanguage(src));
        if p.begun {
            assert(effects[1] == EffectView::DropJobs);
            assert(effects[2] == EffectView::ReloadTranslator);
        }
    }
}

/// The latest elements are the end of a sequence: as many as are wanted, or all there are.
pub proof fn the_latest_are_the_end<A>(s: Seq<A>, n: int)
    requires
        n >= 0,
    ensures
        latest(s, n).len() == if s.len() < n {
            s.len() as int
        } else {
            n
        },
        forall|i: int|
            0 <= i < latest(s, n).len() ==> latest(s, n)[latest(s, n).len() - 1 - i]
                == #[trigger] s[s.len() - 1 - i],
{
}

/// A new pipeline is idle, has not been started and has heard nothing.
pub proof fn new_pipelines_are_idle<S>(level: Single)
    ensures
        ({
            let p = PipelineState::<S>::initial(level);
            &&& p.state == State::Idle
            &&& p.src_lang == "auto"@
            &&& !p.begun
            &&& p.generation == 0
            &&& p.level == level
            &&& held(p.vad).len() == 0
            &&& !p.vad.active
            &&& p.buffer.len() == 0
            &&& p.segments == 0
            &&& p.phase is Waiting
            &&& p.valid()
        }),
{
}

/// What a pipeline has asked for last decides what it takes, and nothing else does: while it
/// waits, a command, a chunk, a translation or the end of either channel; behind a chunk, a
/// further one or that there is none; a text where one is to be recognized; and translations
/// or their end once it has been stopped.
pub proof fn answers_go_with_questions<S>(p: PipelineState<S>, input: InputView<S>)
    ensures
        p.step(input) is Some <==> match p.phase {
            PhaseView::Waiting => input is Command || input is ControlClosed || input is Audio
                || input is AudioClosed || input is Translated,
            PhaseView::Backlog => input is Backlog || input is BacklogEmpty,
            PhaseView::Partial => input is Heard,
            PhaseView::Segment { .. } => input is Heard,
            PhaseView::Results => input is Translated || input is NoMoreResults,
            PhaseView::Over => false,
        },
        p.step(input) matches Some((after, reaction)) ==> match reaction.ask {
            AskView::Wait => after.phase is Waiting,
            AskView::NextBacklog => after.phase is Backlog,
            AskView::RecognizePartial { .. } => after.phase is Partial,
            AskView::RecognizeSegment { samples, .. } => after.phase == (PhaseView::Segment {
                len: samples.len(),
            }),
            AskView::NextResult => after.phase is Results,
            AskView::Exit => after.phase is Over,
        },
{
}

/// What only a start command changes stays as it is otherwise: the language and the number of
/// starts. The threshold never changes, and the segments are counted as they are handed out.
pub proof fn settings_last_until_the_next_start<S>(p: PipelineState<S>, input: InputView<S>)
    requires
        p.step(input) is Some,
    ensures
        ({
            let (after, reaction) = p.step(input).unwrap();
            &&& after.level == p.level
            &&& !(input matches InputView::Command(CommandView::Start { .. })) ==> after.src_lang
                == p.src_lang && after.begun == p.begun && after.generation == p.generation
            &&& after.segments == if !(reaction.ask is RecognizeSegment) {
                p.segments as int
            } else if p.segments == u32::MAX {
                0
            } else {
                p.segments + 1
            }
        }),
{
}

/// A start command makes a pipeline listen in the language of the command, with nothing heard
/// before. Chunks that still wait are thrown away, and another language is handed on: to the
/// recognizer, and unless this is the first start to a translator that starts over.
pub proof fn a_start_begins_afresh<S>(p: PipelineState<S>, src: Seq<char>, tgt: Seq<char>)
    requires
        p.phase is Waiting,
    ensures
        ({
            let start = InputView::Command(CommandView::Start { src, tgt });
            let (after, reaction) = p.step(start).unwrap();
            let listening = EffectView::Emit(EventView::Status { state: "listening"@ });
            &&& p.step(start) is Some
            &&& after.state == State::Listening
            &&& after.src_lang == src
            &&& after.begun
            &&& after.generation == if p.generation == u64::MAX {
                0
            } else {
                p.generation + 1
            }
            &&& !after.vad.active
            &&& after.vad.silence == 0
            &&& held(after.vad).len() == 0
            &&& after.vad.pending.len() == 0
            &&& after.buffer.len() == 0
            &&& after.phase is Waiting
            &&& reaction.ask is Wait
            &&& src == p.src_lang ==> reaction.effects == seq![EffectView::DropAudio, listening]
            &&& src != p.src_lang && !p.begun ==> reaction.effects == seq![
                EffectView::SetLanguage(src),
                EffectView::DropAudio,
                listening,
            ]
            &&& src != p.src_lang && p.begun ==> reaction.effects == seq![
                EffectView::SetLanguage(src),
                EffectView::DropJobs,
                EffectView::ReloadTranslator,
                EffectView::DropAudio,
                listening,
            ]
        }),
{
    let start = InputView::Command(CommandView::Start { src, tgt });
    let effects = p.step(start).unwrap().1.effects;
    let listening = EffectView::Emit(EventView::Status { state: "listening"@ });
    if src == p.src_lang {
        assert(effects =~= seq![EffectView::DropAudio, listening]);
    } else if !p.begun {
        assert(effects =~= seq![EffectView::SetLanguage(src), EffectView::DropAudio, listening]);
    } else {
        assert(effects =~= seq![
            EffectView::SetLanguage(src),
            EffectView::DropJobs,
            EffectView::ReloadTranslator,
            EffectView::DropAudio,
            listening,
        ]);
    }
}

/// A stop command makes a pipeline idle at once, with nothing heard. It then hands out the
/// translations that are ready, and reports that it is idle when there are no more.
pub proof fn a_stop_forgets_what_was_heard<S>(p: PipelineState<S>)
    requires
        p.phase is Waiting,
    ensures
        ({
            let (stopped, reaction) = p.step(InputView::Command(CommandView::Stop)).unwrap();
            let (idle, last) = stopped.step(InputView::NoMoreResults).unwrap();
            &&& p.step(InputView::Command(CommandView::Stop)) is Some
            &&& stopped.step(InputView::NoMoreResults) is Some
            &&& stopped.state == State::Idle
            &&& !stopped.vad.active
            &&& stopped.vad.silence == 0
            &&& stopped.vad.pending.len() == 0
            &&& held(stopped.vad).len() == 0
            &&& stopped.buffer.len() == 0
            &&& reaction.effects.len() == 0
            &&& reaction.ask is NextResult
            &&& idle == (PipelineState { phase: PhaseView::Waiting, ..stopped })
            &&& last.effects == seq![EffectView::Emit(EventView::Status { state: "idle"@ })]
            &&& last.ask is Wait
        }),
{
}

/// A quit command ends the program and says so; a channel that is closed ends it silently.
/// What was heard stays as it is.
pub proof fn quitting_is_announced<S>(p: PipelineState<S>)
    requires
        p.phase is Waiting,
    ensures
        ({
            let (quit, announced) = p.step(InputView::Command(CommandView::Quit)).unwrap();
            let (closed, silent) = p.step(InputView::ControlClosed).unwrap();
            &&& p.step(InputView::Command(CommandView::Quit)) is Some
            &&& p.step(InputView::ControlClosed) is Some
            &&& quit == (PipelineState { phase: PhaseView::Over, ..p })
            &&& announced.effects == seq![EffectView::Emit(EventView::Status { state: "exiting"@ })]
            &&& announced.ask is Exit
            &&& closed == quit
            &&& silent.effects.len() == 0
            &&& silent.ask is Exit
            &&& p.step(InputView::AudioClosed) == p.step(InputView::ControlClosed)
        }),
{
}

/// A translation changes nothing in a pipeline, whether it waits or has just been stopped. It
/// is reported, with all that belongs to it, exactly if the last start command is the one under
/// which its text was heard.
pub proof fn current_translations_are_reported<S>(p: PipelineState<S>, r: ResultView)
    requires
        p.phase is Waiting || p.phase is Results,
    ensures
        ({
            let (after, reaction) = p.step(InputView::Translated(r)).unwrap();
            let report = EffectView::Emit(
                EventView::Final {
                    text: r.text,
                    translated: r.translated,
                    lang: r.src_lang,
                    confidence: Some(r.confidence),
                },
            );
            &&& p.step(InputView::Translated(r)) is Some
            &&& after == p
            &&& r.generation == p.generation ==> reaction.effects == seq![report]
            &&& r.generation != p.generation ==> reaction.effects.len() == 0
            &&& p.phase is Waiting ==> reaction.ask is Wait
            &&& p.phase is Results ==> reaction.ask is NextResult
        }),
{
}

/// While it is not idle, a pipeline hands every chunk that comes in to the detector. If speech
/// goes on then, it is speaking, the chunk is appended to the latest speech, and the chunks
/// that wait behind it come next; nothing is reported yet.
pub proof fn speech_is_taken_in<S>(p: PipelineState<S>, chunk: Seq<S>, rms: Single)
    requires
        p.phase is Waiting,
        p.state != State::Idle,
        p.vad.after_chunk(chunk, rms.above(p.level)).active,
    ensures
        ({
            let (after, reaction) = p.step(InputView::Audio { chunk, rms }).unwrap();
            &&& p.step(InputView::Audio { chunk, rms }) is Some
            &&& after.state == State::Speaking
            &&& after.vad == p.vad.after_chunk(chunk, rms.above(p.level))
            &&& after.buffer == p.buffer + chunk
            &&& reaction.effects.len() == 0
            &&& reaction.ask is NextBacklog
        }),
{
}

/// Voice makes a listening pipeline speak.
pub proof fn voice_starts_speaking<S>(p: PipelineState<S>, chunk: Seq<S>, rms: Single)
    requires
        p.phase is Waiting,
        p.state != State::Idle,
        rms.above(p.level),
    ensures
        p.step(InputView::Audio { chunk, rms }) is Some,
        p.step(InputView::Audio { chunk, rms }).unwrap().0.state == State::Speaking,
        p.step(InputView::Audio { chunk, rms }).unwrap().0.vad.active,
        p.step(InputView::Audio { chunk, rms }).unwrap().0.buffer == p.buffer + chunk,
        held(p.step(InputView::Audio { chunk, rms }).unwrap().0.vad) == held(p.vad) + chunk,
{
    voice_loses_no_sample(p.vad, chunk);
}

/// A chunk after which no speech goes on is not appended to the latest speech. If the detector
/// has finished segments, the oldest one is to be recognized next. If it has none, speaking
/// leads back to listening, which is reported, with the last 0.3 s of the speech kept, and
/// listening goes on silently.
pub proof fn silence_ends_speaking<S>(p: PipelineState<S>, chunk: Seq<S>, rms: Single)
    requires
        p.valid(),
        p.phase is Waiting,
        p.state != State::Idle,
        !p.vad.after_chunk(chunk, rms.above(p.level)).active,
    ensures
        ({
            let vad = p.vad.after_chunk(chunk, rms.above(p.level));
            let (after, reaction) = p.step(InputView::Audio { chunk, rms }).unwrap();
            &&& p.step(InputView::Audio { chunk, rms }) is Some
            &&& if vad.pending.len() > 0 {
                &&& after.state == p.state
                &&& after.vad == (VadState { pending: vad.pending.drop_first(), ..vad })
                &&& after.buffer == p.buffer
                &&& reaction.effects.len() == 0
                &&& reaction.ask matches AskView::RecognizeSegment { samples, .. } && samples
                    == vad.pending[0]
            } else {
                &&& after.state == State::Listening
                &&& after.vad == vad
                &&& reaction.ask is Wait
                &&& if p.state == State::Speaking {
                    &&& after.buffer == latest(p.buffer, 4800)
                    &&& reaction.effects == seq![
                        EffectView::Emit(EventView::Status { state: "listening"@ }),
                    ]
                } else {
                    &&& after.buffer == p.buffer
                    &&& reaction.effects.len() == 0
                }
            }
        }),
{
    let vad = p.vad.after_chunk(chunk, rms.above(p.level));
    crate::vad::validity_is_kept(p.vad, chunk, rms.above(p.level));
    assert(vad.flushed() =~= vad);
    let empty: Seq<EffectView> = seq![];
    let listening = EffectView::Emit(EventView::Status { state: "listening"@ });
    assert(empty.push(listening) =~= seq![listening]);
}

/// A chunk that was waiting is taken in exactly as one that was not: by the detector, with the
/// same threshold, and at the end of the latest speech. Nothing else changes.
pub proof fn waiting_chunks_reach_the_detector<S>(p: PipelineState<S>, chunk: Seq<S>, rms: Single)
    requires
        p.phase is Backlog,
    ensures
        ({
            let (after, reaction) = p.step(InputView::Backlog { chunk, rms }).unwrap();
            &&& p.step(InputView::Backlog { chunk, rms }) is Some
            &&& after.vad == p.vad.after_chunk(chunk, rms.above(p.level))
            &&& after.buffer == p.buffer + chunk
            &&& after.state == p.state
            &&& reaction.effects.len() == 0
            &&& reaction.ask is NextBacklog
        }),
        ({
            let waiting = PipelineState { phase: PhaseView::Waiting, ..p };
            let queued = p.step(InputView::Backlog { chunk, rms }).unwrap().0;
            let direct = waiting.step(InputView::Audio { chunk, rms }).unwrap().0;
            p.state != State::Idle && p.vad.after_chunk(chunk, rms.above(p.level)).active
                ==> queued.vad == direct.vad && queued.buffer == direct.buffer
        }),
{
}

/// After the given chunks, each with its root mean square, have been taken in one behind the
/// other.
pub open spec fn after_waiting<S>(
    p: PipelineState<S>,
    chunks: Seq<(Seq<S>, Single)>,
) -> PipelineState<S>
    decreases chunks.len(),
{
    if chunks.len() == 0 {
        p
    } else {
        let (chunk, rms) = chunks.last();
        after_waiting(p, chunks.drop_last()).step(InputView::Backlog { chunk, rms }).unwrap().0
    }
}

proof fn waiting_speech_is_held<S>(p: PipelineState<S>, chunks: Seq<(Seq<S>, Single)>)
    requires
        p.phase is Backlog,
        p.vad.active,
        forall|i: int| 0 <= i < chunks.len() ==> (#[trigger] chunks[i]).1.above(p.level),
    ensures
        after_waiting(p, chunks).phase is Backlog,
        after_waiting(p, chunks).level == p.level,
        after_waiting(p, chunks).vad.active,
        held(after_waiting(p, chunks).vad) == held(p.vad) + samples_in(chunks),
        after_waiting(p, chunks).buffer == p.buffer + samples_in(chunks),
    decreases chunks.len(),
{
    if chunks.len() == 0 {
        assert(held(p.vad) + samples_in(chunks) =~= held(p.vad));
        assert(p.buffer + samples_in(chunks) =~= p.buffer);
    } else {
        let init = chunks.drop_last();
        assert forall|i: int| 0 <= i < init.len() implies (#[trigger] init[i]).1.above(p.level) by {
            assert(chunks[i].1.above(p.level));
        }
        waiting_speech_is_held(p, init);
        let before = after_waiting(p, init);
        assert(chunks[chunks.len() - 1].1.above(p.level));
        voice_loses_no_sample(before.vad, chunks.last().0);
        assert(held(p.vad) + samples_in(init) + chunks.last().0 =~= held(p.vad) + samples_in(
            chunks,
        ));
        assert(p.buffer + samples_in(init) + chunks.last().0 =~= p.buffer + samples_in(chunks));
    }
}

/// No sample of voiced chunks is lost, repeated or moved, however many of them wait behind one
/// another: the detector holds what it held before and all chunks in their order, and so does
/// the latest speech.
pub proof fn queued_speech_loses_no_sample<S>(
    p: PipelineState<S>,
    chunk: Seq<S>,
    rms: Single,
    waiting: Seq<(Seq<S>, Single)>,
)
    requires
        p.phase is Waiting,
        p.state != State::Idle,
        rms.above(p.level),
        forall|i: int| 0 <= i < waiting.len() ==> (#[trigger] waiting[i]).1.above(p.level),
    ensures
        ({
            let first = p.step(InputView::Audio { chunk, rms }).unwrap().0;
            let after = after_waiting(first, waiting);
            &&& after.phase is Backlog
            &&& after.vad.active
            &&& held(after.vad) == held(p.vad) + chunk + samples_in(waiting)
            &&& after.buffer == p.buffer + chunk + samples_in(waiting)
        }),
{
    let first = p.step(InputView::Audio { chunk, rms }).unwrap().0;
    voice_loses_no_sample(p.vad, chunk);
    waiting_speech_is_held(first, waiting);
}

/// When no further chunk waits, a preview of the last 5 s is asked for exactly if more than
/// 0.128 s have been heard and half a second has passed since the last preview, or a whole one
/// once the speech lasts 2 s. Otherwise things go on as after a preview of which nothing came.
/// Of the speech the last 15 s are kept, and nothing is reported for that.
pub proof fn previews_are_made_in_time<S>(p: PipelineState<S>, ms: u128)
    requires
        p.phase is Backlog,
    ensures
        ({
            let input = InputView::BacklogEmpty { since_partial_ms: ms };
            let (after, reaction) = p.step(input).unwrap();
            let kept = latest(p.buffer, 240000);
            let listening = PipelineState { buffer: kept, phase: PhaseView::Partial, ..p };
            &&& p.step(input) is Some
            &&& if 2048 < kept.len() < 32000 && ms >= 500 || kept.len() >= 32000 && ms >= 1000 {
                &&& reaction.ask == (AskView::RecognizePartial { samples: latest(kept, 80000) })
                &&& reaction.effects.len() == 0
                &&& after == listening
            } else {
                p.step(input) == listening.step(InputView::Heard(None))
            }
        }),
{
}

/// A preview that is not blank and whose confidence is at least -3.0 is reported before
/// anything else, however many segments there have been; besides that, all is as if nothing had
/// come of the preview.
pub proof fn certain_previews_are_shown<S>(
    p: PipelineState<S>,
    text: Seq<char>,
    confidence: Single,
)
    requires
        p.phase is Partial,
        !is_blank(text),
        confidence.at_least(Single { bits: 0xc040_0000 }),
    ensures
        ({
            let (after, reaction) = p.step(InputView::Heard(Some((text, confidence)))).unwrap();
            let (quiet_after, quiet) = p.step(InputView::Heard(None)).unwrap();
            let preview = EffectView::Emit(
                EventView::Partial { text, lang: p.src_lang, confidence: Some(confidence) },
            );
            &&& p.step(InputView::Heard(Some((text, confidence)))) is Some
            &&& reaction.effects[0] == preview
            &&& reaction.effects == seq![preview] + quiet.effects
            &&& reaction.ask == quiet.ask
            &&& after == quiet_after
        }),
{
    let preview = EffectView::Emit(
        EventView::Partial { text, lang: p.src_lang, confidence: Some(confidence) },
    );
    let reaction = p.step(InputView::Heard(Some((text, confidence)))).unwrap().1;
    let quiet = p.step(InputView::Heard(None)).unwrap().1;
    assert(reaction.effects =~= seq![preview] + quiet.effects);
}

/// A preview that is blank, or whose confidence is not at least -3.0, is as if nothing had come
/// of it.
pub proof fn doubtful_previews_are_not_shown<S>(
    p: PipelineState<S>,
    text: Seq<char>,
    confidence: Single,
)
    requires
        p.phase is Partial,
        is_blank(text) || !confidence.at_least(Single { bits: 0xc040_0000 }),
    ensures
        p.step(InputView::Heard(Some((text, confidence)))) == p.step(InputView::Heard(None)),
{
}

/// After a preview of which nothing came, the oldest finished segment is to be recognized if
/// there is one, and leaves the detector. If there is none, a pipeline whose detector hears
/// speech just waits on; otherwise it listens again, which it reports, and keeps the last 0.3 s
/// of the speech.
pub proof fn previews_lead_to_segments<S>(p: PipelineState<S>)
    requires
        p.phase is Partial,
        p.state == State::Speaking,
    ensures
        ({
            let (after, reaction) = p.step(InputView::Heard(None)).unwrap();
            &&& p.step(InputView::Heard(None)) is Some
            &&& if p.vad.pending.len() > 0 {
                &&& after.state == State::Speaking
                &&& after.buffer == p.buffer
                &&& after.vad == (VadState { pending: p.vad.pending.drop_first(), ..p.vad })
                &&& reaction.effects.len() == 0
                &&& reaction.ask matches AskView::RecognizeSegment { samples, .. } && samples
                    == p.vad.pending[0]
            } else {
                &&& after.vad == p.vad
                &&& reaction.ask is Wait
                &&& if p.vad.active {
                    &&& after.state == State::Speaking
                    &&& after.buffer == p.buffer
                    &&& reaction.effects.len() == 0
                } else {
                    &&& after.state == State::Listening
                    &&& after.buffer == latest(p.buffer, 4800)
                    &&& reaction.effects == seq![
                        EffectView::Emit(EventView::Status { state: "listening"@ }),
                    ]
                }
            }
        }),
{
    let empty: Seq<EffectView> = seq![];
    let listening = EffectView::Emit(EventView::Status { state: "listening"@ });
    assert(empty.push(listening) =~= seq![listening]);
}

/// The text of a segment, unless it is blank, is handed to the translator before anything else,
/// with the language and under the start command under which it was heard; besides that, all is
/// as if nothing had been recognized.
pub proof fn segments_are_translated<S>(p: PipelineState<S>, text: Seq<char>, confidence: Single)
    requires
        p.phase is Segment,
    ensures
        ({
            let (after, reaction) = p.step(InputView::Heard(Some((text, confidence)))).unwrap();
            let (quiet_after, quiet) = p.step(InputView::Heard(None)).unwrap();
            let job = EffectView::Translate(
                JobView {
                    text,
                    confidence,
                    src_lang: p.src_lang,
                    generation: p.generation,
                },
            );
            &&& p.step(InputView::Heard(Some((text, confidence)))) is Some
            &&& is_blank(text) ==> reaction == quiet
            &&& !is_blank(text) ==> reaction.effects == seq![job] + quiet.effects
            &&& reaction.ask == quiet.ask
            &&& after == quiet_after
        }),
{
    let job = EffectView::Translate(
        JobView { text, confidence, src_lang: p.src_lang, generation: p.generation },
    );
    let reaction = p.step(InputView::Heard(Some((text, confidence)))).unwrap().1;
    let quiet = p.step(InputView::Heard(None)).unwrap().1;
    if !is_blank(text) {
        assert(reaction.effects =~= seq![job] + quiet.effects);
    }
}

/// When a segment has been recognized, as much is taken from the front of the latest speech as
/// the segment is long, or all if there is no more. Then the next finished segment is to be
/// recognized, if there is one, and leaves the detector. If there is none, a pipeline that was
/// speaking listens again, which it reports, and keeps the last 0.3 s of what is left.
pub proof fn segments_follow_one_another<S>(p: PipelineState<S>, len: nat)
    requires
        p.phase == (PhaseView::Segment { len }),
    ensures
        ({
            let (after, reaction) = p.step(InputView::Heard(None)).unwrap();
            let rest = if len < p.buffer.len() {
                p.buffer.subrange(len as int, p.buffer.len() as int)
            } else {
                Seq::<S>::empty()
            };
            &&& p.step(InputView::Heard(None)) is Some
            &&& if p.vad.pending.len() > 0 {
                &&& after.state == p.state
                &&& after.buffer == rest
                &&& after.vad == (VadState { pending: p.vad.pending.drop_first(), ..p.vad })
                &&& reaction.effects.len() == 0
                &&& reaction.ask matches AskView::RecognizeSegment { samples, .. } && samples
                    == p.vad.pending[0]
            } else {
                &&& after.vad == p.vad
                &&& reaction.ask is Wait
                &&& if p.state == State::Speaking {
                    &&& after.state == State::Listening
                    &&& after.buffer == latest(rest, 4800)
                    &&& reaction.effects == seq![
                        EffectView::Emit(EventView::Status { state: "listening"@ }),
                    ]
                } else {
                    &&& after.state == p.state
                    &&& after.buffer == rest
                    &&& reaction.effects.len() == 0
                }
            }
        }),
{
    let empty: Seq<EffectView> = seq![];
    let listening = EffectView::Emit(EventView::Status { state: "listening"@ });
    assert(empty.push(listening) =~= seq![listening]);
    if len < p.buffer.len() {
        assert(p.buffer.skip(len as int) =~= p.buffer.subrange(
            len as int,
            p.buffer.len() as int,
        ));
    }
}

/// The pipeline after the given answers about its segments, and what it asks for on the way.
pub open spec fn after_answers<S>(
    p: PipelineState<S>,
    answers: Seq<Option<(Seq<char>, Single)>>,
) -> (PipelineState<S>, Seq<AskView<S>>)
    decreases answers.len(),
{
    if answers.len() == 0 {
        (p, seq![])
    } else {
        let (before, asks) = after_answers(p, answers.drop_last());
        let (after, reaction) = before.step(InputView::Heard(answers.last())).unwrap();
        (after, asks.push(reaction.ask))
    }
}

/// All finished segments are recognized, each once and in the order in which they were
/// finished, whatever is heard in them.
pub proof fn all_segments_are_recognized<S>(
    p: PipelineState<S>,
    answers: Seq<Option<(Seq<char>, Single)>>,
)
    requires
        p.phase is Segment,
        answers.len() <= p.vad.pending.len(),
    ensures
        ({
            let (after, asks) = after_answers(p, answers);
            &&& after.phase is Segment
            &&& after.vad == (VadState {
                pending: p.vad.pending.skip(answers.len() as int),
                ..p.vad
            })
            &&& asks.len() == answers.len()
            &&& forall|i: int|
                0 <= i < asks.len() ==> (#[trigger] asks[i] matches AskView::RecognizeSegment {
                    samples,
                    ..
                } && samples == p.vad.pending[i])
        }),
    decreases answers.len(),
{
    if answers.len() == 0 {
        assert(p.vad.pending.skip(0) =~= p.vad.pending);
    } else {
        all_segments_are_recognized(p, answers.drop_last());
        let (before, asks) = after_answers(p, answers.drop_last());
        let n = answers.len() - 1;
        assert(before.vad.pending[0] == p.vad.pending[n]);
        assert(before.vad.pending.drop_first() =~= p.vad.pending.skip(n + 1));
    }
}

/// The first two segments are to be saved, under the numbers 0 and 1, and no other is.
pub proof fn two_segments_are_saved<S>(p: PipelineState<S>, input: InputView<S>)
    requires
        p.step(input) is Some,
    ensures
        p.step(input).unwrap().1.ask matches AskView::RecognizeSegment { save_as, .. } ==> save_as
            == if p.segments == 0 {
            Some(0u32)
        } else if p.segments == 1 {
            Some(1u32)
        } else {
            None
        },
{
}

/// What a pipeline sees of an input is all that is in it.
pub proof fn inputs_are_seen_whole<S>(
    chunk: Vec<S>,
    rms: Single,
    command: Command,
    result: TranslationResult,
    ms: u128,
    text: String,
)
    ensures
        (Input::Audio { chunk, rms })@ == (InputView::Audio { chunk: chunk@, rms }),
        (Input::Backlog { chunk, rms })@ == (InputView::Backlog { chunk: chunk@, rms }),
        Input::<S>::Command(command)@ == InputView::<S>::Command(command@),
        Input::<S>::Translated(result)@ == InputView::<S>::Translated(
            ResultView {
                text: result.text@,
                confidence: result.confidence,
                translated: result.translated@,
                src_lang: result.src_lang@,
                generation: result.generation,
            },
        ),
        (Input::<S>::BacklogEmpty { since_partial_ms: ms })@ == (InputView::<S>::BacklogEmpty {
            since_partial_ms: ms,
        }),
        Input::<S>::Heard(Some((text, rms)))@ == InputView::<S>::Heard(Some((text@, rms))),
        Input::<S>::Heard(None)@ == InputView::<S>::Heard(None),
        Input::<S>::ControlClosed@ == InputView::<S>::ControlClosed,
        Input::<S>::AudioClosed@ == InputView::<S>::AudioClosed,
        Input::<S>::NoMoreResults@ == InputView::<S>::NoMoreResults,
{
}

/// What is said of an answer of a pipeline is said of all that is in it.
pub proof fn reactions_are_seen_whole<S>(
    reaction: Reaction<S>,
    samples: Vec<S>,
    save_as: Option<u32>,
    lang: String,
    event: Event,
    job: TranslationJob,
)
    ensures
        reaction@.ask == reaction.ask@,
        reaction@.effects.len() == reaction.effects@.len(),
        forall|i: int|
            0 <= i < reaction.effects@.len() ==> #[trigger] reaction@.effects[i]
                == reaction.effects@[i]@,
        (Ask::RecognizePartial { samples })@ == (AskView::RecognizePartial { samples: samples@ }),
        (Ask::RecognizeSegment { samples, save_as })@ == (AskView::RecognizeSegment {
            samples: samples@,
            save_as,
        }),
        Ask::<S>::Wait@ == AskView::<S>::Wait,
        Ask::<S>::NextBacklog@ == AskView::<S>::NextBacklog,
        Ask::<S>::NextResult@ == AskView::<S>::NextResult,
        Ask::<S>::Exit@ == AskView::<S>::Exit,
        Effect::SetLanguage(lang)@ == EffectView::SetLanguage(lang@),
        Effect::DropJobs@ == EffectView::DropJobs,
        Effect::ReloadTranslator@ == EffectView::ReloadTranslator,
        Effect::DropAudio@ == EffectView::DropAudio,
        Effect::Emit(event)@ == EffectView::Emit(event@),
        Effect::Translate(job)@ == EffectView::Translate(
            JobView {
                text: job.text@,
                confidence: job.confidence,
                src_lang: job.src_lang@,
                generation: job.generation,
            },
        ),
{
}

/// A finished job has the text, the confidence, the language and the start command of the job
/// itself; its translation is what came of it, or empty if nothing did.
pub proof fn finished_jobs_keep_what_was_heard(
    job: TranslationJob,
    translated: Option<String>,
    r: TranslationResult,
)
    requires
        call_ensures(TranslationJob::finish, (job, translated), r),
    ensures
        r.text@ == job.text@,
        r.confidence == job.confidence,
        r.src_lang@ == job.src_lang@,
        r.generation == job.generation,
        translated matches Some(t) ==> r.translated@ == t@,
        translated is None ==> r.translated@.len() == 0,
{
}

} // verus!
