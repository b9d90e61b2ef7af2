//! Voice activity detection: cuts a stream of audio chunks into speech segments.
//!
//! A chunk counts as voice when its energy is above the threshold. Speech starts with the
//! first voiced chunk and ends after [`MAX_SILENCE_FRAMES`] chunks in a row without voice;
//! speech that goes on without a pause is cut every [`MAX_SPEECH_SAMPLES`] samples, and no
//! segment is longer than that.

use crate::single::Single;
use vstd::prelude::*;
use vstd::slice::slice_to_vec;

verus! {

/// The shortest segment that is handed out: 0.15 s.
pub const MIN_SPEECH_SAMPLES: usize = 2400;

/// How many chunks without voice end a segment: half a second of 512-sample chunks.
pub const MAX_SILENCE_FRAMES: usize = 15;

/// The length of continuous speech that forces a cut, and of the longest segment: 10 s.
pub const MAX_SPEECH_SAMPLES: usize = 160000;

/// The trailing silence that is cut off a segment.
pub const TRIM_SAMPLES: usize = 7680;

/// The pieces of [`MAX_SPEECH_SAMPLES`] samples that `s` begins with.
pub open spec fn full_pieces<S>(s: Seq<S>) -> Seq<Seq<S>>
    decreases s.len(),
{
    if s.len() >= MAX_SPEECH_SAMPLES {
        seq![s.take(MAX_SPEECH_SAMPLES as int)] + full_pieces(s.skip(MAX_SPEECH_SAMPLES as int))
    } else {
        seq![]
    }
}

/// What follows the full pieces of `s`.
pub open spec fn remainder<S>(s: Seq<S>) -> Seq<S>
    decreases s.len(),
{
    if s.len() >= MAX_SPEECH_SAMPLES {
        remainder(s.skip(MAX_SPEECH_SAMPLES as int))
    } else {
        s
    }
}

/// The segments of speech that is over: its full pieces, and what follows them if that is long
/// enough.
pub open spec fn segments_of<S>(s: Seq<S>) -> Seq<Seq<S>> {
    if remainder(s).len() >= MIN_SPEECH_SAMPLES {
        full_pieces(s).push(remainder(s))
    } else {
        full_pieces(s)
    }
}

/// What a detector has seen, as far as it matters for what follows.
#[verifier::ext_equal]
pub struct VadState<S> {
    /// Speech is going on.
    pub active: bool,
    /// The samples of the speech that is going on.
    pub buffer: Seq<S>,
    /// The chunks without voice since the last voiced one.
    pub silence: nat,
    /// The finished segments that nobody has taken yet, oldest first.
    pub pending: Seq<Seq<S>>,
}

impl<S> VadState<S> {
    /// A detector that has seen nothing.
    pub open spec fn fresh() -> Self {
        VadState { active: false, buffer: seq![], silence: 0, pending: seq![] }
    }

    /// After a voiced chunk.
    pub open spec fn after_voice(self, samples: Seq<S>) -> Self {
        let grown = self.buffer + samples;
        VadState {
            active: true,
            buffer: remainder(grown),
            silence: 0,
            pending: self.pending + full_pieces(grown),
        }
    }

    /// After a chunk without voice.
    pub open spec fn after_silence(self, samples: Seq<S>) -> Self {
        let grown = self.buffer + samples;
        if !self.active {
            self
        } else if self.silence + 1 < MAX_SILENCE_FRAMES {
            VadState { buffer: grown, silence: self.silence + 1, ..self }
        } else if grown.len() >= TRIM_SAMPLES {
            self.ended(grown.take(grown.len() - TRIM_SAMPLES))
        } else {
            self.quiet()
        }
    }

    /// After a chunk of either kind.
    pub open spec fn after_chunk(self, samples: Seq<S>, voice: bool) -> Self {
        if voice {
            self.after_voice(samples)
        } else {
            self.after_silence(samples)
        }
    }

    /// The same with no speech going on.
    pub open spec fn quiet(self) -> Self {
        VadState { active: false, buffer: seq![], silence: 0, ..self }
    }

    /// The same after the given speech is over.
    pub open spec fn ended(self, speech: Seq<S>) -> Self {
        VadState { pending: self.pending + segments_of(speech), ..self.quiet() }
    }

    /// After the speech that was going on has been ended from outside.
    pub open spec fn flushed(self) -> Self {
        if self.active {
            self.ended(self.buffer)
        } else {
            self.quiet()
        }
    }

    /// What holds of every detector: without speech nothing is buffered, a pause is shorter
    /// than the one that ends speech, and no segment is too short or too long.
    pub open spec fn valid(self) -> bool {
        &&& self.silence < MAX_SILENCE_FRAMES
        &&& !self.active ==> self.buffer.len() == 0 && self.silence == 0
        &&& forall|i: int|
            0 <= i < self.pending.len() ==> MIN_SPEECH_SAMPLES <= (#[trigger] self.pending[i]).len()
                <= MAX_SPEECH_SAMPLES
    }
}

proof fn pieces_are_full<S>(s: Seq<S>)
    ensures
        forall|i: int|
            0 <= i < full_pieces(s).len() ==> (#[trigger] full_pieces(s)[i]).len()
                == MAX_SPEECH_SAMPLES,
        remainder(s).len() < MAX_SPEECH_SAMPLES,
        remainder(s).len() <= s.len(),
    decreases s.len(),
{
    if s.len() >= MAX_SPEECH_SAMPLES {
        let rest = s.skip(MAX_SPEECH_SAMPLES as int);
        pieces_are_full(rest);
        assert forall|i: int| 0 <= i < full_pieces(s).len() implies (#[trigger] full_pieces(
            s,
        )[i]).len() == MAX_SPEECH_SAMPLES by {
            if i > 0 {
                assert(full_pieces(s)[i] == full_pieces(rest)[i - 1]);
            }
        }
    }
}

/// A voice activity detector for samples of type `S`.
pub struct Vad<S> {
    threshold: Single,
    speech_active: bool,
    speech_buffer: Vec<S>,
    silence_frames: usize,
    pending_segments: Vec<Vec<S>>,
}

impl<S> View for Vad<S> {
    type V = VadState<S>;

    closed spec fn view(&self) -> VadState<S> {
        VadState {
            active: self.speech_active,
            buffer: self.speech_buffer@,
            silence: self.silence_frames as nat,
            pending: Seq::new(
                self.pending_segments@.len(),
                |i: int| self.pending_segments@[i]@,
            ),
        }
    }
}

impl<S: Copy> Vad<S> {
    /// The energy above which a chunk counts as voice.
    pub closed spec fn level(&self) -> Single {
        self.threshold
    }

    /// A detector with the given energy threshold.
    pub fn new(threshold: Single) -> (r: Self)
        ensures
            r@ == VadState::<S>::fresh(),
            r@.valid(),
            r.level() == threshold,
    {
        let r = Vad {
            threshold,
            speech_active: false,
            speech_buffer: Vec::new(),
            silence_frames: 0,
            pending_segments: Vec::new(),
        };
        assert(r@ =~= VadState::<S>::fresh());
        r
    }

    /// Makes segments of the full pieces of the buffer.
    fn cut(&mut self)
        ensures
            final(self)@ == (VadState {
                buffer: remainder(old(self)@.buffer),
                pending: old(self)@.pending + full_pieces(old(self)@.buffer),
                ..old(self)@
            }),
            final(self).level() == old(self).level(),
    {
        let ghost before = self@;
        assert(before.pending + Seq::<Seq<S>>::empty() =~= before.pending);
        while self.speech_buffer.len() >= MAX_SPEECH_SAMPLES
            invariant
                self.level() == old(self).level(),
                self@.active == before.active,
                self@.silence == before.silence,
                before == old(self)@,
                self@.pending + full_pieces(self@.buffer) == before.pending + full_pieces(
                    before.buffer,
                ),
                remainder(self@.buffer) == remainder(before.buffer),
            decreases self.speech_buffer@.len(),
        {
            let ghost already = self@;
            let mut rest = self.speech_buffer.split_off(MAX_SPEECH_SAMPLES);
            std::mem::swap(&mut rest, &mut self.speech_buffer);
            self.pending_segments.push(rest);
            assert(rest@ =~= already.buffer.take(MAX_SPEECH_SAMPLES as int));
            assert(self@.buffer =~= already.buffer.skip(MAX_SPEECH_SAMPLES as int));
            assert(self@.pending =~= already.pending.push(rest@));
            assert(self@.pending + full_pieces(self@.buffer) =~= already.pending + full_pieces(
                already.buffer,
            ));
        }
        assert(self@.pending + full_pieces(self@.buffer) =~= self@.pending);
    }

    /// Makes segments of the buffer and ends speech.
    fn end(&mut self)
        ensures
            final(self)@ == old(self)@.ended(old(self)@.buffer),
            final(self).level() == old(self).level(),
    {
        let ghost before = self@;
        self.cut();
        let ghost left = self@;
        if self.speech_buffer.len() >= MIN_SPEECH_SAMPLES {
            let mut segment: Vec<S> = Vec::new();
            segment.append(&mut self.speech_buffer);
            assert(segment@ =~= left.buffer);
            self.pending_segments.push(segment);
            assert(self@.pending =~= left.pending.push(left.buffer));
            assert(self@.pending =~= before.pending + segments_of(before.buffer));
        }
        self.speech_active = false;
        self.speech_buffer.clear();
        self.silence_frames = 0;
        assert(self@.pending =~= before.ended(before.buffer).pending);
    }

    /// Takes in one chunk, whose root mean square is `rms`.
    pub fn accept_waveform(&mut self, samples: &[S], rms: Single)
        requires
            old(self)@.valid(),
        ensures
            final(self)@ == old(self)@.after_chunk(samples@, rms.above(old(self).level())),
            final(self)@.valid(),
            final(self).level() == old(self).level(),
    {
        let is_voice = rms.gt(self.threshold);
        let ghost before = self@;
        if is_voice {
            self.silence_frames = 0;
            if !self.speech_active {
                self.speech_active = true;
                self.speech_buffer.clear();
            }
            assert(self.speech_buffer@ =~= before.buffer);
            extend(&mut self.speech_buffer, samples);
            self.cut();
        } else if self.speech_active {
            self.silence_frames = self.silence_frames + 1;
            extend(&mut self.speech_buffer, samples);
            if self.silence_frames >= MAX_SILENCE_FRAMES {
                let len: usize = self.speech_buffer.len();
                if len >= TRIM_SAMPLES {
                    self.speech_buffer.truncate(len - TRIM_SAMPLES);
                    assert(self.speech_buffer@ =~= (before.buffer + samples@).take(
                        len - TRIM_SAMPLES,
                    ));
                    self.end();
                } else {
                    self.speech_active = false;
                    self.speech_buffer.clear();
                    self.silence_frames = 0;
                }
            }
        }
        assert(self@ =~= before.after_chunk(samples@, is_voice));
        proof {
            validity_is_kept(before, samples@, is_voice);
        }
    }

    /// Whether speech is going on.
    pub fn is_speech(&self) -> (b: bool)
        ensures
            b == self@.active,
    {
        self.speech_active
    }

    /// Whether a finished segment waits to be taken.
    pub fn has_segment(&self) -> (b: bool)
        ensures
            b == (self@.pending.len() > 0),
    {
        self.pending_segments.len() > 0
    }

    /// Takes the oldest finished segment.
    pub fn take_segment(&mut self) -> (r: Option<SpeechSegment<S>>)
        ensures
            final(self).level() == old(self).level(),
            old(self)@.valid() ==> final(self)@.valid(),
            match r {
                Some(segment) => {
                    &&& old(self)@.pending.len() > 0
                    &&& segment@ == old(self)@.pending[0]
                    &&& final(self)@ == (VadState {
                        pending: old(self)@.pending.drop_first(),
                        ..old(self)@
                    })
                },
                None => old(self)@.pending.len() == 0 && final(self)@ == old(self)@,
            },
    {
        if self.pending_segments.len() == 0 {
            None
        } else {
            let ghost before = self@;
            let samples = self.pending_segments.remove(0);
            assert(self@.pending =~= before.pending.drop_first());
            Some(SpeechSegment { samples })
        }
    }

    /// Ends the speech that is going on; what has been said of it becomes a segment if it is
    /// long enough.
    pub fn flush(&mut self)
        ensures
            final(self).level() == old(self).level(),
            final(self)@ == old(self)@.flushed(),
            old(self)@.valid() ==> final(self)@.valid(),
    {
        let ghost before = self@;
        if self.speech_active {
            self.end();
        } else {
            self.speech_buffer.clear();
            self.silence_frames = 0;
        }
        assert(self@ =~= before.flushed());
        proof {
            if before.valid() {
                validity_is_kept(before, seq![], false);
            }
        }
    }

    /// Forgets everything that has been taken in.
    pub fn reset(&mut self)
        ensures
            final(self).level() == old(self).level(),
            final(self)@ == VadState::<S>::fresh(),
            final(self)@.valid(),
    {
        self.speech_active = false;
        self.speech_buffer.clear();
        self.silence_frames = 0;
        self.pending_segments.clear();
        assert(self@ =~= VadState::<S>::fresh());
    }
}

/// A finished stretch of speech.
pub struct SpeechSegment<S> {
    samples: Vec<S>,
}

impl<S> View for SpeechSegment<S> {
    type V = Seq<S>;

    closed spec fn view(&self) -> Seq<S> {
        self.samples@
    }
}

impl<S> SpeechSegment<S> {
    /// The samples of the segment.
    pub fn samples(&self) -> (r: &[S])
        ensures
            r@ == self@,
    {
        &self.samples
    }
}

/// Appends a copy of the samples.
pub(crate) fn extend<S: Copy>(buffer: &mut Vec<S>, samples: &[S])
    ensures
        final(buffer)@ == old(buffer)@ + samples@,
{
    let mut copy = slice_to_vec(samples);
    buffer.append(&mut copy);
}

/// Everything that is still held, in the order in which it came in.
pub open spec fn held<S>(v: VadState<S>) -> Seq<S> {
    v.pending.flatten() + v.buffer
}

proof fn flattening_joins<S>(a: Seq<Seq<S>>, b: Seq<Seq<S>>)
    ensures
        (a + b).flatten() == a.flatten() + b.flatten(),
    decreases a.len(),
{
    if a.len() == 0 {
        assert(a + b =~= b);
        assert(a.flatten() + b.flatten() =~= b.flatten());
    } else {
        flattening_joins(a.drop_first(), b);
        assert((a + b).drop_first() =~= a.drop_first() + b);
        assert((a + b).flatten() =~= a.flatten() + b.flatten());
    }
}

proof fn pieces_lose_nothing<S>(s: Seq<S>)
    ensures
        full_pieces(s).flatten() + remainder(s) == s,
    decreases s.len(),
{
    if s.len() >= MAX_SPEECH_SAMPLES {
        let first = s.take(MAX_SPEECH_SAMPLES as int);
        let rest = s.skip(MAX_SPEECH_SAMPLES as int);
        pieces_lose_nothing(rest);
        assert(full_pieces(s).drop_first() =~= full_pieces(rest));
        assert(full_pieces(s).flatten() =~= first + full_pieces(rest).flatten());
        assert(full_pieces(s).flatten() + remainder(s) =~= first + (full_pieces(rest).flatten()
            + remainder(rest)));
        assert(first + rest =~= s);
    } else {
        assert(full_pieces(s).flatten() + remainder(s) =~= s);
    }
}

/// While speech goes on no sample is lost, repeated or moved, whether or not a cut is forced.
pub proof fn voice_loses_no_sample<S>(v: VadState<S>, samples: Seq<S>)
    ensures
        held(v.after_voice(samples)) == held(v) + samples,
{
    let grown = v.buffer + samples;
    pieces_lose_nothing(grown);
    flattening_joins(v.pending, full_pieces(grown));
    assert(held(v.after_voice(samples)) =~= v.pending.flatten() + (full_pieces(grown).flatten()
        + remainder(grown)));
    assert(held(v) + samples =~= v.pending.flatten() + grown);
}

/// Speech never goes on for 10 s without a cut: as soon as it lasts that long, its first 10 s
/// are a segment, and what follows them is kept.
pub proof fn long_speech_is_cut<S>(v: VadState<S>, samples: Seq<S>)
    ensures
        v.after_voice(samples).active,
        v.after_voice(samples).buffer.len() < MAX_SPEECH_SAMPLES,
        MAX_SPEECH_SAMPLES <= v.buffer.len() + samples.len() < 2 * MAX_SPEECH_SAMPLES
            ==> v.after_voice(samples).pending == v.pending.push(
            (v.buffer + samples).take(MAX_SPEECH_SAMPLES as int),
        ) && v.after_voice(samples).buffer == (v.buffer + samples).skip(MAX_SPEECH_SAMPLES as int),
{
    let grown = v.buffer + samples;
    pieces_are_full(grown);
    if MAX_SPEECH_SAMPLES <= grown.len() < 2 * MAX_SPEECH_SAMPLES {
        let rest = grown.skip(MAX_SPEECH_SAMPLES as int);
        assert(full_pieces(rest) =~= Seq::<Seq<S>>::empty());
        assert(remainder(rest) == rest);
        assert(v.pending + full_pieces(grown) =~= v.pending.push(
            grown.take(MAX_SPEECH_SAMPLES as int),
        ));
    }
}

/// Speech of at least 0.15 s and at most 10 s becomes one segment, as it is; shorter speech
/// becomes none.
pub proof fn speech_becomes_one_segment<S>(speech: Seq<S>)
    ensures
        MIN_SPEECH_SAMPLES <= speech.len() <= MAX_SPEECH_SAMPLES ==> segments_of(speech) == seq![
            speech,
        ],
        speech.len() < MIN_SPEECH_SAMPLES ==> segments_of(speech).len() == 0,
{
    if speech.len() == MAX_SPEECH_SAMPLES {
        let rest = speech.skip(MAX_SPEECH_SAMPLES as int);
        assert(speech.take(MAX_SPEECH_SAMPLES as int) =~= speech);
        assert(full_pieces(rest) =~= Seq::<Seq<S>>::empty());
        assert(remainder(rest) == rest);
    }
    if MIN_SPEECH_SAMPLES <= speech.len() <= MAX_SPEECH_SAMPLES {
        assert(segments_of(speech) =~= seq![speech]);
    }
}

/// After the given chunks, none of which is voiced.
pub open spec fn after_pause<S>(v: VadState<S>, chunks: Seq<Seq<S>>) -> VadState<S>
    decreases chunks.len(),
{
    if chunks.len() == 0 {
        v
    } else {
        after_pause(v.after_silence(chunks[0]), chunks.drop_first())
    }
}

proof fn pause_keeps_quiet<S>(v: VadState<S>, chunks: Seq<Seq<S>>)
    requires
        !v.active,
    ensures
        after_pause(v, chunks) == v,
    decreases chunks.len(),
{
    if chunks.len() > 0 {
        pause_keeps_quiet(v, chunks.drop_first());
    }
}

proof fn pause_runs_out<S>(v: VadState<S>, chunks: Seq<Seq<S>>)
    requires
        v.valid(),
        chunks.len() + v.silence >= MAX_SILENCE_FRAMES,
    ensures
        !after_pause(v, chunks).active,
    decreases chunks.len(),
{
    if !v.active {
        pause_keeps_quiet(v, chunks);
    } else {
        let next = v.after_silence(chunks[0]);
        if next.active {
            pause_runs_out(next, chunks.drop_first());
        } else {
            pause_keeps_quiet(next, chunks.drop_first());
        }
    }
}

/// A pause of [`MAX_SILENCE_FRAMES`] chunks ends speech, whatever came before.
pub proof fn pause_ends_speech<S>(v: VadState<S>, chunks: Seq<Seq<S>>)
    requires
        v.valid(),
        chunks.len() >= MAX_SILENCE_FRAMES,
    ensures
        !after_pause(v, chunks).active,
{
    pause_runs_out(v, chunks);
}

/// Without speech, a chunk without voice changes nothing.
pub proof fn silence_is_ignored<S>(v: VadState<S>, samples: Seq<S>)
    requires
        !v.active,
    ensures
        v.after_silence(samples) == v,
{
}

proof fn segments_are_valid<S>(v: VadState<S>, pieces: Seq<Seq<S>>)
    requires
        v.valid(),
        forall|i: int|
            0 <= i < pieces.len() ==> MIN_SPEECH_SAMPLES <= (#[trigger] pieces[i]).len()
                <= MAX_SPEECH_SAMPLES,
    ensures
        (VadState { pending: v.pending + pieces, ..v }).valid(),
{
    let all = v.pending + pieces;
    assert forall|i: int| 0 <= i < all.len() implies MIN_SPEECH_SAMPLES <= (#[trigger] all[i]).len()
        <= MAX_SPEECH_SAMPLES by {
        if i >= v.pending.len() {
            assert(all[i] == pieces[i - v.pending.len()]);
        }
    }
}

proof fn ending_keeps_validity<S>(v: VadState<S>, speech: Seq<S>)
    requires
        v.valid(),
    ensures
        v.ended(speech).valid(),
{
    pieces_are_full(speech);
    segments_are_valid(v.quiet(), segments_of(speech));
}

/// Any chunk, and any of the ways to end speech, keeps a detector valid. So whatever the chunks
/// are, every segment lasts at least 0.15 s and at most 10 s.
pub proof fn validity_is_kept<S>(v: VadState<S>, samples: Seq<S>, voice: bool)
    requires
        v.valid(),
    ensures
        v.after_chunk(samples, voice).valid(),
        v.flushed().valid(),
        v.quiet().valid(),
        VadState::<S>::fresh().valid(),
{
    let grown = v.buffer + samples;
    pieces_are_full(grown);
    segments_are_valid(
        VadState { active: true, buffer: remainder(grown), silence: 0, ..v },
        full_pieces(grown),
    );
    if grown.len() >= TRIM_SAMPLES {
        ending_keeps_validity(v, grown.take(grown.len() - TRIM_SAMPLES));
    }
    ending_keeps_validity(v, v.buffer);
}

/// A new detector, and one that has been reset, holds nothing.
pub proof fn fresh_detectors_hold_nothing<S>()
    ensures
        !VadState::<S>::fresh().active,
        VadState::<S>::fresh().silence == 0,
        VadState::<S>::fresh().pending.len() == 0,
        held(VadState::<S>::fresh()).len() == 0,
{
}

/// A voiced chunk starts speech or goes on with it, and the pause is over. Whatever it
/// finishes are segments of exactly 10 s, behind those that were finished before, and less than
/// 10 s are left.
pub proof fn voice_is_cut_every_ten_seconds<S>(v: VadState<S>, samples: Seq<S>)
    ensures
        ({
            let after = v.after_chunk(samples, true);
            let old_len = v.pending.len() as int;
            &&& after.active
            &&& after.silence == 0
            &&& held(after) == held(v) + samples
            &&& after.buffer.len() < 160000
            &&& after.pending.len() >= old_len
            &&& after.pending.take(old_len) == v.pending
            &&& forall|i: int|
                old_len <= i < after.pending.len() ==> (#[trigger] after.pending[i]).len() == 160000
        }),
{
    let after = v.after_chunk(samples, true);
    let grown = v.buffer + samples;
    pieces_are_full(grown);
    voice_loses_no_sample(v, samples);
    assert(after.pending.take(v.pending.len() as int) =~= v.pending);
    assert forall|i: int| v.pending.len() <= i < after.pending.len() implies (
    #[trigger] after.pending[i]).len() == 160000 by {
        assert(after.pending[i] == full_pieces(grown)[i - v.pending.len()]);
    }
}

/// A pause of fewer than 15 chunks does not end speech. It belongs to it: no sample of it is
/// lost or moved, and nothing is finished by it.
pub proof fn short_pauses_belong_to_speech<S>(v: VadState<S>, samples: Seq<S>)
    requires
        v.active,
        v.silence + 1 < 15,
    ensures
        ({
            let after = v.after_chunk(samples, false);
            &&& after.active
            &&& after.silence == v.silence + 1
            &&& after.buffer == v.buffer + samples
            &&& after.pending == v.pending
            &&& held(after) == held(v) + samples
        }),
{
    assert(held(v.after_silence(samples)) =~= held(v) + samples);
}

/// What has been said becomes segments without a sample being lost, repeated or moved: in their
/// order they are the speech, up to a rest of less than 0.15 s. All but the last are 10 s long.
pub proof fn segments_spell_the_speech<S>(speech: Seq<S>)
    ensures
        ({
            let segments = segments_of(speech);
            let n = segments.flatten().len() as int;
            &&& n <= speech.len() < n + 2400
            &&& segments.flatten() == speech.take(n)
            &&& forall|i: int|
                0 <= i < segments.len() - 1 ==> (#[trigger] segments[i]).len() == 160000
            &&& segments.len() > 0 ==> 2400 <= segments.last().len() <= 160000
        }),
{
    let pieces = full_pieces(speech);
    let rest = remainder(speech);
    pieces_are_full(speech);
    pieces_lose_nothing(speech);
    if rest.len() >= MIN_SPEECH_SAMPLES {
        flattening_joins(pieces, seq![rest]);
        assert(pieces.push(rest) =~= pieces + seq![rest]);
        let one: Seq<Seq<S>> = seq![rest];
        assert(one.drop_first() =~= Seq::<Seq<S>>::empty());
        assert(one.drop_first().flatten() =~= Seq::<S>::empty());
        assert(one.flatten() =~= rest);
        assert(segments_of(speech).flatten() =~= speech);
        assert(speech.take(speech.len() as int) =~= speech);
    } else {
        let n = pieces.flatten().len() as int;
        assert(pieces.flatten() =~= speech.take(n));
    }
}

/// Speech that is ended from outside is handed out as it is, if it lasts at least 0.15 s and at
/// most 10 s, and not at all if it is shorter. Either way it is over, what was finished before
/// stays in front, and without speech nothing becomes a segment.
pub proof fn flushing_hands_out_the_speech<S>(v: VadState<S>)
    ensures
        !v.flushed().active,
        v.flushed().buffer.len() == 0,
        v.flushed().silence == 0,
        !v.active || v.buffer.len() < 2400 ==> v.flushed().pending == v.pending,
        v.active && 2400 <= v.buffer.len() <= 160000 ==> v.flushed().pending == v.pending.push(
            v.buffer,
        ),
        v.active ==> v.flushed().pending == v.pending + segments_of(v.buffer),
{
    speech_becomes_one_segment(v.buffer);
    assert(v.pending + Seq::<Seq<S>>::empty() =~= v.pending);
    assert(v.pending + seq![v.buffer] =~= v.pending.push(v.buffer));
    if v.active && v.buffer.len() < 2400 {
        assert(segments_of(v.buffer) =~= Seq::<Seq<S>>::empty());
    }
}

/// The chunk without voice that completes a pause ends speech. What was said, up to the last
/// 0.48 s, is handed out in the order in which it came in, if that is long enough; what was
/// finished before stays in front.
pub proof fn ended_speech_keeps_its_order<S>(v: VadState<S>, samples: Seq<S>)
    requires
        v.active,
        v.silence + 1 == 15,
    ensures
        ({
            let all = v.buffer + samples;
            let n = all.len() - 7680;
            let after = v.after_chunk(samples, false);
            &&& !after.active
            &&& after.buffer.len() == 0
            &&& after.silence == 0
            &&& n < 2400 ==> after.pending == v.pending
            &&& 2400 <= n <= 160000 ==> after.pending == v.pending.push(all.take(n))
            &&& 2400 <= n ==> after.pending == v.pending + segments_of(all.take(n))
        }),
{
    let all = v.buffer + samples;
    let n = all.len() - 7680;
    let after = v.after_chunk(samples, false);
    assert(v.pending + Seq::<Seq<S>>::empty() =~= v.pending);
    if n >= 0 {
        speech_becomes_one_segment(all.take(n));
        assert(v.pending + seq![all.take(n)] =~= v.pending.push(all.take(n)));
        if n < 2400 {
            assert(segments_of(all.take(n)) =~= Seq::<Seq<S>>::empty());
        }
    }
}

/// After the given chunks, all of which are voiced.
pub open spec fn after_speech<S>(v: VadState<S>, chunks: Seq<Seq<S>>) -> VadState<S>
    decreases chunks.len(),
{
    if chunks.len() == 0 {
        v
    } else {
        after_speech(v.after_chunk(chunks[0], true), chunks.drop_first())
    }
}

proof fn speech_is_collected<S>(v: VadState<S>, chunks: Seq<Seq<S>>)
    requires
        chunks.len() > 0,
        v.buffer.len() + chunks.flatten().len() < 160000,
    ensures
        after_speech(v, chunks) == (VadState {
            active: true,
            buffer: v.buffer + chunks.flatten(),
            silence: 0,
            pending: v.pending,
        }),
    decreases chunks.len(),
{
    let next = v.after_chunk(chunks[0], true);
    let rest = chunks.drop_first();
    assert(chunks.flatten() == chunks[0] + rest.flatten());
    assert(full_pieces(v.buffer + chunks[0]) =~= Seq::<Seq<S>>::empty());
    assert(next.pending =~= v.pending);
    assert(next.buffer == v.buffer + chunks[0]);
    assert(next.buffer + rest.flatten() =~= v.buffer + chunks.flatten());
    if rest.len() > 0 {
        speech_is_collected(next, rest);
    } else {
        assert(rest.flatten() =~= Seq::<S>::empty());
    }
}

proof fn pause_is_collected<S>(v: VadState<S>, chunks: Seq<Seq<S>>)
    requires
        v.active,
        v.silence + chunks.len() < 15,
    ensures
        after_pause(v, chunks) == (VadState {
            buffer: v.buffer + chunks.flatten(),
            silence: v.silence + chunks.len(),
            ..v
        }),
    decreases chunks.len(),
{
    if chunks.len() == 0 {
        assert(chunks.flatten() =~= Seq::<S>::empty());
        assert(v.buffer + chunks.flatten() =~= v.buffer);
    } else {
        let next = v.after_silence(chunks[0]);
        let rest = chunks.drop_first();
        assert(chunks.flatten() == chunks[0] + rest.flatten());
        pause_is_collected(next, rest);
        assert(next.buffer + rest.flatten() =~= v.buffer + chunks.flatten());
    }
}

proof fn pause_is_split<S>(v: VadState<S>, chunks: Seq<Seq<S>>)
    requires
        chunks.len() > 0,
    ensures
        after_pause(v, chunks) == after_pause(v, chunks.drop_last()).after_chunk(
            chunks.last(),
            false,
        ),
    decreases chunks.len(),
{
    let next = v.after_silence(chunks[0]);
    let rest = chunks.drop_first();
    if rest.len() == 0 {
        assert(after_pause(next, rest) == next);
    } else {
        pause_is_split(next, rest);
        assert(rest.drop_last() =~= chunks.drop_last().drop_first());
        assert(chunks.drop_last()[0] == chunks[0]);
    }
}

/// From the first voiced chunk to the end of a pause of 15 chunks, all that comes in, in the
/// order in which it comes in and up to the last 0.48 s, becomes one segment, if that lasts at
/// least 0.15 s; and if not, it is forgotten. This holds of up to 10 s of voiced chunks.
pub proof fn stretches_of_speech_become_segments<S>(
    v: VadState<S>,
    speech: Seq<Seq<S>>,
    pause: Seq<Seq<S>>,
)
    requires
        v.valid(),
        !v.active,
        speech.len() > 0,
        speech.flatten().len() < 160000,
        pause.len() == 15,
        speech.flatten().len() + pause.flatten().len() - 7680 <= 160000,
    ensures
        ({
            let all = speech.flatten() + pause.flatten();
            let n = all.len() - 7680;
            let after = after_pause(after_speech(v, speech), pause);
            &&& !after.active
            &&& after.pending == if n < 2400 {
                v.pending
            } else {
                v.pending.push(all.take(n))
            }
        }),
{
    let spoken = after_speech(v, speech);
    let almost = pause.drop_last();
    speech_is_collected(v, speech);
    pause_is_collected(spoken, almost);
    pause_is_split(spoken, pause);
    flattening_joins(almost, seq![pause.last()]);
    assert(pause =~= almost + seq![pause.last()]);
    let one: Seq<Seq<S>> = seq![pause.last()];
    assert(one.drop_first() =~= Seq::<Seq<S>>::empty());
    assert(one.drop_first().flatten() =~= Seq::<S>::empty());
    assert(one.flatten() =~= pause.last());
    let quiet = after_pause(spoken, almost);
    assert(quiet.buffer + pause.last() =~= speech.flatten() + pause.flatten());
    ended_speech_keeps_its_order(quiet, pause.last());
}

/// What validity means: a pause has fewer than 15 chunks, without speech nothing is buffered,
/// and every finished segment lasts from 0.15 s to 10 s.
pub proof fn valid_detectors_are_bounded<S>(v: VadState<S>)
    ensures
        v.valid() <==> {
            &&& v.silence < 15
            &&& !v.active ==> v.buffer.len() == 0 && v.silence == 0
            &&& forall|i: int|
                0 <= i < v.pending.len() ==> 2400 <= (#[trigger] v.pending[i]).len() <= 160000
        },
{
}

/// Without speech, a chunk without voice leaves a detector as it is, however many of them come.
pub proof fn silence_alone_changes_nothing<S>(v: VadState<S>, samples: Seq<S>, pause: Seq<Seq<S>>)
    requires
        !v.active,
    ensures
        v.after_chunk(samples, false) == v,
        after_pause(v, pause) == v,
{
    pause_keeps_quiet(v, pause);
}

} // verus!
