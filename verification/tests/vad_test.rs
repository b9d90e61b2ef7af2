use live_translator::single::Single;
use live_translator::vad::Vad;

fn single(x: f32) -> Single {
    Single::from_bits(x.to_bits())
}

fn detector() -> Vad<f32> {
    Vad::new(single(0.005))
}

fn voice(vad: &mut Vad<f32>, chunks: usize) {
    for _ in 0..chunks {
        vad.accept_waveform(&[0.5; 512], single(0.5));
    }
}

fn silence(vad: &mut Vad<f32>, chunks: usize) {
    for _ in 0..chunks {
        vad.accept_waveform(&[0.0; 512], single(0.0));
    }
}

#[test]
fn silence_before_speech_is_ignored() {
    let mut vad = detector();
    silence(&mut vad, 100);
    assert!(!vad.is_speech());
    assert!(!vad.has_segment());
    assert!(vad.take_segment().is_none());
}

#[test]
fn the_threshold_itself_is_no_voice() {
    let mut vad = detector();
    vad.accept_waveform(&[0.005; 512], single(0.005));
    assert!(!vad.is_speech());
    vad.accept_waveform(&[0.0051; 512], single(0.0051));
    assert!(vad.is_speech());
    let mut deaf = detector();
    deaf.accept_waveform(&[], single(f32::NAN));
    assert!(!deaf.is_speech());
}

#[test]
fn a_pause_of_half_a_second_ends_speech() {
    let mut vad = detector();
    voice(&mut vad, 10);
    silence(&mut vad, 14);
    assert!(vad.is_speech());
    assert!(!vad.has_segment());
    silence(&mut vad, 1);
    assert!(!vad.is_speech());
    let segment = vad.take_segment().unwrap();
    assert_eq!(segment.samples(), &[0.5f32; 10 * 512][..]);
    assert!(!vad.has_segment());
}

#[test]
fn short_noises_are_dropped() {
    let mut vad = detector();
    voice(&mut vad, 4);
    silence(&mut vad, 15);
    assert!(!vad.is_speech());
    assert!(!vad.has_segment());
    voice(&mut vad, 5);
    silence(&mut vad, 15);
    assert_eq!(vad.take_segment().unwrap().samples().len(), 2560);
}

#[test]
fn voice_resets_the_pause() {
    let mut vad = detector();
    voice(&mut vad, 1);
    silence(&mut vad, 14);
    voice(&mut vad, 1);
    silence(&mut vad, 14);
    assert!(vad.is_speech());
    silence(&mut vad, 1);
    assert_eq!(vad.take_segment().unwrap().samples().len(), 16 * 512);
}

#[test]
fn speech_of_exactly_the_shortest_length_is_kept() {
    let mut vad = detector();
    vad.accept_waveform(&[0.5; 2400], single(0.5));
    silence(&mut vad, 16);
    assert!(!vad.is_speech());
    assert_eq!(vad.take_segment().unwrap().samples(), &[0.5f32; 2400][..]);
}

#[test]
fn long_speech_is_cut_after_ten_seconds_and_goes_on() {
    let mut vad = detector();
    voice(&mut vad, 312);
    assert!(!vad.has_segment());
    voice(&mut vad, 1);
    assert!(vad.is_speech());
    assert_eq!(vad.take_segment().unwrap().samples().len(), 160000);
    // 256 samples are left of the last chunk.
    voice(&mut vad, 311);
    assert!(!vad.has_segment());
    voice(&mut vad, 1);
    assert_eq!(vad.take_segment().unwrap().samples().len(), 160000);
    assert!(vad.take_segment().is_none());
}

#[test]
fn no_sample_of_long_speech_is_lost() {
    let mut vad: Vad<u32> = Vad::new(single(0.1));
    let all: Vec<u32> = (0..400_000).collect();
    for chunk in all.chunks(70_000) {
        vad.accept_waveform(chunk, single(1.0));
    }
    vad.flush();
    let mut heard: Vec<u32> = vec![];
    let mut lengths = vec![];
    while let Some(segment) = vad.take_segment() {
        lengths.push(segment.samples().len());
        heard.extend_from_slice(segment.samples());
    }
    assert_eq!(lengths, [160_000, 160_000, 80_000]);
    assert_eq!(heard, all);
}

#[test]
fn no_segment_is_longer_than_ten_seconds() {
    let mut vad = detector();
    voice(&mut vad, 312);
    silence(&mut vad, 15);
    assert_eq!(vad.take_segment().unwrap().samples().len(), 312 * 512);
    voice(&mut vad, 312);
    silence(&mut vad, 14);
    vad.flush();
    assert_eq!(vad.take_segment().unwrap().samples().len(), 160_000);
    assert_eq!(vad.take_segment().unwrap().samples().len(), 326 * 512 - 160_000);
    assert!(!vad.has_segment());
    vad.accept_waveform(&vec![1.0; 1_000], single(1.0));
    vad.accept_waveform(&vec![0.0; 330_000], single(0.0));
    silence(&mut vad, 14);
    assert!(!vad.is_speech());
    assert_eq!(vad.take_segment().unwrap().samples().len(), 160_000);
    assert_eq!(vad.take_segment().unwrap().samples().len(), 160_000);
    assert_eq!(vad.take_segment().unwrap().samples().len(), 10_488);
    assert!(!vad.has_segment());
}

#[test]
fn segments_come_out_oldest_first() {
    let mut vad: Vad<f32> = Vad::new(single(0.1));
    vad.accept_waveform(&vec![1.0; 160000], single(1.0));
    vad.accept_waveform(&vec![2.0; 170000], single(2.0));
    assert_eq!(vad.take_segment().unwrap().samples()[0], 1.0);
    let second = vad.take_segment().unwrap();
    assert_eq!(second.samples()[0], 2.0);
    assert_eq!(second.samples().len(), 160000);
    vad.flush();
    assert_eq!(vad.take_segment().unwrap().samples().len(), 10000);
}

#[test]
fn flushing_hands_out_what_is_long_enough() {
    let mut vad = detector();
    vad.accept_waveform(&[0.5; 2399], single(0.5));
    vad.flush();
    assert!(!vad.is_speech());
    assert!(!vad.has_segment());
    vad.accept_waveform(&[0.5; 2400], single(0.5));
    vad.flush();
    assert!(!vad.is_speech());
    assert_eq!(vad.take_segment().unwrap().samples().len(), 2400);
    vad.flush();
    assert!(!vad.has_segment());
}

#[test]
fn resetting_forgets_everything() {
    let mut vad = detector();
    voice(&mut vad, 313);
    voice(&mut vad, 10);
    vad.reset();
    assert!(!vad.is_speech());
    assert!(!vad.has_segment());
    voice(&mut vad, 5);
    vad.flush();
    assert_eq!(vad.take_segment().unwrap().samples().len(), 2560);
}
