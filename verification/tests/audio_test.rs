use live_translator::audio::{
    capture_attempts, capture_source, device_listing, find_device, pcm_samples, regroup,
    sample_rate, window_size, CaptureCommand, DeviceInfo, Source, SourceList,
};
use live_translator::wav::{parse_wav, wav_bytes};

fn names(list: &[&str]) -> Vec<Option<String>> {
    list.iter().map(|s| Some(s.to_string())).collect()
}

fn shown(c: &CaptureCommand) -> String {
    format!("{} {}", c.program, c.args.join(" "))
}

#[test]
fn the_format_is_16_khz_in_chunks_of_512() {
    assert_eq!(window_size(), 512);
    assert_eq!(sample_rate(), 16000);
}

#[test]
fn inputs_are_found_by_part_of_their_name_in_any_case() {
    let inputs = names(&["Built-in Microphone", "USB MIC", "usb mic 2"]);
    let none = names(&[]);
    assert_eq!(find_device(&inputs, &none, "mic"), Some(0));
    assert_eq!(find_device(&inputs, &none, "uSb"), Some(1));
    assert_eq!(find_device(&inputs, &none, "mic 2"), Some(2));
    assert_eq!(find_device(&inputs, &none, "speaker"), None);
    assert_eq!(find_device(&names(&["ÄRMEL"]), &none, "ärmel"), Some(0));
}

#[test]
fn devices_without_a_name_are_passed_over() {
    let inputs = vec![None, Some("mic".to_string())];
    assert_eq!(find_device(&inputs, &vec![None], ""), Some(1));
    assert_eq!(find_device(&vec![None], &vec![None], ""), None);
}

#[test]
fn inputs_come_before_outputs() {
    let inputs = names(&["mic", "x-analog.monitor-port", "analog.monitor"]);
    let outputs = names(&["hdmi", "analog"]);
    assert_eq!(find_device(&inputs, &outputs, "analog"), Some(1));
    assert_eq!(find_device(&inputs, &outputs, "hdmi"), None);
}

// A capital sigma at the end of a word has a lower-case form of its own, so the name of this
// output occurs in no input although the name of its monitor does.
#[test]
fn an_output_leads_to_its_monitor() {
    let outputs = vec![None, Some("hdmi".to_string()), Some("ΑΣ".to_string())];
    let exact = names(&["mic", "xΑΣ.monitor", "ΑΣ.monitor"]);
    assert_eq!(find_device(&exact, &outputs, "ΑΣ"), Some(2));
    let similar = names(&["mic", "xασ.Monitor-1"]);
    assert_eq!(find_device(&similar, &outputs, "ΑΣ"), Some(1));
    let unrelated = names(&["mic", "monitor"]);
    assert_eq!(find_device(&unrelated, &outputs, "ΑΣ"), None);
    let second = names(&["ΒΑΣ.monitor"]);
    assert_eq!(find_device(&second, &names(&["ΓΑΣ", "ΒΑΣ"]), "ΑΣ"), Some(0));
}

#[test]
fn sources_are_chosen_by_name() {
    let inputs = names(&["mic"]);
    let none = names(&[]);
    assert_eq!(capture_source(&inputs, &none, true, ""), Source::DefaultInput);
    assert_eq!(capture_source(&inputs, &none, false, ""), Source::Program);
    assert_eq!(capture_source(&inputs, &none, true, "mic"), Source::Input(0));
    assert_eq!(capture_source(&inputs, &none, true, "monitor"), Source::Program);
}

#[test]
fn monitor_means_what_the_system_plays() {
    for name in ["monitor", "Monitor", "MONITOR"] {
        let attempts = capture_attempts(name);
        assert_eq!(attempts.len(), 2);
        assert_eq!(
            shown(&attempts[0]),
            "pw-cat --record -P {stream.capture.sink=true} --rate=16000 --channels=1 --format=s16 \
             --raw -"
        );
        assert_eq!(
            shown(&attempts[1]),
            format!("parec --device {} --format=s16le --rate=16000 --channels=1", name)
        );
    }
}

#[test]
fn a_named_monitor_means_what_that_device_plays() {
    let attempts = capture_attempts("chröme_sink.Monitor");
    assert_eq!(attempts.len(), 2);
    assert_eq!(
        shown(&attempts[0]),
        "pw-cat --record -P {stream.capture.sink=true,node.target=chröme_sink} --rate=16000 \
         --channels=1 --format=s16 --raw -"
    );
    assert_eq!(
        shown(&attempts[1]),
        "parec --device chröme_sink.Monitor --format=s16le --rate=16000 --channels=1"
    );
    let bare = capture_attempts(".monitor");
    assert_eq!(bare[0].args[2], "{stream.capture.sink=true,node.target=}");
}

#[test]
fn other_names_are_tried_as_sources_first() {
    let attempts = capture_attempts("usb-mic");
    assert_eq!(attempts.len(), 3);
    assert_eq!(
        shown(&attempts[0]),
        "pw-cat --record --target usb-mic --rate=16000 --channels=1 --format=s16 -"
    );
    assert_eq!(
        shown(&attempts[1]),
        "pw-cat --record -P {stream.capture.sink=true,node.target=usb-mic} --rate=16000 \
         --channels=1 --format=s16 --raw -"
    );
    assert_eq!(
        shown(&attempts[2]),
        "parec --device usb-mic --format=s16le --rate=16000 --channels=1"
    );
}

#[test]
fn every_attempt_records_16_khz_mono() {
    for name in ["", "monitor", "a.monitor", "mic", "monitors"] {
        for c in capture_attempts(name) {
            assert!(c.args.contains(&"--rate=16000".to_string()));
            assert!(c.args.contains(&"--channels=1".to_string()));
        }
        assert_eq!(capture_attempts(name).last().unwrap().program, "parec");
    }
}

#[test]
fn raw_audio_is_little_endian() {
    assert_eq!(
        pcm_samples(&[0x01, 0x00, 0xff, 0xff, 0x00, 0x80, 0xff, 0x7f, 0x12]),
        [1, -1, -32768, 32767]
    );
    assert!(pcm_samples(&[7]).is_empty());
}

#[test]
fn audio_is_regrouped_into_full_chunks() {
    let all: Vec<u32> = (0..3000).collect();
    let mut held: Vec<u32> = vec![];
    let mut chunks: Vec<Vec<u32>> = vec![];
    for (from, to) in [(0, 0), (0, 100), (100, 511), (511, 512), (512, 2100), (2100, 3000)] {
        chunks.extend(regroup(&mut held, &all[from..to]));
        assert!(held.len() < 512);
        assert_eq!(chunks.len(), to / 512);
    }
    assert!(chunks.iter().all(|c| c.len() == window_size()));
    assert_eq!([chunks.concat(), held].concat(), all);
}

#[test]
fn devices_are_listed_with_their_monitors() {
    let inputs = vec![DeviceInfo { name: "mic".to_string(), channels: 1, rate: 44100 }];
    let outputs = vec![
        DeviceInfo { name: "hdmi".to_string(), channels: 8, rate: 48000 },
        DeviceInfo { name: "".to_string(), channels: 0, rate: 0 },
    ];
    let sources = SourceList::Text("1\tfoo\r\n  \n2\tbar\n".to_string());
    assert_eq!(
        device_listing(&inputs, &outputs, &sources),
        [
            "(=== 输入设备 (Input) ===",
            "(  [0] mic",
            "(       1ch 44100Hz",
            "(\n=== 输出设备 (Output) — 可用 *.monitor 源抓系统声音 ===",
            "(  [0] hdmi",
            "(       8ch 48000Hz  → monitor: hdmi.monitor",
            "(  [1] ",
            "(       0ch 0Hz  → monitor: .monitor",
            "(\n=== PulseAudio/PipeWire 所有输入源 (pactl) ===",
            "(  1\tfoo",
            "(  2\tbar",
            "(\n抓取 Chrome 浏览器声音:",
            "(  1. 创建虚拟 sink:  pactl load-module module-null-sink sink_name=chrome_sink",
            "(  2. 用 pavucontrol 把 Chrome 音频输出路由到 chrome_sink",
            "(  3. 启动:  live-translator --audio-device chrome_sink.monitor --auto-start",
            "(  或直接用系统默认 monitor:",
            "(     live-translator --audio-device \"monitor\" --auto-start",
        ]
    );
}

#[test]
fn a_missing_sound_server_is_mentioned() {
    let failed = device_listing(&vec![], &vec![], &SourceList::Failed);
    assert_eq!(failed[3], "(  (pactl failed — 可能需要安装 pipewire-pulse)");
    let missing = device_listing(&vec![], &vec![], &SourceList::Missing);
    assert_eq!(missing[3], "(  (pactl 不可用 — 试试 pw-cli list-objects)");
    assert_eq!(missing.len(), 10);
}

#[test]
fn wav_files_have_a_header_of_44_bytes() {
    let bytes = wav_bytes(&[1, -2]);
    assert_eq!(
        bytes,
        [
            b'R', b'I', b'F', b'F', 40, 0, 0, 0, b'W', b'A', b'V', b'E', b'f', b'm', b't', b' ', 16, 0,
            0, 0, 1, 0, 1, 0, 0x80, 0x3e, 0, 0, 0x00, 0x7d, 0, 0, 2, 0, 16, 0, b'd', b'a', b't', b'a',
            4, 0, 0, 0, 1, 0, 0xfe, 0xff,
        ]
    );
}

#[test]
fn wav_files_are_read_back() {
    let samples: Vec<i16> = vec![0, 1, -1, 32767, -32768, 256, -257];
    let wav = parse_wav(&wav_bytes(&samples)).unwrap();
    assert_eq!(wav.samples, samples);
    assert_eq!((wav.channels, wav.rate, wav.bits), (1, 16000, 16));
    let mut odd = wav_bytes(&samples);
    odd.push(9);
    assert_eq!(parse_wav(&odd).unwrap().samples, samples);
}

#[test]
fn the_format_of_a_wav_file_is_read() {
    let mut bytes = wav_bytes(&[]);
    assert!(parse_wav(&bytes).unwrap().samples.is_empty());
    bytes[22] = 2;
    bytes[23] = 1;
    bytes[24..28].copy_from_slice(&[0x44, 0xac, 0x01, 0x80]);
    bytes[34] = 24;
    let wav = parse_wav(&bytes).unwrap();
    assert_eq!((wav.channels, wav.rate, wav.bits), (258, 0x8001_ac44, 24));
}

#[test]
fn other_files_are_refused() {
    let bytes = wav_bytes(&[]);
    assert!(parse_wav(&bytes[..43]).is_err());
    assert!(parse_wav(&[]).is_err());
    for i in 0..4 {
        let mut broken = bytes.clone();
        broken[i] = b'X';
        assert!(parse_wav(&broken).is_err());
    }
}
