use live_translator::protocol::{auto_start_cmd, Command, Event};

#[test]
fn quiet_mode_prints_text_tab_translation() {
    let event = Event::Final {
        text: "These chocolate eggs".to_string(),
        translated: "这些巧克力蛋".to_string(),
        lang: "en".to_string(),
        confidence: None,
    };
    assert_eq!(event.quiet_line().unwrap(), "These chocolate eggs\t这些巧克力蛋");
    assert_eq!(
        event.human_lines(),
        ["  ASR: These chocolate eggs", "  NMT: 这些巧克力蛋"]
    );
}

#[test]
fn quiet_mode_prints_nothing_else() {
    let partial = Event::Partial {
        text: "hello".to_string(),
        lang: "en".to_string(),
        confidence: None,
    };
    let status = Event::Status { state: "listening".to_string() };
    let error = Event::Error { message: "no device".to_string() };
    assert!(partial.quiet_line().is_none());
    assert!(status.quiet_line().is_none());
    assert!(error.quiet_line().is_none());
    assert_eq!(partial.human_lines(), ["  ... hello"]);
    assert_eq!(status.human_lines(), ["  [listening]"]);
    assert_eq!(error.human_lines(), ["  ERR: no device"]);
}

#[test]
fn auto_start_starts_with_the_given_languages() {
    assert!(auto_start_cmd(false, "en", "zh").is_none());
    match auto_start_cmd(true, "en", "zh") {
        Some(Command::Start { src, tgt }) => {
            assert_eq!(src, "en");
            assert_eq!(tgt, "zh");
        }
        other => panic!("{:?}", other),
    }
}
