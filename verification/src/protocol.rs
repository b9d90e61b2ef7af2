//! The commands that control the translator and the events that it reports.

use crate::single::Single;
use crate::text::{prefixed, texts};
use vstd::prelude::*;
use vstd::string::*;

verus! {

/// What the translator can be told to do.
#[derive(Debug)]
pub enum Command {
    /// Listen to speech in the language `src` and translate it to `tgt`.
    Start { src: String, tgt: String },
    /// Stop listening.
    Stop,
    /// Leave the program.
    Quit,
}

/// A [`Command`] with its texts as sequences of characters.
pub enum CommandView {
    Start { src: Seq<char>, tgt: Seq<char> },
    Stop,
    Quit,
}

impl View for Command {
    type V = CommandView;

    open spec fn view(&self) -> CommandView {
        match self {
            Command::Start { src, tgt } => CommandView::Start { src: src@, tgt: tgt@ },
            Command::Stop => CommandView::Stop,
            Command::Quit => CommandView::Quit,
        }
    }
}

/// What the translator reports.
#[derive(Debug)]
pub enum Event {
    /// A preview of the speech that is going on.
    Partial { text: String, lang: String, confidence: Option<Single> },
    /// A finished stretch of speech with its translation.
    Final { text: String, translated: String, lang: String, confidence: Option<Single> },
    /// The translator has changed its state.
    Status { state: String },
    /// Something went wrong.
    Error { message: String },
}

/// An [`Event`] with its texts as sequences of characters.
pub enum EventView {
    Partial { text: Seq<char>, lang: Seq<char>, confidence: Option<Single> },
    Final {
        text: Seq<char>,
        translated: Seq<char>,
        lang: Seq<char>,
        confidence: Option<Single>,
    },
    Status { state: Seq<char> },
    Error { message: Seq<char> },
}

impl View for Event {
    type V = EventView;

    open spec fn view(&self) -> EventView {
        match self {
            Event::Partial { text, lang, confidence } => EventView::Partial {
                text: text@,
                lang: lang@,
                confidence: *confidence,
            },
            Event::Final { text, translated, lang, confidence } => EventView::Final {
                text: text@,
                translated: translated@,
                lang: lang@,
                confidence: *confidence,
            },
            Event::Status { state } => EventView::Status { state: state@ },
            Event::Error { message } => EventView::Error { message: message@ },
        }
    }
}

/// The line that stands for an event where only results are wanted.
pub open spec fn result_line(e: EventView) -> Option<Seq<char>> {
    match e {
        EventView::Final { text, translated, .. } => Some(text + "\t"@ + translated),
        _ => None,
    }
}

/// The lines that show an event to a person.
pub open spec fn display_lines(e: EventView) -> Seq<Seq<char>> {
    match e {
        EventView::Status { state } => seq!["  ["@ + state + "]"@],
        EventView::Partial { text, .. } => seq!["  ... "@ + text],
        EventView::Final { text, translated, .. } => seq![
            "  ASR: "@ + text,
            "  NMT: "@ + translated,
        ],
        EventView::Error { message } => seq!["  ERR: "@ + message],
    }
}

impl Event {
    /// The line for an event where only results are wanted: the recognized text, a tab and the
    /// translation. Only a finished stretch of speech has one.
    pub fn quiet_line(&self) -> (r: Option<String>)
        ensures
            match r {
                Some(line) => result_line(self@) == Some(line@),
                None => result_line(self@) is None,
            },
    {
        match self {
            Event::Final { text, translated, .. } => {
                let mut line = prefixed(text.as_str(), "\t");
                line.append(translated.as_str());
                Some(line)
            },
            _ => None,
        }
    }

    /// The lines that show an event to a person.
    pub fn human_lines(&self) -> (r: Vec<String>)
        ensures
            texts(r@) == display_lines(self@),
    {
        let mut r: Vec<String> = Vec::new();
        match self {
            Event::Status { state } => {
                let mut line = prefixed("  [", state.as_str());
                line.append("]");
                r.push(line);
            },
            Event::Partial { text, .. } => {
                r.push(prefixed("  ... ", text.as_str()));
            },
            Event::Final { text, translated, .. } => {
                r.push(prefixed("  ASR: ", text.as_str()));
                r.push(prefixed("  NMT: ", translated.as_str()));
            },
            Event::Error { message } => {
                r.push(prefixed("  ERR: ", message.as_str()));
            },
        }
        assert(texts(r@) =~= display_lines(self@));
        r
    }
}

/// The command that starts the translator without being asked, if that is wanted.
pub fn auto_start_cmd(auto_start: bool, src: &str, tgt: &str) -> (r: Option<Command>)
    ensures
        match r {
            Some(command) => auto_start && command@ == (CommandView::Start {
                src: src@,
                tgt: tgt@,
            }),
            None => !auto_start,
        },
{
    if auto_start {
        Some(Command::Start { src: String::from_str(src), tgt: String::from_str(tgt) })
    } else {
        None
    }
}

/// Of all events only a finished stretch of speech has a line among the results: its text, a tab
/// and its translation, whatever its language and its confidence are.
pub proof fn results_are_texts_with_translations(e: EventView)
    ensures
        result_line(e) is Some <==> e is Final,
        e matches EventView::Final { text, translated, lang, confidence } ==> {
            let line = result_line(e).unwrap();
            &&& line.len() == text.len() + 1 + translated.len()
            &&& line.take(text.len() as int) == text
            &&& line[text.len() as int] == '\t'
            &&& line.skip(text.len() as int + 1) == translated
        },
{
    reveal_strlit("\t");
    if let EventView::Final { text, translated, lang, confidence } = e {
        let line = result_line(e).unwrap();
        assert(line.take(text.len() as int) =~= text);
        assert(line.skip(text.len() as int + 1) =~= translated);
    }
}

/// What a person is shown of an event: a state in brackets, a preview behind dots, a text and
/// its translation on a line each, or what went wrong. The texts are shown whole and as they
/// are.
pub proof fn events_are_shown_whole(e: EventView)
    ensures
        match e {
            EventView::Status { state } => display_lines(e) == seq!["  ["@ + state + "]"@],
            EventView::Partial { text, lang, confidence } => display_lines(e) == seq![
                "  ... "@ + text,
            ],
            EventView::Final { text, translated, lang, confidence } => display_lines(e) == seq![
                "  ASR: "@ + text,
                "  NMT: "@ + translated,
            ],
            EventView::Error { message } => display_lines(e) == seq!["  ERR: "@ + message],
        },
{
}

/// What is said of commands and events is said of all that is in them.
pub proof fn messages_are_seen_whole(
    a: String,
    b: String,
    c: String,
    confidence: Option<Single>,
)
    ensures
        (Command::Start { src: a, tgt: b })@ == (CommandView::Start { src: a@, tgt: b@ }),
        Command::Stop@ == CommandView::Stop,
        Command::Quit@ == CommandView::Quit,
        (Event::Partial { text: a, lang: b, confidence })@ == (EventView::Partial {
            text: a@,
            lang: b@,
            confidence,
        }),
        (Event::Final { text: a, translated: b, lang: c, confidence })@ == (EventView::Final {
            text: a@,
            translated: b@,
            lang: c@,
            confidence,
        }),
        (Event::Status { state: a })@ == (EventView::Status { state: a@ }),
        (Event::Error { message: a })@ == (EventView::Error { message: a@ }),
{
}

/// The translator starts by itself exactly if that is wanted, and then with the given languages.
pub proof fn starting_is_as_wanted(auto_start: bool, src: &str, tgt: &str, r: Option<Command>)
    requires
        call_ensures(auto_start_cmd, (auto_start, src, tgt), r),
    ensures
        r is Some <==> auto_start,
        r matches Some(command) ==> command@ == (CommandView::Start { src: src@, tgt: tgt@ }),
{
}

/// A finished stretch of speech, and no other event, has a line among the results: its text, a
/// tab and its translation. The last line that a person is shown of it ends with the
/// translation.
pub proof fn results_are_lines(e: &Event, line: Option<String>, shown: Vec<String>)
    requires
        call_ensures(Event::quiet_line, (e,), line),
        call_ensures(Event::human_lines, (e,), shown),
    ensures
        line is Some <==> *e is Final,
        shown@.len() == if *e is Final {
            2int
        } else {
            1
        },
        *e matches Event::Final { text, translated, lang, confidence } ==> {
            let n = text@.len() as int;
            &&& line matches Some(l) && l@.take(n) == text@ && l@[n] == '\t' && l@.skip(n + 1)
                == translated@
            &&& shown@[1]@ == "  NMT: "@ + translated@
        },
{
    results_are_texts_with_translations(e@);
    events_are_shown_whole(e@);
    assert(texts(shown@).len() == shown@.len());
    if *e is Final {
        assert(texts(shown@)[1] == shown@[1]@);
    }
}

} // verus!
