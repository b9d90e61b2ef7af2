//! Audio sources: the format that is captured and where it is captured from.

use crate::text::{
    all_ascii, ascii_lower, ascii_lowered, blank, chars_of, contains, decimal, decimal_digits,
    equal_letters, is_blank, lines, lines_of, lowercase, occurs_in, prefixed, same_letters, string_of,
    texts, to_lowercase,
};
use crate::vad::extend;
use vstd::prelude::*;
use vstd::slice::slice_subrange;
use vstd::string::*;

verus! {

/// Samples per second of the captured audio.
pub const TARGET_RATE: i32 = 16000;

/// Samples per captured chunk.
pub const CHUNK_SAMPLES: usize = 512;

/// Samples per captured chunk.
pub fn window_size() -> (r: usize)
    ensures
        r == 512,
        r == CHUNK_SAMPLES,
{
    CHUNK_SAMPLES
}

/// Samples per second of the captured audio.
pub fn sample_rate() -> (r: i32)
    ensures
        r == TARGET_RATE,
{
    TARGET_RATE
}

/// The signed 16-bit number with the given bytes, the low one first.
pub open spec fn sample_of(lo: u8, hi: u8) -> int {
    if hi >= 128 {
        lo + 256 * hi - 65536
    } else {
        lo + 256 * hi
    }
}

/// The samples of raw 16-bit audio. An odd byte at the end is no sample.
pub open spec fn samples_of(bytes: Seq<u8>) -> Seq<i16> {
    Seq::new(
        bytes.len() / 2,
        |i: int| sample_of(bytes[2 * i], bytes[2 * i + 1]) as i16,
    )
}

/// Decodes raw 16-bit audio, the low byte of each sample first.
pub fn pcm_samples(bytes: &[u8]) -> (r: Vec<i16>)
    ensures
        r@ == samples_of(bytes@),
{
    let len: usize = bytes.len();
    let n: usize = len / 2;
    let mut r: Vec<i16> = Vec::new();
    for i in 0..n
        invariant
            n == len / 2,
            len == bytes@.len(),
            r@ == samples_of(bytes@).take(i as int),
    {
        let lo: i32 = bytes[2 * i] as i32;
        let hi: i32 = bytes[2 * i + 1] as i32;
        let value: i32 = if hi >= 128 {
            lo + 256 * hi - 65536
        } else {
            lo + 256 * hi
        };
        r.push(value as i16);
        assert(r@ =~= samples_of(bytes@).take(i + 1));
    }
    assert(samples_of(bytes@).take(n as int) =~= samples_of(bytes@));
    r
}

/// The full chunks that some samples begin with.
pub open spec fn full_chunks<S>(s: Seq<S>) -> Seq<Seq<S>>
    decreases s.len(),
{
    if s.len() >= CHUNK_SAMPLES {
        seq![s.take(CHUNK_SAMPLES as int)] + full_chunks(s.skip(CHUNK_SAMPLES as int))
    } else {
        seq![]
    }
}

/// What follows the full chunks of some samples.
pub open spec fn after_full_chunks<S>(s: Seq<S>) -> Seq<S>
    decreases s.len(),
{
    if s.len() >= CHUNK_SAMPLES {
        after_full_chunks(s.skip(CHUNK_SAMPLES as int))
    } else {
        s
    }
}

/// The given chunks as sequences.
pub open spec fn chunk_views<S>(chunks: Seq<Vec<S>>) -> Seq<Seq<S>> {
    chunks.map_values(|c: Vec<S>| c@)
}

/// Regroups captured audio, which comes in pieces of any size, into full chunks. `held` are the
/// samples that no chunk has been made of yet; `more` follows them.
pub fn regroup<S: Copy>(held: &mut Vec<S>, more: &[S]) -> (r: Vec<Vec<S>>)
    ensures
        chunk_views(r@) == full_chunks(old(held)@ + more@),
        final(held)@ == after_full_chunks(old(held)@ + more@),
        forall|i: int| 0 <= i < r@.len() ==> (#[trigger] r@[i])@.len() == CHUNK_SAMPLES,
        final(held)@.len() < CHUNK_SAMPLES,
        chunk_views(r@).flatten() + final(held)@ == old(held)@ + more@,
{
    let ghost all = held@ + more@;
    extend(held, more);
    let mut r: Vec<Vec<S>> = Vec::new();
    assert(chunk_views(r@) + full_chunks(all) =~= full_chunks(all));
    while held.len() >= CHUNK_SAMPLES
        invariant
            chunk_views(r@) + full_chunks(held@) == full_chunks(all),
            after_full_chunks(held@) == after_full_chunks(all),
        decreases held@.len(),
    {
        let ghost before = held@;
        let ghost already = chunk_views(r@);
        let mut chunk = held.split_off(CHUNK_SAMPLES);
        std::mem::swap(&mut chunk, held);
        r.push(chunk);
        assert(chunk@ =~= before.take(CHUNK_SAMPLES as int));
        assert(held@ =~= before.skip(CHUNK_SAMPLES as int));
        assert(chunk_views(r@) =~= already.push(chunk@));
        assert(chunk_views(r@) + full_chunks(held@) =~= already + full_chunks(before));
    }
    assert(chunk_views(r@) + full_chunks(held@) =~= chunk_views(r@));
    proof {
        chunks_lose_nothing(all);
        assert forall|i: int| 0 <= i < r@.len() implies (#[trigger] r@[i])@.len()
            == CHUNK_SAMPLES by {
            assert(chunk_views(r@)[i] == r@[i]@);
        }
    }
    r
}

/// Regrouping loses no sample, repeats none and moves none: the full chunks one after the other,
/// and then what follows them, are the samples as they came.
pub proof fn chunks_lose_nothing<S>(s: Seq<S>)
    ensures
        full_chunks(s).flatten() + after_full_chunks(s) == s,
        after_full_chunks(s).len() < CHUNK_SAMPLES,
        forall|i: int|
            0 <= i < full_chunks(s).len() ==> (#[trigger] full_chunks(s)[i]).len()
                == CHUNK_SAMPLES,
    decreases s.len(),
{
    if s.len() >= CHUNK_SAMPLES {
        let first = s.take(CHUNK_SAMPLES as int);
        let rest = s.skip(CHUNK_SAMPLES as int);
        chunks_lose_nothing(rest);
        assert(full_chunks(s).drop_first() =~= full_chunks(rest));
        assert(full_chunks(s).flatten() =~= first + full_chunks(rest).flatten());
        assert(full_chunks(s).flatten() + after_full_chunks(s) =~= first + (full_chunks(
            rest,
        ).flatten() + after_full_chunks(rest)));
        assert(first + rest =~= s);
        assert forall|i: int| 0 <= i < full_chunks(s).len() implies (#[trigger] full_chunks(
            s,
        )[i]).len() == CHUNK_SAMPLES by {
            if i > 0 {
                assert(full_chunks(s)[i] == full_chunks(rest)[i - 1]);
            }
        }
    } else {
        assert(full_chunks(s).flatten() + after_full_chunks(s) =~= s);
    }
}

/// The names of devices; a device whose name cannot be read has none.
pub open spec fn names(devices: Seq<Option<String>>) -> Seq<Option<Seq<char>>> {
    devices.map_values(
        |d: Option<String>|
            match d {
                Some(name) => Some(name@),
                None => None,
            },
    )
}

/// Whether a device has a name in which `query` occurs, the case of letters aside. `query` is
/// in lower case.
pub open spec fn name_matches(name: Option<Seq<char>>, query: Seq<char>) -> bool {
    name matches Some(n) && occurs_in(lowercase(n), query)
}

/// Whether a device has an ASCII name in which `query` occurs, the case of letters aside.
/// `query` is in lower case.
pub open spec fn ascii_name_matches(name: Option<Seq<char>>, query: Seq<char>) -> bool {
    name matches Some(n) && all_ascii(n) && occurs_in(ascii_lowered(n), query)
}

/// The first position from `i` on, below `n`, at which `p` holds.
pub open spec fn first_from(i: int, n: int, p: spec_fn(int) -> bool) -> Option<int>
    decreases n - i,
{
    if i >= n {
        None
    } else if p(i) {
        Some(i)
    } else {
        first_from(i + 1, n, p)
    }
}

/// The name of the device that listens to an output.
pub open spec fn monitor_name(output: Seq<char>) -> Seq<char> {
    output + ".monitor"@
}

/// The input that listens to an output: the one with exactly that name, or else the first one
/// in whose name it occurs.
pub open spec fn monitor_input(inputs: Seq<Option<Seq<char>>>, output: Seq<char>) -> Option<int> {
    let monitor = monitor_name(output);
    match first_from(0, inputs.len() as int, |i: int| inputs[i] == Some(monitor)) {
        Some(i) => Some(i),
        None => first_from(
            0,
            inputs.len() as int,
            |i: int| name_matches(inputs[i], lowercase(monitor)),
        ),
    }
}

/// Whether `query` may mean an output: it occurs in its name or in that of its monitor.
pub open spec fn output_matches(output: Option<Seq<char>>, query: Seq<char>) -> bool {
    output matches Some(n) && (occurs_in(lowercase(n), query) || occurs_in(
        lowercase(monitor_name(n)),
        query,
    ))
}

/// The input that listens to the first output from `j` on that `query` may mean and that some
/// input listens to.
pub open spec fn monitored_input(
    inputs: Seq<Option<Seq<char>>>,
    outputs: Seq<Option<Seq<char>>>,
    query: Seq<char>,
    j: int,
) -> Option<int>
    decreases outputs.len() - j,
{
    if j >= outputs.len() {
        None
    } else if output_matches(outputs[j], query) && monitor_input(inputs, outputs[j].unwrap()) is Some {
        monitor_input(inputs, outputs[j].unwrap())
    } else {
        monitored_input(inputs, outputs, query, j + 1)
    }
}

/// The input device that a name means: the first one in whose name it occurs, or else the one
/// that listens to an output that it means.
pub open spec fn chosen_input(
    inputs: Seq<Option<Seq<char>>>,
    outputs: Seq<Option<Seq<char>>>,
    name: Seq<char>,
) -> Option<int> {
    let query = lowercase(name);
    match first_from(0, inputs.len() as int, |i: int| name_matches(inputs[i], query)) {
        Some(i) => Some(i),
        None => monitored_input(inputs, outputs, query, 0),
    }
}

/// The first input in whose name `query` occurs.
fn find_by_part(inputs: &Vec<Option<String>>, query: &str) -> (r: Option<usize>)
    ensures
        match r {
            Some(k) => first_from(
                0,
                inputs@.len() as int,
                |i: int| name_matches(names(inputs@)[i], query@),
            ) == Some(k as int),
            None => first_from(
                0,
                inputs@.len() as int,
                |i: int| name_matches(names(inputs@)[i], query@),
            ) is None,
        },
        forall|i: int|
            0 <= i < inputs@.len() && #[trigger] ascii_name_matches(names(inputs@)[i], query@) ==> (
            r matches Some(k) && k <= i),
{
    let n: usize = inputs.len();
    let ghost p = |i: int| name_matches(names(inputs@)[i], query@);
    let wanted = chars_of(query);
    let mut i: usize = 0;
    while i < n
        invariant
            i <= n,
            n == inputs@.len(),
            wanted@ == query@,
            p == (|i: int| name_matches(names(inputs@)[i], query@)),
            first_from(0, n as int, p) == first_from(i as int, n as int, p),
            forall|j: int| 0 <= j < i ==> !#[trigger] ascii_name_matches(names(inputs@)[j], query@),
        decreases n - i,
    {
        if let Some(name) = &inputs[i] {
            if contains(&chars_of(to_lowercase(name.as_str()).as_str()), &wanted) {
                assert(p(i as int));
                return Some(i);
            }
        }
        assert(!p(i as int));
        i = i + 1;
    }
    None
}

/// The first input with exactly the given name.
fn find_by_name(inputs: &Vec<Option<String>>, wanted: &String) -> (r: Option<usize>)
    ensures
        match r {
            Some(k) => first_from(
                0,
                inputs@.len() as int,
                |i: int| names(inputs@)[i] == Some(wanted@),
            ) == Some(k as int),
            None => first_from(
                0,
                inputs@.len() as int,
                |i: int| names(inputs@)[i] == Some(wanted@),
            ) is None,
        },
{
    let n: usize = inputs.len();
    let ghost p = |i: int| names(inputs@)[i] == Some(wanted@);
    let mut i: usize = 0;
    while i < n
        invariant
            i <= n,
            n == inputs@.len(),
            p == (|i: int| names(inputs@)[i] == Some(wanted@)),
            first_from(0, n as int, p) == first_from(i as int, n as int, p),
        decreases n - i,
    {
        if let Some(name) = &inputs[i] {
            if *name == *wanted {
                assert(p(i as int));
                return Some(i);
            }
        }
        assert(!p(i as int));
        i = i + 1;
    }
    None
}

/// The input that listens to the named output.
fn find_monitor(inputs: &Vec<Option<String>>, monitor: &String) -> (r: Option<usize>)
    ensures
        forall|output: Seq<char>|
            monitor@ == #[trigger] monitor_name(output) ==> match r {
                Some(k) => monitor_input(names(inputs@), output) == Some(k as int),
                None => monitor_input(names(inputs@), output) is None,
            },
{
    match find_by_name(inputs, monitor) {
        Some(i) => Some(i),
        None => find_by_part(inputs, to_lowercase(monitor.as_str()).as_str()),
    }
}

/// The number of the input device that a name means.
///
/// A name may mean an output as well: then it is the device that listens to that output, whose
/// name is the one of the output with ".monitor" behind it. An input in whose name an ASCII
/// name occurs is never passed over for a later one, or for none.
pub fn find_device(
    inputs: &Vec<Option<String>>,
    outputs: &Vec<Option<String>>,
    name: &str,
) -> (r: Option<usize>)
    ensures
        match r {
            Some(k) => chosen_input(names(inputs@), names(outputs@), name@) == Some(k as int)
                && k < inputs@.len(),
            None => chosen_input(names(inputs@), names(outputs@), name@) is None,
        },
        all_ascii(name@) ==> forall|i: int|
            0 <= i < inputs@.len() && #[trigger] ascii_name_matches(
                names(inputs@)[i],
                ascii_lowered(name@),
            ) ==> (r matches Some(k) && k <= i),
{
    let name_lower = to_lowercase(name);
    let ghost query = lowercase(name@);
    proof {
        first_is_within(0, inputs@.len() as int, |i: int| name_matches(names(inputs@)[i], query));
    }
    if let Some(i) = find_by_part(inputs, name_lower.as_str()) {
        return Some(i);
    }
    let wanted = chars_of(name_lower.as_str());
    let n: usize = outputs.len();
    let mut j: usize = 0;
    while j < n
        invariant
            j <= n,
            n == outputs@.len(),
            query == lowercase(name@),
            wanted@ == query,
            all_ascii(name@) ==> query == ascii_lowered(name@),
            forall|i: int|
                0 <= i < inputs@.len() ==> !#[trigger] ascii_name_matches(names(inputs@)[i], query),
            first_from(
                0,
                inputs@.len() as int,
                |i: int| name_matches(names(inputs@)[i], query),
            ) is None,
            monitored_input(names(inputs@), names(outputs@), query, 0) == monitored_input(
                names(inputs@),
                names(outputs@),
                query,
                j as int,
            ),
        decreases n - j,
    {
        if let Some(output) = &outputs[j] {
            let mut monitor = output.clone();
            monitor.append(".monitor");
            assert(monitor@ == monitor_name(output@));
            if contains(&chars_of(to_lowercase(output.as_str()).as_str()), &wanted) || contains(
                &chars_of(to_lowercase(monitor.as_str()).as_str()),
                &wanted,
            ) {
                if let Some(i) = find_monitor(inputs, &monitor) {
                    proof {
                        monitor_is_within(names(inputs@), output@);
                    }
                    return Some(i);
                }
            }
        }
        j = j + 1;
    }
    None
}

/// Where audio is captured from.
#[derive(Debug, PartialEq, Eq, Structural, Clone, Copy)]
pub enum Source {
    /// The input device that the system prefers.
    DefaultInput,
    /// The input device with this number.
    Input(usize),
    /// A recording program.
    Program,
}

/// Where audio is captured from, given a name. No name means the default input; where there is
/// no such device, a recording program is tried.
pub open spec fn source_for(
    inputs: Seq<Option<Seq<char>>>,
    outputs: Seq<Option<Seq<char>>>,
    has_default: bool,
    name: Seq<char>,
) -> Source {
    if name.len() == 0 {
        if has_default {
            Source::DefaultInput
        } else {
            Source::Program
        }
    } else {
        match chosen_input(inputs, outputs, name) {
            Some(i) => Source::Input(i as usize),
            None => Source::Program,
        }
    }
}

/// Decides where audio is captured from, given the devices and the name that was asked for.
pub fn capture_source(
    inputs: &Vec<Option<String>>,
    outputs: &Vec<Option<String>>,
    has_default: bool,
    name: &str,
) -> (r: Source)
    ensures
        r == source_for(names(inputs@), names(outputs@), has_default, name@),
        name@.len() > 0 && all_ascii(name@) ==> forall|i: int|
            0 <= i < inputs@.len() && #[trigger] ascii_name_matches(
                names(inputs@)[i],
                ascii_lowered(name@),
            ) ==> (r matches Source::Input(k) && k <= i),
{
    if name.unicode_len() == 0 {
        if has_default {
            Source::DefaultInput
        } else {
            Source::Program
        }
    } else {
        match find_device(inputs, outputs, name) {
            Some(i) => Source::Input(i),
            None => Source::Program,
        }
    }
}

/// A program with its arguments.
#[derive(Debug)]
pub struct CaptureCommand {
    pub program: String,
    pub args: Vec<String>,
}

/// A [`CaptureCommand`] with its texts as sequences of characters.
pub struct CaptureCommandView {
    pub program: Seq<char>,
    pub args: Seq<Seq<char>>,
}

impl View for CaptureCommand {
    type V = CaptureCommandView;

    open spec fn view(&self) -> CaptureCommandView {
        CaptureCommandView { program: self.program@, args: texts(self.args@) }
    }
}

/// The program that records from what a node plays, the default one or a named one.
pub open spec fn record_sink(target: Option<Seq<char>>) -> CaptureCommandView {
    CaptureCommandView {
        program: "pw-cat"@,
        args: seq![
            "--record"@,
            "-P"@,
            match target {
                None => "{stream.capture.sink=true}"@,
                Some(t) => "{stream.capture.sink=true,node.target="@ + t + "}"@,
            },
            "--rate=16000"@,
            "--channels=1"@,
            "--format=s16"@,
            "--raw"@,
            "-"@,
        ],
    }
}

/// The program that records from a named source.
pub open spec fn record_target(name: Seq<char>) -> CaptureCommandView {
    CaptureCommandView {
        program: "pw-cat"@,
        args: seq![
            "--record"@,
            "--target"@,
            name,
            "--rate=16000"@,
            "--channels=1"@,
            "--format=s16"@,
            "-"@,
        ],
    }
}

/// The program that records from a named source where the others do not run.
pub open spec fn record_fallback(name: Seq<char>) -> CaptureCommandView {
    CaptureCommandView {
        program: "parec"@,
        args: seq!["--device"@, name, "--format=s16le"@, "--rate=16000"@, "--channels=1"@],
    }
}

/// How long ".monitor" is.
pub const SUFFIX_LEN: usize = 8;

/// Whether a name means what is played by default.
pub open spec fn names_default_monitor(name: Seq<char>) -> bool {
    same_letters(name, "monitor"@)
}

/// Whether a name means what a named device plays.
pub open spec fn names_monitor(name: Seq<char>) -> bool {
    name.len() >= SUFFIX_LEN && same_letters(name.skip(name.len() - SUFFIX_LEN), ".monitor"@)
}

/// The recording programs that are tried for a name, in this order, until one of them works.
///
/// The name "monitor" stands for what the system plays, a name that ends with ".monitor" for
/// what the device named before it plays. Any other name is tried as a source, then as a device
/// whose sound is recorded. Letters of either case count the same in "monitor".
pub open spec fn attempts(name: Seq<char>) -> Seq<CaptureCommandView> {
    if names_default_monitor(name) {
        seq![record_sink(None), record_fallback(name)]
    } else if names_monitor(name) {
        seq![record_sink(Some(name.take(name.len() - SUFFIX_LEN))), record_fallback(name)]
    } else {
        seq![record_target(name), record_sink(Some(name)), record_fallback(name)]
    }
}

fn sink_command(target: Option<&str>) -> (r: CaptureCommand)
    ensures
        r@ == record_sink(match target {
            Some(t) => Some(t@),
            None => None,
        }),
{
    let props = match target {
        None => String::from_str("{stream.capture.sink=true}"),
        Some(t) => {
            let mut props = prefixed("{stream.capture.sink=true,node.target=", t);
            props.append("}");
            props
        },
    };
    let r = CaptureCommand {
        program: String::from_str("pw-cat"),
        args: vec![
            String::from_str("--record"),
            String::from_str("-P"),
            props,
            String::from_str("--rate=16000"),
            String::from_str("--channels=1"),
            String::from_str("--format=s16"),
            String::from_str("--raw"),
            String::from_str("-"),
        ],
    };
    assert(r@.args =~= record_sink(match target {
        Some(t) => Some(t@),
        None => None,
    }).args);
    r
}

fn target_command(name: &str) -> (r: CaptureCommand)
    ensures
        r@ == record_target(name@),
{
    let r = CaptureCommand {
        program: String::from_str("pw-cat"),
        args: vec![
            String::from_str("--record"),
            String::from_str("--target"),
            String::from_str(name),
            String::from_str("--rate=16000"),
            String::from_str("--channels=1"),
            String::from_str("--format=s16"),
            String::from_str("-"),
        ],
    };
    assert(r@.args =~= record_target(name@).args);
    r
}

fn fallback_command(name: &str) -> (r: CaptureCommand)
    ensures
        r@ == record_fallback(name@),
{
    let r = CaptureCommand {
        program: String::from_str("parec"),
        args: vec![
            String::from_str("--device"),
            String::from_str(name),
            String::from_str("--format=s16le"),
            String::from_str("--rate=16000"),
            String::from_str("--channels=1"),
        ],
    };
    assert(r@.args =~= record_fallback(name@).args);
    r
}

/// The commands with the given texts.
pub open spec fn command_views(v: Seq<CaptureCommand>) -> Seq<CaptureCommandView> {
    v.map_values(|c: CaptureCommand| c@)
}

/// The recording programs that are to be tried for a name, in this order.
pub fn capture_attempts(name: &str) -> (r: Vec<CaptureCommand>)
    ensures
        command_views(r@) == attempts(name@),
{
    let cs = chars_of(name);
    let n: usize = cs.len();
    if equal_letters(&cs, &chars_of("monitor")) {
        let r = vec![
            sink_command(None),
            fallback_command(name),
        ];
        assert(command_views(r@) =~= attempts(name@));
        return r;
    }
    if n >= SUFFIX_LEN {
        let suffix = slice_subrange(cs.as_slice(), n - SUFFIX_LEN, n);
        assert(suffix@ =~= name@.skip(n - SUFFIX_LEN));
        if equal_letters(suffix, &chars_of(".monitor")) {
            let target = string_of(slice_subrange(cs.as_slice(), 0, n - SUFFIX_LEN));
            assert(target@ =~= name@.take(n - SUFFIX_LEN));
            let r = vec![sink_command(Some(target.as_str())), fallback_command(name)];
            assert(command_views(r@) =~= attempts(name@));
            return r;
        }
    }
    let r = vec![
        target_command(name),
        sink_command(Some(name)),
        fallback_command(name),
    ];
    assert(command_views(r@) =~= attempts(name@));
    r
}

/// A device as it is listed.
#[derive(Debug)]
pub struct DeviceInfo {
    pub name: String,
    pub channels: u16,
    pub rate: u32,
}

/// A [`DeviceInfo`] with its name as a sequence of characters.
pub struct DeviceInfoView {
    pub name: Seq<char>,
    pub channels: u16,
    pub rate: u32,
}

impl View for DeviceInfo {
    type V = DeviceInfoView;

    open spec fn view(&self) -> DeviceInfoView {
        DeviceInfoView { name: self.name@, channels: self.channels, rate: self.rate }
    }
}

/// The devices with the given names.
pub open spec fn device_views(v: Seq<DeviceInfo>) -> Seq<DeviceInfoView> {
    v.map_values(|d: DeviceInfo| d@)
}

/// What the sound server says about its sources.
#[derive(Debug)]
pub enum SourceList {
    /// The sources, one per line.
    Text(String),
    /// It could not be asked successfully.
    Failed,
    /// There is no way to ask it.
    Missing,
}

/// The line with the number and the name of a device.
pub open spec fn name_line(i: nat, d: DeviceInfoView) -> Seq<char> {
    "(  ["@ + decimal_digits(i) + "] "@ + d.name
}

/// The line with the format of a device; for an output, also with the name of its monitor.
pub open spec fn format_line(d: DeviceInfoView, output: bool) -> Seq<char> {
    let format = "(       "@ + decimal_digits(d.channels as nat) + "ch "@ + decimal_digits(
        d.rate as nat,
    ) + "Hz"@;
    if output {
        format + "  \u{2192} monitor: "@ + monitor_name(d.name)
    } else {
        format
    }
}

/// The lines of some devices, which are numbered from 0 on.
pub open spec fn device_lines(devices: Seq<DeviceInfoView>, output: bool) -> Seq<Seq<char>>
    decreases devices.len(),
{
    if devices.len() == 0 {
        seq![]
    } else {
        let d = devices.last();
        device_lines(devices.drop_last(), output).push(
            name_line((devices.len() - 1) as nat, d),
        ).push(format_line(d, output))
    }
}

/// The lines of a text that are not blank, as they are listed.
pub open spec fn source_lines(lines: Seq<Seq<char>>) -> Seq<Seq<char>>
    decreases lines.len(),
{
    if lines.len() == 0 {
        seq![]
    } else {
        let before = source_lines(lines.drop_last());
        if is_blank(lines.last()) {
            before
        } else {
            before.push("(  "@ + lines.last())
        }
    }
}

/// The lines about the sources of the sound server.
pub open spec fn sources_listed(sources: SourceList) -> Seq<Seq<char>> {
    match sources {
        SourceList::Text(text) => source_lines(lines_of(text@)),
        SourceList::Failed => seq!["(  (pactl failed \u{2014} 可能需要安装 pipewire-pulse)"@],
        SourceList::Missing => seq!["(  (pactl 不可用 \u{2014} 试试 pw-cli list-objects)"@],
    }
}

/// All lines of the list of devices.
pub open spec fn listing(
    inputs: Seq<DeviceInfoView>,
    outputs: Seq<DeviceInfoView>,
    sources: SourceList,
) -> Seq<Seq<char>> {
    seq!["(=== 输入设备 (Input) ==="@] + device_lines(inputs, false) + seq![
        "(\n=== 输出设备 (Output) \u{2014} 可用 *.monitor 源抓系统声音 ==="@,
    ] + device_lines(outputs, true) + seq![
        "(\n=== PulseAudio/PipeWire 所有输入源 (pactl) ==="@,
    ] + sources_listed(sources) + seq![
        "(\n抓取 Chrome 浏览器声音:"@,
        "(  1. 创建虚拟 sink:  pactl load-module module-null-sink sink_name=chrome_sink"@,
        "(  2. 用 pavucontrol 把 Chrome 音频输出路由到 chrome_sink"@,
        "(  3. 启动:  live-translator --audio-device chrome_sink.monitor --auto-start"@,
        "(  或直接用系统默认 monitor:"@,
        "(     live-translator --audio-device \"monitor\" --auto-start"@,
    ]
}

fn push_device_lines(lines: &mut Vec<String>, devices: &Vec<DeviceInfo>, output: bool)
    ensures
        texts(final(lines)@) == texts(old(lines)@) + device_lines(device_views(devices@), output),
{
    let n: usize = devices.len();
    let ghost start = texts(lines@);
    let ghost all = device_views(devices@);
    assert(start + device_lines(all.take(0), output) =~= start);
    for i in 0..n
        invariant
            n == devices@.len(),
            all == device_views(devices@),
            texts(lines@) == start + device_lines(all.take(i as int), output),
    {
        let ghost before = texts(lines@);
        let d = &devices[i];
        let mut name = prefixed("(  [", decimal(i as u64).as_str());
        name.append("] ");
        name.append(d.name.as_str());
        let mut format = prefixed("(       ", decimal(d.channels as u64).as_str());
        format.append("ch ");
        format.append(decimal(d.rate as u64).as_str());
        format.append("Hz");
        if output {
            format.append("  \u{2192} monitor: ");
            let mut monitor = d.name.clone();
            monitor.append(".monitor");
            format.append(monitor.as_str());
        }
        assert(name@ == name_line(i as nat, d@));
        assert(format@ == format_line(d@, output));
        lines.push(name);
        lines.push(format);
        proof {
            assert(all.take(i + 1).drop_last() =~= all.take(i as int));
            assert(texts(lines@) =~= before.push(name_line(i as nat, d@)).push(
                format_line(d@, output),
            ));
            assert(texts(lines@) =~= start + device_lines(all.take(i + 1), output));
        }
    }
    assert(all.take(n as int) =~= all);
}

fn push_source_lines(lines: &mut Vec<String>, text: &str)
    ensures
        texts(final(lines)@) == texts(old(lines)@) + source_lines(lines_of(text@)),
{
    let found = lines_in(text);
    let n: usize = found.len();
    let ghost start = texts(lines@);
    let ghost all = texts(found@);
    assert(start + source_lines(all.take(0)) =~= start);
    for i in 0..n
        invariant
            n == found@.len(),
            all == texts(found@),
            texts(lines@) == start + source_lines(all.take(i as int)),
    {
        let ghost before = texts(lines@);
        assert(all.take(i + 1).drop_last() =~= all.take(i as int));
        if !blank(found[i].as_str()) {
            let line = prefixed("(  ", found[i].as_str());
            lines.push(line);
            assert(texts(lines@) =~= before.push(line@));
            assert(texts(lines@) =~= start + source_lines(all.take(i + 1)));
        }
    }
    assert(all.take(n as int) =~= all);
}

fn lines_in(text: &str) -> (r: Vec<String>)
    ensures
        texts(r@) == lines_of(text@),
{
    lines(&chars_of(text))
}

fn push_line(lines: &mut Vec<String>, line: &str)
    ensures
        texts(final(lines)@) == texts(old(lines)@).push(line@),
{
    lines.push(String::from_str(line));
    assert(texts(lines@) =~= texts(old(lines)@).push(line@));
}

/// The list of devices, line by line, with hints how to capture what a browser plays.
pub fn device_listing(
    inputs: &Vec<DeviceInfo>,
    outputs: &Vec<DeviceInfo>,
    sources: &SourceList,
) -> (r: Vec<String>)
    ensures
        texts(r@) == listing(device_views(inputs@), device_views(outputs@), *sources),
{
    let mut r: Vec<String> = Vec::new();
    assert(texts(r@) =~= Seq::<Seq<char>>::empty());
    push_line(&mut r, "(=== 输入设备 (Input) ===");
    push_device_lines(&mut r, inputs, false);
    push_line(&mut r, "(\n=== 输出设备 (Output) \u{2014} 可用 *.monitor 源抓系统声音 ===");
    push_device_lines(&mut r, outputs, true);
    push_line(&mut r, "(\n=== PulseAudio/PipeWire 所有输入源 (pactl) ===");
    match sources {
        SourceList::Text(text) => push_source_lines(&mut r, text.as_str()),
        SourceList::Failed => push_line(
            &mut r,
            "(  (pactl failed \u{2014} 可能需要安装 pipewire-pulse)",
        ),
        SourceList::Missing => push_line(
            &mut r,
            "(  (pactl 不可用 \u{2014} 试试 pw-cli list-objects)",
        ),
    }
    push_line(&mut r, "(\n抓取 Chrome 浏览器声音:");
    push_line(
        &mut r,
        "(  1. 创建虚拟 sink:  pactl load-module module-null-sink sink_name=chrome_sink",
    );
    push_line(&mut r, "(  2. 用 pavucontrol 把 Chrome 音频输出路由到 chrome_sink");
    push_line(
        &mut r,
        "(  3. 启动:  live-translator --audio-device chrome_sink.monitor --auto-start",
    );
    push_line(&mut r, "(  或直接用系统默认 monitor:");
    push_line(&mut r, "(     live-translator --audio-device \"monitor\" --auto-start");
    assert(texts(r@) =~= listing(device_views(inputs@), device_views(outputs@), *sources));
    r
}

/// The device that is chosen is the first input in whose name the given name occurs, if there
/// is one, whatever the outputs are.
pub proof fn matching_input_is_chosen(
    inputs: Seq<Option<Seq<char>>>,
    outputs: Seq<Option<Seq<char>>>,
    name: Seq<char>,
    i: int,
)
    requires
        0 <= i < inputs.len(),
        name_matches(inputs[i], lowercase(name)),
        forall|j: int| 0 <= j < i ==> !#[trigger] name_matches(inputs[j], lowercase(name)),
    ensures
        chosen_input(inputs, outputs, name) == Some(i),
{
    let p = |i: int| name_matches(inputs[i], lowercase(name));
    first_is_within(0, inputs.len() as int, p);
    assert(p(i));
    match first_from(0, inputs.len() as int, p) {
        Some(k) => {
            assert(p(k));
            assert(name_matches(inputs[k], lowercase(name)));
        },
        None => {},
    }
}

/// Whatever is captured is captured at 16000 samples per second, on one channel; and the last
/// program that is tried is the same for every name.
pub proof fn attempts_record_alike(name: Seq<char>, i: int)
    requires
        0 <= i < attempts(name).len(),
    ensures
        attempts(name)[i].args.contains("--rate=16000"@),
        attempts(name)[i].args.contains("--channels=1"@),
        attempts(name).last() == record_fallback(name),
{
    let args = attempts(name)[i].args;
    assert(args[3] == "--rate=16000"@ && args[4] == "--channels=1"@);
}

proof fn first_is_within(i: int, n: int, p: spec_fn(int) -> bool)
    ensures
        first_from(i, n, p) matches Some(k) ==> i <= k < n && p(k) && forall|j: int|
            i <= j < k ==> !#[trigger] p(j),
        first_from(i, n, p) is None ==> forall|j: int| i <= j < n ==> !#[trigger] p(j),
    decreases n - i,
{
    if i < n && !p(i) {
        first_is_within(i + 1, n, p);
    }
}

proof fn monitor_is_within(inputs: Seq<Option<Seq<char>>>, output: Seq<char>)
    ensures
        monitor_input(inputs, output) matches Some(k) ==> 0 <= k < inputs.len(),
{
    let monitor = monitor_name(output);
    let n = inputs.len() as int;
    first_is_within(0, n, |i: int| inputs[i] == Some(monitor));
    first_is_within(0, n, |i: int| name_matches(inputs[i], lowercase(monitor)));
}

/// Every two bytes are a sample, the low one first: as an unsigned number the sample is the low
/// byte and 256 times the high one. A byte at the end that has no partner is no sample.
pub proof fn two_bytes_are_a_sample(bytes: Seq<u8>)
    ensures
        2 * samples_of(bytes).len() <= bytes.len() <= 2 * samples_of(bytes).len() + 1,
        forall|i: int|
            0 <= i < samples_of(bytes).len() ==> (#[trigger] samples_of(bytes)[i]) as int % 65536
                == bytes[2 * i] + 256 * bytes[2 * i + 1],
{
    assert forall|i: int| 0 <= i < samples_of(bytes).len() implies (#[trigger] samples_of(
        bytes,
    )[i]) as int % 65536 == bytes[2 * i] + 256 * bytes[2 * i + 1] by {
        let (lo, hi) = (bytes[2 * i], bytes[2 * i + 1]);
        assert(samples_of(bytes)[i] == sample_of(lo, hi) as i16);
        assert(-32768 <= sample_of(lo, hi) <= 32767);
    }
}

/// Audio that comes in two pieces is decoded piece by piece, as long as the first one does not
/// end within a sample.
pub proof fn audio_is_decoded_piece_by_piece(a: Seq<u8>, b: Seq<u8>)
    requires
        a.len() % 2 == 0,
    ensures
        samples_of(a + b) == samples_of(a) + samples_of(b),
{
    let n = (a.len() / 2) as int;
    assert forall|i: int| 0 <= i < samples_of(a + b).len() implies samples_of(a + b)[i] == (
    samples_of(a) + samples_of(b))[i] by {
        if i < n {
            assert((a + b)[2 * i] == a[2 * i] && (a + b)[2 * i + 1] == a[2 * i + 1]);
        } else {
            assert((a + b)[2 * i] == b[2 * (i - n)] && (a + b)[2 * i + 1] == b[2 * (i - n) + 1]);
        }
    }
    assert(samples_of(a + b) =~= samples_of(a) + samples_of(b));
}

/// Into which chunks a stream is cut does not depend on the pieces in which it comes: what has
/// been kept of one piece and the next piece are cut on where the first one ended. Chunks have
/// 512 samples.
pub proof fn chunks_do_not_depend_on_the_pieces<S>(s: Seq<S>, more: Seq<S>)
    ensures
        full_chunks(s + more) == full_chunks(s) + full_chunks(after_full_chunks(s) + more),
        after_full_chunks(s + more) == after_full_chunks(after_full_chunks(s) + more),
        s.len() < 512 ==> full_chunks(s).len() == 0 && after_full_chunks(s) == s,
        s.len() == 512 ==> full_chunks(s) == seq![s] && after_full_chunks(s).len() == 0,
    decreases s.len(),
{
    let n = CHUNK_SAMPLES as int;
    if s.len() >= n {
        let rest = s.skip(n);
        chunks_do_not_depend_on_the_pieces(rest, more);
        assert((s + more).take(n) =~= s.take(n));
        assert((s + more).skip(n) =~= rest + more);
        assert(full_chunks(s + more) =~= full_chunks(s) + full_chunks(
            after_full_chunks(s) + more,
        ));
        if s.len() == 512 {
            assert(s.take(n) =~= s);
            assert(full_chunks(rest) =~= Seq::<Seq<S>>::empty());
        }
    } else {
        assert(full_chunks(s) =~= Seq::<Seq<S>>::empty());
        assert(full_chunks(s + more) =~= full_chunks(s) + full_chunks(s + more));
    }
}

/// The input that listens to an output is the first one with exactly its name and ".monitor"
/// behind it; if there is none, the first one in whose name that occurs, the case of letters
/// aside; and if there is none of these either, there is no such input.
pub proof fn exact_monitors_come_first(
    inputs: Seq<Option<Seq<char>>>,
    output: Seq<char>,
    i: int,
)
    ensures
        ({
            let monitor = output + ".monitor"@;
            let similar = |k: int|
                inputs[k] matches Some(n) && occurs_in(lowercase(n), lowercase(monitor));
            &&& 0 <= i < inputs.len() && inputs[i] == Some(monitor) && (forall|j: int|
                0 <= j < i ==> #[trigger] inputs[j] != Some(monitor)) ==> monitor_input(
                inputs,
                output,
            ) == Some(i)
            &&& 0 <= i < inputs.len() && similar(i) && (forall|j: int|
                0 <= j < i ==> !#[trigger] similar(j)) && (forall|j: int|
                0 <= j < inputs.len() ==> #[trigger] inputs[j] != Some(monitor)) ==> monitor_input(
                inputs,
                output,
            ) == Some(i)
            &&& (forall|j: int|
                0 <= j < inputs.len() ==> #[trigger] inputs[j] != Some(monitor)) && (forall|j: int|
                0 <= j < inputs.len() ==> !#[trigger] similar(j)) ==> monitor_input(
                inputs,
                output,
            ) is None
        }),
{
    let monitor = monitor_name(output);
    let n = inputs.len() as int;
    let exact = |k: int| inputs[k] == Some(monitor);
    let part = |k: int| name_matches(inputs[k], lowercase(monitor));
    let similar = |k: int|
        inputs[k] matches Some(n) && occurs_in(lowercase(n), lowercase(monitor));
    first_is_within(0, n, exact);
    first_is_within(0, n, part);
    assert forall|k: int| #[trigger] part(k) == similar(k) by {}
    assert(exact(i) == (inputs[i] == Some(monitor)));
    assert(part(i) == similar(i));
    match first_from(0, n, exact) {
        Some(k) => {
            assert(exact(k));
            assert(inputs[k] == Some(monitor));
        },
        None => {
            match first_from(0, n, part) {
                Some(k) => {
                    assert(part(k));
                    assert(similar(k));
                },
                None => {},
            }
        },
    }
}

proof fn first_monitored_output(
    inputs: Seq<Option<Seq<char>>>,
    outputs: Seq<Option<Seq<char>>>,
    query: Seq<char>,
    from: int,
    j: int,
)
    requires
        0 <= from <= outputs.len(),
    ensures
        from <= j < outputs.len() && output_matches(outputs[j], query) && monitor_input(
            inputs,
            outputs[j].unwrap(),
        ) is Some && (forall|k: int|
            from <= k < j ==> !(output_matches(#[trigger] outputs[k], query) && monitor_input(
                inputs,
                outputs[k].unwrap(),
            ) is Some)) ==> monitored_input(inputs, outputs, query, from) == monitor_input(
            inputs,
            outputs[j].unwrap(),
        ),
        (forall|k: int|
            from <= k < outputs.len() ==> !(output_matches(#[trigger] outputs[k], query)
                && monitor_input(inputs, outputs[k].unwrap()) is Some)) ==> monitored_input(
            inputs,
            outputs,
            query,
            from,
        ) is None,
    decreases outputs.len() - from,
{
    if from < outputs.len() {
        let here = outputs[from];
        if !(output_matches(here, query) && monitor_input(inputs, here.unwrap()) is Some) {
            first_monitored_output(inputs, outputs, query, from + 1, j);
        }
    }
}

/// A name that occurs in no input leads to the first output that it may mean and that has a
/// monitor, and so to that; it means an output if it occurs in the name of the output or in that
/// of its monitor, the case of letters aside. If there is no such output, it leads nowhere.
pub proof fn names_lead_to_monitors(
    inputs: Seq<Option<Seq<char>>>,
    outputs: Seq<Option<Seq<char>>>,
    name: Seq<char>,
    j: int,
)
    requires
        forall|i: int|
            0 <= i < inputs.len() ==> !(#[trigger] inputs[i] matches Some(n) && occurs_in(
                lowercase(n),
                lowercase(name),
            )),
    ensures
        ({
            let leads = |k: int|
                {
                    &&& outputs[k] matches Some(n)
                    &&& occurs_in(lowercase(n), lowercase(name)) || occurs_in(
                        lowercase(n + ".monitor"@),
                        lowercase(name),
                    )
                    &&& monitor_input(inputs, n) is Some
                };
            &&& 0 <= j < outputs.len() && leads(j) && (forall|k: int|
                0 <= k < j ==> !#[trigger] leads(k)) ==> chosen_input(inputs, outputs, name)
                == monitor_input(inputs, outputs[j].unwrap())
            &&& (forall|k: int| 0 <= k < outputs.len() ==> !#[trigger] leads(k)) ==> chosen_input(
                inputs,
                outputs,
                name,
            ) is None
        }),
{
    let query = lowercase(name);
    let p = |i: int| name_matches(inputs[i], query);
    first_is_within(0, inputs.len() as int, p);
    match first_from(0, inputs.len() as int, p) {
        Some(i) => {
            assert(p(i));
            assert(inputs[i] matches Some(n) && occurs_in(lowercase(n), lowercase(name)));
        },
        None => {},
    }
    let leads = |k: int|
        {
            &&& outputs[k] matches Some(n)
            &&& occurs_in(lowercase(n), lowercase(name)) || occurs_in(
                lowercase(n + ".monitor"@),
                lowercase(name),
            )
            &&& monitor_input(inputs, n) is Some
        };
    assert forall|k: int|
        (output_matches(#[trigger] outputs[k], query) && monitor_input(
            inputs,
            outputs[k].unwrap(),
        ) is Some) == leads(k) by {}
    first_monitored_output(inputs, outputs, query, 0, j);
    assert(chosen_input(inputs, outputs, name) == monitored_input(inputs, outputs, query, 0));
    if 0 <= j < outputs.len() && leads(j) && (forall|k: int| 0 <= k < j ==> !#[trigger] leads(k)) {
        assert(output_matches(outputs[j], query));
    }
}

/// A device matches a name exactly if the name occurs in its own, the case of letters aside;
/// for ASCII names that is seen letter by letter. A device without a name matches nothing.
pub proof fn nameless_devices_match_nothing(name: Seq<char>, query: Seq<char>)
    ensures
        name_matches(Some(name), query) <==> occurs_in(lowercase(name), query),
        !name_matches(None, query),
        ascii_name_matches(Some(name), query) <==> all_ascii(name) && occurs_in(
            ascii_lowered(name),
            query,
        ),
        !ascii_name_matches(None, query),
{
}

/// No name means the default input, if there is one. Any other name means the device that it
/// chooses, whether or not there is a default one. Where there is no device, a program is used.
pub proof fn sources_follow_the_name(
    inputs: Seq<Option<Seq<char>>>,
    outputs: Seq<Option<Seq<char>>>,
    name: Seq<char>,
    has_default: bool,
)
    ensures
        source_for(inputs, outputs, true, Seq::<char>::empty()) == Source::DefaultInput,
        source_for(inputs, outputs, false, Seq::<char>::empty()) == Source::Program,
        name.len() > 0 && chosen_input(inputs, outputs, name) is None ==> source_for(
            inputs,
            outputs,
            has_default,
            name,
        ) == Source::Program,
        name.len() > 0 && chosen_input(inputs, outputs, name) is Some ==> source_for(
            inputs,
            outputs,
            has_default,
            name,
        ) == Source::Input(chosen_input(inputs, outputs, name).unwrap() as usize),
{
}

/// The name "monitor", in any case of its letters, is tried as what the system plays and then as
/// a source; a name that ends with ".monitor" as what the device before it plays and then as a
/// source; and any other name as a source, as a device whose sound is recorded, and by the last
/// program.
pub proof fn names_of_monitors_are_told_apart(device: Seq<char>, suffix: Seq<char>, name: Seq<char>)
    ensures
        same_letters(name, "monitor"@) ==> {
            &&& attempts(name).len() == 2
            &&& attempts(name)[0].args[2] == "{stream.capture.sink=true}"@
            &&& attempts(name)[1] == record_fallback(name)
        },
        same_letters(suffix, ".monitor"@) ==> {
            &&& attempts(device + suffix).len() == 2
            &&& attempts(device + suffix)[0].args[2] == "{stream.capture.sink=true,node.target="@
                + device + "}"@
            &&& attempts(device + suffix)[1] == record_fallback(device + suffix)
        },
        !same_letters(name, "monitor"@) && (name.len() < 8 || !same_letters(
            name.skip(name.len() - 8),
            ".monitor"@,
        )) ==> {
            &&& attempts(name).len() == 3
            &&& attempts(name)[0] == record_target(name)
            &&& attempts(name)[1].args[2] == "{stream.capture.sink=true,node.target="@ + name
                + "}"@
            &&& attempts(name)[2] == record_fallback(name)
        },
{
    reveal_strlit("monitor");
    reveal_strlit(".monitor");
    if same_letters(suffix, ".monitor"@) {
        let all = device + suffix;
        let low = suffix.map_values(|c: char| ascii_lower(c));
        assert(suffix.len() == low.len());
        assert(all.skip(all.len() - 8) =~= suffix);
        assert(all.take(all.len() - 8) =~= device);
        assert(all.map_values(|c: char| ascii_lower(c)).len() == all.len());
        assert(!same_letters(all, "monitor"@));
    }
}

/// Whatever is tried records raw 16-bit audio at 16000 samples per second on one channel, with
/// the same arguments for every name but the name itself.
pub proof fn recordings_differ_in_their_names_only(name: Seq<char>, target: Seq<char>)
    ensures
        record_target(name).program == "pw-cat"@,
        record_target(name).args == seq![
            "--record"@,
            "--target"@,
            name,
            "--rate=16000"@,
            "--channels=1"@,
            "--format=s16"@,
            "-"@,
        ],
        record_sink(None).program == "pw-cat"@,
        record_sink(None).args == seq![
            "--record"@,
            "-P"@,
            "{stream.capture.sink=true}"@,
            "--rate=16000"@,
            "--channels=1"@,
            "--format=s16"@,
            "--raw"@,
            "-"@,
        ],
        record_sink(Some(target)).program == record_sink(None).program,
        record_sink(Some(target)).args == record_sink(None).args.update(
            2,
            "{stream.capture.sink=true,node.target="@ + target + "}"@,
        ),
        record_fallback(name).program == "parec"@,
        record_fallback(name).args == seq![
            "--device"@,
            name,
            "--format=s16le"@,
            "--rate=16000"@,
            "--channels=1"@,
        ],
{
    assert(record_sink(Some(target)).args =~= record_sink(None).args.update(
        2,
        "{stream.capture.sink=true,node.target="@ + target + "}"@,
    ));
}

/// Each device has two lines, in the order of the devices: its number and its name, and then its
/// channels and its rate, which for an output are followed by the name of its monitor.
pub proof fn devices_are_listed_in_order(devices: Seq<DeviceInfoView>, output: bool)
    ensures
        device_lines(devices, output).len() == 2 * devices.len(),
        forall|i: int|
            0 <= i < devices.len() ==> {
                let d = #[trigger] devices[i];
                let format = "(       "@ + decimal_digits(d.channels as nat) + "ch "@
                    + decimal_digits(d.rate as nat) + "Hz"@;
                &&& device_lines(devices, output)[2 * i] == "(  ["@ + decimal_digits(i as nat)
                    + "] "@ + d.name
                &&& !output ==> device_lines(devices, output)[2 * i + 1] == format
                &&& output ==> device_lines(devices, output)[2 * i + 1] == format
                    + "  \u{2192} monitor: "@ + (d.name + ".monitor"@)
            },
    decreases devices.len(),
{
    if devices.len() > 0 {
        let init = devices.drop_last();
        devices_are_listed_in_order(init, output);
        let before = device_lines(init, output);
        let all = device_lines(devices, output);
        assert forall|i: int| 0 <= i < devices.len() implies {
            let d = #[trigger] devices[i];
            let format = "(       "@ + decimal_digits(d.channels as nat) + "ch "@ + decimal_digits(
                d.rate as nat,
            ) + "Hz"@;
            &&& all[2 * i] == "(  ["@ + decimal_digits(i as nat) + "] "@ + d.name
            &&& !output ==> all[2 * i + 1] == format
            &&& output ==> all[2 * i + 1] == format + "  \u{2192} monitor: "@ + (d.name
                + ".monitor"@)
        } by {
            if i < init.len() {
                assert(init[i] == devices[i]);
                assert(all[2 * i] == before[2 * i]);
                assert(all[2 * i + 1] == before[2 * i + 1]);
            }
        }
    }
}

/// The lines of the sound server are listed one by one, in their order; only blank ones are left
/// out.
pub proof fn only_blank_lines_are_left_out(a: Seq<Seq<char>>, b: Seq<Seq<char>>, line: Seq<char>)
    ensures
        source_lines(Seq::<Seq<char>>::empty()).len() == 0,
        source_lines(a + b) == source_lines(a) + source_lines(b),
        is_blank(line) ==> source_lines(a.push(line)) == source_lines(a),
        !is_blank(line) ==> source_lines(a.push(line)) == source_lines(a).push("(  "@ + line),
    decreases b.len(),
{
    assert(a.push(line).drop_last() =~= a);
    if b.len() == 0 {
        assert(a + b =~= a);
        assert(source_lines(a) + source_lines(b) =~= source_lines(a));
    } else {
        only_blank_lines_are_left_out(a, b.drop_last(), line);
        assert((a + b).drop_last() =~= a + b.drop_last());
        assert((a + b).last() == b.last());
        assert(source_lines(a + b) =~= source_lines(a) + source_lines(b));
    }
}

/// The list has a heading for the inputs, one for the outputs and one for the sources of the
/// sound server, each followed by what it announces, and six lines of hints at the end.
pub proof fn the_list_has_three_parts(
    inputs: Seq<DeviceInfoView>,
    outputs: Seq<DeviceInfoView>,
    sources: SourceList,
)
    ensures
        ({
            let all = listing(inputs, outputs, sources);
            let a: int = 1 + 2 * inputs.len() as int;
            let b: int = a + 1 + 2 * outputs.len() as int;
            let listed = match sources {
                SourceList::Text(text) => source_lines(lines_of(text@)),
                SourceList::Failed => seq![
                    "(  (pactl failed \u{2014} 可能需要安装 pipewire-pulse)"@,
                ],
                SourceList::Missing => seq![
                    "(  (pactl 不可用 \u{2014} 试试 pw-cli list-objects)"@,
                ],
            };
            &&& all.len() == b + 1 + listed.len() + 6
            &&& all[0] == "(=== 输入设备 (Input) ==="@
            &&& all.subrange(1, a) == device_lines(inputs, false)
            &&& all[a]
                == "(\n=== 输出设备 (Output) \u{2014} 可用 *.monitor 源抓系统声音 ==="@
            &&& all.subrange(a + 1, b) == device_lines(outputs, true)
            &&& all[b] == "(\n=== PulseAudio/PipeWire 所有输入源 (pactl) ==="@
            &&& all.subrange(b + 1, b + 1 + listed.len()) == listed
            &&& all.skip(b + 1 + listed.len()) == seq![
                "(\n抓取 Chrome 浏览器声音:"@,
                "(  1. 创建虚拟 sink:  pactl load-module module-null-sink sink_name=chrome_sink"@,
                "(  2. 用 pavucontrol 把 Chrome 音频输出路由到 chrome_sink"@,
                "(  3. 启动:  live-translator --audio-device chrome_sink.monitor --auto-start"@,
                "(  或直接用系统默认 monitor:"@,
                "(     live-translator --audio-device \"monitor\" --auto-start"@,
            ]
        }),
{
    devices_are_listed_in_order(inputs, false);
    devices_are_listed_in_order(outputs, true);
    let all = listing(inputs, outputs, sources);
    let a: int = 1 + 2 * inputs.len() as int;
    let b: int = a + 1 + 2 * outputs.len() as int;
    let listed = sources_listed(sources);
    assert(all.subrange(1, a) =~= device_lines(inputs, false));
    assert(all.subrange(a + 1, b) =~= device_lines(outputs, true));
    assert(all.subrange(b + 1, b + 1 + listed.len()) =~= listed);
}

/// What is said of devices, commands and chunks is said of each of them as it is.
pub proof fn lists_are_seen_one_by_one<S>(
    devices: Seq<DeviceInfo>,
    optional: Seq<Option<String>>,
    commands: Seq<CaptureCommand>,
    chunks: Seq<Vec<S>>,
)
    ensures
        device_views(devices).len() == devices.len(),
        forall|i: int|
            0 <= i < devices.len() ==> {
                let d = #[trigger] device_views(devices)[i];
                d.name == devices[i].name@ && d.channels == devices[i].channels && d.rate
                    == devices[i].rate
            },
        names(optional).len() == optional.len(),
        forall|i: int|
            0 <= i < optional.len() ==> #[trigger] names(optional)[i] == (match optional[i] {
                Some(name) => Some(name@),
                None => None::<Seq<char>>,
            }),
        command_views(commands).len() == commands.len(),
        forall|i: int|
            0 <= i < commands.len() ==> {
                let c = #[trigger] command_views(commands)[i];
                c.program == commands[i].program@ && c.args == texts(commands[i].args@)
            },
        chunk_views(chunks).len() == chunks.len(),
        forall|i: int| 0 <= i < chunks.len() ==> #[trigger] chunk_views(chunks)[i] == chunks[i]@,
{
}

/// Audio is decoded two bytes at a time, the low one first.
pub proof fn decoding_takes_two_bytes_at_a_time(bytes: &[u8], r: Vec<i16>)
    requires
        call_ensures(pcm_samples, (bytes,), r),
    ensures
        2 * r@.len() <= bytes@.len() <= 2 * r@.len() + 1,
        forall|i: int|
            0 <= i < r@.len() ==> (#[trigger] r@[i]) as int % 65536 == bytes@[2 * i] + 256
                * bytes@[2 * i + 1],
{
    two_bytes_are_a_sample(bytes@);
}

/// Where audio is captured from agrees with the device that is found: that one, if there is one
/// for the name, and a program otherwise; without a name, the default input if there is one.
pub proof fn captured_devices_are_found_devices(
    inputs: &Vec<Option<String>>,
    outputs: &Vec<Option<String>>,
    has_default: bool,
    name: &str,
    found: Option<usize>,
    source: Source,
)
    requires
        call_ensures(find_device, (inputs, outputs, name), found),
        call_ensures(capture_source, (inputs, outputs, has_default, name), source),
    ensures
        name@.len() == 0 && has_default ==> source == Source::DefaultInput,
        name@.len() == 0 && !has_default ==> source == Source::Program,
        name@.len() > 0 ==> source == (match found {
            Some(i) => Source::Input(i),
            None => Source::Program,
        }),
        found matches Some(i) ==> i < inputs@.len(),
{
}

/// As many programs are tried for a name as its kind asks for, and each of them is run for the
/// name itself or for what stands before ".monitor" in it.
pub proof fn programs_are_tried_for_their_name(name: &str, r: Vec<CaptureCommand>)
    requires
        call_ensures(capture_attempts, (name,), r),
    ensures
        r@.len() == 2 || r@.len() == 3,
        r@.last().program@ == "parec"@,
        r@.last().args@.len() == 5,
        r@.last().args@[1]@ == name@,
        r@.len() == 3 ==> r@[0].program@ == "pw-cat"@ && r@[0].args@[2]@ == name@,
{
    let views = command_views(r@);
    let n = r@.len() - 1;
    assert(views.len() == r@.len());
    assert(views[n] == r@[n]@);
    assert(views[0] == r@[0]@);
    assert(views.last() == record_fallback(name@));
    let last = r@[n];
    assert(texts(last.args@) == record_fallback(name@).args);
    assert(texts(last.args@).len() == last.args@.len());
    assert(texts(last.args@)[1] == last.args@[1]@);
    if r@.len() == 3 {
        let first = r@[0];
        assert(views[0] == record_target(name@));
        assert(texts(first.args@).len() == first.args@.len());
        assert(texts(first.args@)[2] == first.args@[2]@);
    }
}

} // verus!
