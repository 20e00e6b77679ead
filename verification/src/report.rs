//! What the commands print, and what a measurement has to keep to.

use vstd::prelude::*;

use crate::config::AppConfig;
use crate::config::AppPaths;
use crate::scan;
use crate::text;
use crate::text::Edge;
use crate::tools::ToolKind;
use crate::tools::ToolStatus;

verus! {

/// The longest time before a measurement, in seconds.
pub const MAX_WARMUP_SECONDS: u64 = 300;

/// The longest measurement, in seconds.
pub const MAX_MEASURE_SECONDS: u64 = 3600;

/// How much memory playing may take, in KiB.
pub const MAX_RESIDENT_KIB: u64 = 51200;

/// A line with a value.
pub open spec fn labelled(before: Seq<char>, value: Seq<char>, after: Seq<char>) -> Seq<char> {
    before + value + after
}

fn label(before: &str, value: &str, after: &str) -> (result: String)
    ensures
        result@ == labelled(before@, value@, after@),
{
    let mut line = before.to_owned();
    line.push_str(value);
    line.push_str(after);
    line
}

/// The lines on the configuration.
pub open spec fn doctor_shown(paths: AppPaths, config: AppConfig, tracks: u64) -> Seq<Seq<char>> {
    seq![
        "EzMusic doctor"@,
        "  config: "@ + paths.config_file@,
        "  banco: "@ + paths.database_file@ + " ("@ + text::decimal_text(tracks as nat)
            + " faixas)"@,
        "  biblioteca: "@ + config.library_path@,
        "  limites: "@ + text::decimal_text(config.max_parallel_downloads as nat)
            + " download(s), 1 conversao, Opus "@ + text::decimal_text(
            config.opus_bitrate_kbps as nat,
        ) + " kbps"@,
    ]
}

/// The lines on the configuration.
pub fn doctor_lines(paths: &AppPaths, config: &AppConfig, tracks: u64) -> (result: Vec<String>)
    ensures
        text::views(result@) == doctor_shown(*paths, *config, tracks),
{
    let mut store = label("  banco: ", paths.database_file.as_str(), " (");
    store.push_str(text::decimal(tracks).as_str());
    store.push_str(" faixas)");
    let mut limits = label(
        "  limites: ",
        text::decimal(config.max_parallel_downloads as u64).as_str(),
        " download(s), 1 conversao, Opus ",
    );
    limits.push_str(text::decimal(config.opus_bitrate_kbps as u64).as_str());
    limits.push_str(" kbps");
    let mut folder = "  config: ".to_owned();
    folder.push_str(paths.config_file.as_str());
    let mut library = "  biblioteca: ".to_owned();
    library.push_str(config.library_path.as_str());
    let mut lines: Vec<String> = Vec::new();
    lines.push("EzMusic doctor".to_owned());
    lines.push(folder);
    lines.push(store);
    lines.push(library);
    lines.push(limits);
    assert(text::views(lines@) =~= doctor_shown(*paths, *config, tracks));
    lines
}

/// What was found out about audio devices.
pub enum AudioCheck {
    /// The names of the devices.
    Devices(Vec<String>),
    /// Why they are not known.
    Failed(String),
    /// The audio server gave no answer in time.
    TimedOut,
    /// There will be no answer.
    Interrupted,
}

/// The lines on audio devices.
pub open spec fn audio_shown(check: AudioCheck) -> Seq<Seq<char>> {
    match check {
        AudioCheck::Devices(names) => if names@.len() == 0 {
            seq!["  audio: nenhum dispositivo"@]
        } else {
            seq![
                labelled("  audio: "@, text::decimal_text(names@.len()), " dispositivo(s)"@),
            ] + text::views(names@).map_values(|name: Seq<char>| "    - "@ + name)
        },
        AudioCheck::Failed(error) => seq![labelled("  audio: indisponivel ("@, error@, ")"@)],
        AudioCheck::TimedOut => seq![
            "  audio: verificacao excedeu 2s (servidor de audio indisponivel)"@,
        ],
        AudioCheck::Interrupted => seq!["  audio: verificacao interrompida"@],
    }
}

fn one_line(line: String) -> (result: Vec<String>)
    ensures
        text::views(result@) == seq![line@],
{
    let mut lines: Vec<String> = Vec::new();
    lines.push(line);
    assert(text::views(lines@) =~= seq![line@]);
    lines
}

/// The lines on audio devices.
pub fn audio_lines(check: &AudioCheck) -> (result: Vec<String>)
    ensures
        text::views(result@) == audio_shown(*check),
{
    match check {
        AudioCheck::Devices(names) => {
            if names.len() == 0 {
                return one_line("  audio: nenhum dispositivo".to_owned());
            }
            let ghost all = text::views(names@);
            let mut lines = one_line(
                label(
                    "  audio: ",
                    text::decimal(names.len() as u64).as_str(),
                    " dispositivo(s)",
                ),
            );
            let ghost first = text::views(lines@);
            let mut i: usize = 0;
            assert(first + all.take(0).map_values(|name: Seq<char>| "    - "@ + name) =~= first);
            while i < names.len()
                invariant
                    all == text::views(names@),
                    i <= names@.len(),
                    text::views(lines@) == first + all.take(i as int).map_values(
                        |name: Seq<char>| "    - "@ + name,
                    ),
                decreases names@.len() - i,
            {
                let ghost before = text::views(lines@);
                let mut line = "    - ".to_owned();
                line.push_str(names[i].as_str());
                lines.push(line);
                proof {
                    assert(all[i as int] == names@[i as int]@);
                    assert(text::views(lines@) =~= before.push("    - "@ + all[i as int]));
                    assert(text::views(lines@) =~= first + all.take(i + 1).map_values(
                        |name: Seq<char>| "    - "@ + name,
                    ));
                }
                i += 1;
            }
            assert(all.take(all.len() as int) =~= all);
            lines
        },
        AudioCheck::Failed(error) => one_line(
            label("  audio: indisponivel (", error.as_str(), ")"),
        ),
        AudioCheck::TimedOut => one_line(
            "  audio: verificacao excedeu 2s (servidor de audio indisponivel)".to_owned(),
        ),
        AudioCheck::Interrupted => one_line("  audio: verificacao interrompida".to_owned()),
    }
}

/// The name of a helper program.
pub open spec fn tool_word(kind: ToolKind) -> Seq<char> {
    match kind {
        ToolKind::YtDlp => "yt-dlp"@,
        ToolKind::Ffmpeg => "ffmpeg"@,
    }
}

/// The text of an optional value, or what stands for its absence.
pub open spec fn text_or(value: Option<String>, otherwise: Seq<char>) -> Seq<char> {
    match value {
        Some(inner) => inner@,
        None => otherwise,
    }
}

fn value_or<'a>(value: &'a Option<String>, otherwise: &'a str) -> (result: &'a str)
    ensures
        result@ == text_or(*value, otherwise@),
{
    match value {
        Some(inner) => inner.as_str(),
        None => otherwise,
    }
}

/// What is wrong between two texts; nothing where nothing is wrong.
pub open spec fn problem_shown(problem: Option<String>, before: Seq<char>, after: Seq<char>) -> Seq<
    char,
> {
    match problem {
        Some(inner) => before + inner@ + after,
        None => ""@,
    }
}

fn show_problem(problem: &Option<String>, before: &str, after: &str) -> (result: String)
    ensures
        result@ == problem_shown(*problem, before@, after@),
{
    match problem {
        Some(inner) => label(before, inner.as_str(), after),
        None => "".to_owned(),
    }
}

/// The line on a helper program.
pub open spec fn tool_shown(status: ToolStatus) -> Seq<char> {
    if status.installed {
        "  "@ + tool_word(status.kind) + ": "@ + text_or(status.version, "versao desconhecida"@)
            + " ("@ + status.path@ + ")"@
    } else {
        "  "@ + tool_word(status.kind) + ": indisponivel"@ + problem_shown(
            status.problem,
            "; "@,
            ""@,
        ) + " (sera baixado no primeiro uso)"@
    }
}

/// The line on a helper program.
pub fn tool_line(status: &ToolStatus) -> (result: String)
    ensures
        result@ == tool_shown(*status),
{
    let word = match status.kind {
        ToolKind::YtDlp => "yt-dlp",
        ToolKind::Ffmpeg => "ffmpeg",
    };
    let mut line = "  ".to_owned();
    line.push_str(word);
    if status.installed {
        line.push_str(": ");
        line.push_str(value_or(&status.version, "versao desconhecida"));
        line.push_str(" (");
        line.push_str(status.path.as_str());
        line.push_str(")");
    } else {
        line.push_str(": indisponivel");
        line.push_str(show_problem(&status.problem, "; ", "").as_str());
        line.push_str(" (sera baixado no primeiro uso)");
    }
    line
}

/// The line on a helper program that was brought up to date.
pub fn updated_line(status: &ToolStatus) -> (result: String)
    ensures
        result@ == status.path@ + ": "@ + text_or(status.version, "desconhecida"@),
{
    let mut line = status.path.clone();
    line.push_str(": ");
    line.push_str(value_or(&status.version, "desconhecida"));
    line
}

/// The line on a helper program as it is.
pub fn status_line(status: &ToolStatus) -> (result: String)
    ensures
        result@ == status.path@ + ": "@ + text_or(status.version, "indisponivel"@) + problem_shown(
            status.problem,
            " ("@,
            ")"@,
        ),
{
    let mut line = status.path.clone();
    line.push_str(": ");
    line.push_str(value_or(&status.version, "indisponivel"));
    line.push_str(show_problem(&status.problem, " (", ")").as_str());
    line
}

/// The line on a folder that was imported.
pub fn import_line(count: usize, root: &str) -> (result: String)
    ensures
        result@ == text::decimal_text(count as nat) + " arquivo(s) indexado(s) em "@ + root@,
{
    let mut line = text::decimal(count as u64);
    line.push_str(" arquivo(s) indexado(s) em ");
    line.push_str(root);
    line
}

/// Why a measurement cannot be made, if it cannot.
pub open spec fn measurement_fault(warmup_seconds: u64, measure_seconds: u64) -> Option<Seq<char>> {
    if measure_seconds == 0 {
        Some("measure_seconds deve ser maior que zero"@)
    } else if warmup_seconds > MAX_WARMUP_SECONDS {
        Some("warmup_seconds nao pode exceder 300"@)
    } else if measure_seconds > MAX_MEASURE_SECONDS {
        Some("measure_seconds nao pode exceder 3600"@)
    } else {
        None
    }
}

/// Whether a measurement can be made.
pub fn check_measurement(warmup_seconds: u64, measure_seconds: u64) -> (result: Result<(), String>)
    ensures
        match result {
            Ok(()) => measurement_fault(warmup_seconds, measure_seconds) is None,
            Err(message) => measurement_fault(warmup_seconds, measure_seconds) == Some(message@),
        },
{
    if measure_seconds == 0 {
        return Err("measure_seconds deve ser maior que zero".to_owned());
    }
    if warmup_seconds > MAX_WARMUP_SECONDS {
        return Err("warmup_seconds nao pode exceder 300".to_owned());
    }
    if measure_seconds > MAX_MEASURE_SECONDS {
        return Err("measure_seconds nao pode exceder 3600".to_owned());
    }
    Ok(())
}

/// What playing a file takes while it is measured.
#[derive(Clone, Copy, PartialEq, Eq, Structural, Debug)]
pub struct Measurement {
    /// The most memory at any time, in KiB.
    pub peak_kib: u64,
    /// The time that the processor worked, in microseconds.
    pub cpu_micros: u64,
    /// The time that went by, in microseconds.
    pub elapsed_micros: u64,
    /// How often the device found too few samples.
    pub underflows: u64,
}

impl Measurement {
    /// Takes note of how much memory is in use, where that is known.
    pub fn sample(&mut self, resident_kib: Option<u64>)
        ensures
            *final(self) == (Measurement {
                peak_kib: match resident_kib {
                    Some(kib) => if kib > old(self).peak_kib {
                        kib
                    } else {
                        old(self).peak_kib
                    },
                    None => old(self).peak_kib,
                },
                ..*old(self)
            }),
    {
        match resident_kib {
            Some(kib) => {
                if kib > self.peak_kib {
                    self.peak_kib = kib;
                }
            },
            None => {},
        }
    }

    /// Whether memory, processor and samples stay within what playing may take: 50 MiB, one per
    /// cent of a core and no sample too few.
    pub fn passed(&self) -> (result: bool)
        ensures
            result == (self.peak_kib <= MAX_RESIDENT_KIB && self.cpu_micros * 100
                <= self.elapsed_micros && self.underflows == 0),
    {
        self.peak_kib <= MAX_RESIDENT_KIB && self.cpu_micros as u128 * 100
            <= self.elapsed_micros as u128 && self.underflows == 0
    }

    /// The last line on a measurement.
    pub fn verdict(&self) -> (result: &'static str)
        ensures
            result@ == if self.peak_kib <= MAX_RESIDENT_KIB && self.cpu_micros * 100
                <= self.elapsed_micros && self.underflows == 0 {
                "  meta: PASS"@
            } else {
                "  meta: FAIL"@
            },
    {
        if self.passed() {
            "  meta: PASS"
        } else {
            "  meta: FAIL"
        }
    }
}

/// The first word of a text.
pub open spec fn first_word(s: Seq<char>) -> Seq<char> {
    let rest = text::without_leading(s, Edge::Space);
    rest.take(scan::first_space(rest))
}

/// The memory in use that a line gives, in KiB.
pub open spec fn resident_of(line: Seq<char>) -> Option<nat> {
    if text::begins_with(line, "VmRSS:"@) {
        text::parsed_number(first_word(line.skip(6)))
    } else {
        None
    }
}

/// The memory in use that the first line which gives it gives, in KiB.
pub open spec fn resident_in(lines: Seq<Seq<char>>) -> Option<nat>
    decreases lines.len(),
{
    if lines.len() == 0 {
        None
    } else {
        match resident_of(lines[0]) {
            Some(kib) => Some(kib),
            None => resident_in(lines.skip(1)),
        }
    }
}

fn line_resident(line: &str) -> (result: Option<u64>)
    ensures
        match result {
            Some(kib) => resident_of(line@) == Some(kib as nat),
            None => resident_of(line@) is None,
        },
{
    if !text::has_prefix(line, "VmRSS:") {
        return None;
    }
    proof {
        reveal_strlit("VmRSS:");
    }
    let chars = text::chars_of(line);
    let ghost value = line@.skip(6);
    let mut start: usize = 6;
    assert(chars@.skip(6) =~= value);
    while start < chars.len() && chars[start].is_whitespace()
        invariant
            6 <= start <= chars@.len(),
            text::without_leading(chars@.skip(start as int), Edge::Space) == text::without_leading(
                value,
                Edge::Space,
            ),
        decreases chars@.len() - start,
    {
        assert(chars@.skip(start as int).skip(1) =~= chars@.skip(start + 1));
        start += 1;
    }
    let ghost rest = chars@.skip(start as int);
    assert(text::without_leading(rest, Edge::Space) == rest);
    let mut end: usize = start;
    assert(rest.skip(0) =~= rest);
    while end < chars.len() && !chars[end].is_whitespace()
        invariant
            start <= end <= chars@.len(),
            rest == chars@.skip(start as int),
            scan::first_space(rest) == end - start + scan::first_space(rest.skip(end - start)),
        decreases chars@.len() - end,
    {
        assert(rest.skip(end - start).skip(1) =~= rest.skip(end - start + 1));
        end += 1;
    }
    assert(chars@.subrange(start as int, end as int) =~= first_word(value));
    text::parse_number(&chars, start, end)
}

/// The memory in use that a report of the kernel gives, in KiB.
pub fn resident_kib(status: &str) -> (result: Option<u64>)
    ensures
        match result {
            Some(kib) => resident_in(scan::pieces(status@, '\n')) == Some(kib as nat),
            None => resident_in(scan::pieces(status@, '\n')) is None,
        },
{
    let lines = scan::split(status, '\n');
    let ghost all = text::views(lines@);
    let mut i: usize = 0;
    assert(all.skip(0) =~= all);
    while i < lines.len()
        invariant
            all == text::views(lines@),
            all == scan::pieces(status@, '\n'),
            i <= lines@.len(),
            resident_in(all) == resident_in(all.skip(i as int)),
        decreases lines@.len() - i,
    {
        assert(all[i as int] == lines@[i as int]@);
        match line_resident(lines[i].as_str()) {
            Some(kib) => {
                return Some(kib);
            },
            None => {},
        }
        assert(all.skip(i as int).skip(1) =~= all.skip(i + 1));
        i += 1;
    }
    None
}

/// The report on the settings names the files, how many tracks there are, where the library lies and
/// the limits.
pub proof fn lemma_settings_reported(paths: AppPaths, config: AppConfig, tracks: u64)
    ensures
        ({
            let lines = doctor_shown(paths, config, tracks);
            let count = text::decimal_text(tracks as nat);
            &&& lines.len() == 5
            &&& text::ends_with(lines[1], paths.config_file@)
            &&& text::occurs_in(lines[2], paths.database_file@)
            &&& text::ends_with(lines[2], count + " faixas)"@)
            &&& text::ends_with(lines[3], config.library_path@)
            &&& text::occurs_in(
                lines[4],
                text::decimal_text(config.max_parallel_downloads as nat),
            )
            &&& text::ends_with(
                lines[4],
                text::decimal_text(config.opus_bitrate_kbps as nat) + " kbps"@,
            )
        }),
{
    let count = text::decimal_text(tracks as nat);
    let (downloads, rate) = (
        text::decimal_text(config.max_parallel_downloads as nat),
        text::decimal_text(config.opus_bitrate_kbps as nat),
    );
    text::lemma_occurs_between("  config: "@, paths.config_file@, Seq::empty());
    text::lemma_occurs_between("  biblioteca: "@, config.library_path@, Seq::empty());
    lemma_inside(
        "  banco: "@,
        paths.database_file@,
        " ("@,
        count,
        " faixas)"@,
    );
    lemma_inside(
        "  limites: "@,
        downloads,
        " download(s), 1 conversao, Opus "@,
        rate,
        " kbps"@,
    );
}

proof fn lemma_inside(a: Seq<char>, b: Seq<char>, c: Seq<char>, d: Seq<char>, e: Seq<char>)
    ensures
        text::occurs_in(a + b + c + d + e, b),
        text::ends_with(a + b + c + d + e, d + e),
{
    text::lemma_occurs_between(a, b, c);
    text::lemma_occurs_in_longer(a + b + c, b, d);
    text::lemma_occurs_in_longer(a + b + c + d, b, e);
    lemma_ends_in_both(a + b + c, d, e);
}

proof fn lemma_ends_in_both(a: Seq<char>, d: Seq<char>, e: Seq<char>)
    ensures
        text::ends_with(a + d + e, d + e),
{
    let whole = a + d + e;
    assert(whole.skip(whole.len() - (d + e).len()) =~= d + e);
    assert(whole.subrange(whole.len() - (d + e).len(), whole.len() as int) =~= d + e);
}

/// Every audio device is named, in its order, below how many there are; where none is known, why.
pub proof fn lemma_devices_reported(names: Vec<String>, error: String, i: int)
    ensures
        ({
            let lines = audio_shown(AudioCheck::Devices(names));
            &&& names@.len() > 0 ==> lines.len() == names@.len() + 1
            &&& names@.len() > 0 ==> text::occurs_in(lines[0], text::decimal_text(names@.len()))
            &&& 0 <= i < names@.len() ==> text::ends_with(lines[i + 1], names@[i]@)
            &&& names@.len() == 0 ==> lines.len() == 1
        }),
        audio_shown(AudioCheck::Failed(error)).len() == 1,
        text::occurs_in(audio_shown(AudioCheck::Failed(error))[0], error@),
{
    text::lemma_occurs_between("  audio: "@, text::decimal_text(names@.len()), " dispositivo(s)"@);
    text::lemma_occurs_between("  audio: indisponivel ("@, error@, ")"@);
    if 0 <= i < names@.len() {
        text::lemma_occurs_between("    - "@, names@[i]@, Seq::empty());
        assert(text::views(names@)[i] == names@[i]@);
    }
}

/// A helper program is reported by its name; one that is there by its version and where it lies, and
/// one that is not by what is wrong with it.
pub proof fn lemma_tool_reported(status: ToolStatus)
    ensures
        ({
            let line = tool_shown(status);
            &&& text::begins_with(line, "  "@ + status.kind.binary() + ": "@)
            &&& status.installed ==> text::ends_with(line, status.path@ + ")"@)
            &&& status.installed && status.version is Some ==> text::occurs_in(
                line,
                status.version->0@,
            )
            &&& !status.installed && status.problem is Some ==> text::occurs_in(
                line,
                status.problem->0@,
            )
            &&& !status.installed ==> text::ends_with(line, " (sera baixado no primeiro uso)"@)
        }),
{
    let word = tool_word(status.kind);
    assert(word == status.kind.binary());
    if status.installed {
        let version = text_or(status.version, "versao desconhecida"@);
        lemma_inside("  "@ + word + ": "@, version, " ("@, status.path@, ")"@);
        lemma_begins("  "@ + word + ": "@, version, " ("@, status.path@, ")"@);
    } else {
        let problem = problem_shown(status.problem, "; "@, ""@);
        let (head, tail) = ("  "@ + word + ": indisponivel"@, " (sera baixado no primeiro uso)"@);
        text::lemma_occurs_between(head + problem, tail, Seq::empty());
        assert(": indisponivel"@ =~= ": "@ + "indisponivel"@) by {
            reveal_strlit(": indisponivel");
            reveal_strlit(": ");
            reveal_strlit("indisponivel");
        }
        lemma_begins("  "@ + word + ": "@, "indisponivel"@, problem, tail, Seq::empty());
        assert(tool_shown(status) =~= "  "@ + word + ": "@ + "indisponivel"@ + problem + tail
            + Seq::<char>::empty());
        if let Some(reason) = status.problem {
            text::lemma_occurs_between("; "@, reason@, ""@);
            lemma_occurs_later(head, problem, reason@, tail);
        }
    }
}

proof fn lemma_begins(a: Seq<char>, b: Seq<char>, c: Seq<char>, d: Seq<char>, e: Seq<char>)
    ensures
        text::begins_with(a + b + c + d + e, a),
{
    let rest = b + c + d + e;
    text::lemma_occurs_between(Seq::empty(), a, rest);
    assert(a + b + c + d + e =~= a + rest);
}

proof fn lemma_occurs_later(before: Seq<char>, s: Seq<char>, part: Seq<char>, after: Seq<char>)
    requires
        text::occurs_in(s, part),
    ensures
        text::occurs_in(before + s + after, part),
{
    let at = choose|at: int| text::occurs_at(s, part, at);
    let (whole, place) = (before + s + after, before.len() + at);
    assert(whole.subrange(place, place + part.len()) =~= s.subrange(at, at + part.len()));
    assert(text::occurs_at(whole, part, place));
}

/// A measurement of one second to an hour, after five minutes at most, is made, and no other.
pub proof fn lemma_measurements(warmup_seconds: u64, measure_seconds: u64)
    ensures
        measurement_fault(warmup_seconds, measure_seconds) is None <==> 1 <= measure_seconds <= 3600
            && warmup_seconds <= 300,
{
}

/// The memory in use is the number behind its label, whatever whitespace stands around it; it is read
/// from the first line that gives it.
pub proof fn lemma_memory_read(space: Seq<char>, kib: nat, unit: Seq<char>, lines: Seq<Seq<char>>)
    requires
        forall|i: int| 0 <= i < space.len() ==> text::whitespace_char(#[trigger] space[i]),
        unit.len() > 0 ==> text::whitespace_char(unit[0]),
        kib <= u64::MAX,
    ensures
        resident_of("VmRSS:"@ + space + text::decimal_text(kib) + unit) == Some(kib),
        lines.len() > 0 && resident_of(lines[0]) is Some ==> resident_in(lines) == resident_of(
            lines[0],
        ),
        lines.len() > 0 && resident_of(lines[0]) is None ==> resident_in(lines) == resident_in(
            lines.skip(1),
        ),
{
    let digits = text::decimal_text(kib);
    let rest = space + digits + unit;
    let line = "VmRSS:"@ + space + digits + unit;
    text::lemma_decimal_round_trip(kib);
    reveal_strlit("VmRSS:");
    text::lemma_occurs_between(Seq::empty(), "VmRSS:"@, rest);
    assert(line =~= "VmRSS:"@ + rest);
    assert(line.skip(6) =~= rest);
    assert forall|i: int| 0 <= i < digits.len() implies !text::whitespace_char(
        #[trigger] digits[i],
    ) by {
        assert(text::ascii_digit(digits[i]));
    }
    assert(rest =~= space + (digits + unit));
    lemma_space_left_out(space, digits + unit);
    lemma_word_ends(digits, unit);
}

proof fn lemma_space_left_out(space: Seq<char>, core: Seq<char>)
    requires
        forall|i: int| 0 <= i < space.len() ==> text::whitespace_char(#[trigger] space[i]),
        core.len() > 0,
        !text::whitespace_char(core[0]),
    ensures
        text::without_leading(space + core, Edge::Space) == core,
    decreases space.len(),
{
    if space.len() > 0 {
        let shorter = space.skip(1);
        assert forall|i: int| 0 <= i < shorter.len() implies text::whitespace_char(
            #[trigger] shorter[i],
        ) by {
            assert(shorter[i] == space[i + 1]);
        }
        lemma_space_left_out(shorter, core);
        assert((space + core).skip(1) =~= shorter + core);
        assert((space + core)[0] == space[0]);
    } else {
        assert(space + core =~= core);
    }
}

proof fn lemma_word_ends(word: Seq<char>, after: Seq<char>)
    requires
        forall|i: int| 0 <= i < word.len() ==> !text::whitespace_char(#[trigger] word[i]),
        after.len() > 0 ==> text::whitespace_char(after[0]),
    ensures
        (word + after).take(scan::first_space(word + after)) == word,
{
    let whole = word + after;
    scan::lemma_first_space(whole);
    let end = scan::first_space(whole);
    assert(forall|i: int| 0 <= i < word.len() ==> whole[i] == word[i]);
    if end < word.len() {
        assert(text::whitespace_char(whole[end]));
        assert(!text::whitespace_char(word[end]));
    }
    if end > word.len() {
        assert(whole[word.len() as int] == after[0]);
    }
    assert(whole.take(end) =~= word);
}

/// Playing may take 50 MiB of memory.
pub proof fn lemma_memory_limit()
    ensures
        MAX_RESIDENT_KIB == 50 * 1024,
{
}

} // verus!
