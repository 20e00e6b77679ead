//! The helper programs: which ones are used, when they are replaced and how a download of one is
//! checked.

use vstd::prelude::*;

use crate::config::AppPaths;
use crate::order;
use crate::paths;
use crate::scan;
use crate::text;

verus! {

/// How the application names itself to servers.
pub const USER_AGENT: &'static str = "ezmusic/0.1";

/// The most bytes that the description of a release may take.
pub const MAX_RELEASE_JSON_BYTES: usize = 4194304;

/// A helper program.
#[derive(Clone, Copy, PartialEq, Eq, Structural, Debug)]
pub enum ToolKind {
    YtDlp,
    Ffmpeg,
}

impl ToolKind {
    /// The name of the program's file.
    pub open spec fn binary(self) -> Seq<char> {
        match self {
            ToolKind::YtDlp => "yt-dlp"@,
            ToolKind::Ffmpeg => "ffmpeg"@,
        }
    }

    /// The name of the program's file.
    pub fn binary_name(self) -> (result: &'static str)
        ensures
            result@ == self.binary(),
    {
        match self {
            ToolKind::YtDlp => "yt-dlp",
            ToolKind::Ffmpeg => "ffmpeg",
        }
    }

    /// Where the program's releases are published.
    pub fn repository(self) -> (result: &'static str)
        ensures
            result@ == match self {
                ToolKind::YtDlp => "yt-dlp/yt-dlp"@,
                ToolKind::Ffmpeg => "eugeneware/ffmpeg-static"@,
            },
    {
        match self {
            ToolKind::YtDlp => "yt-dlp/yt-dlp",
            ToolKind::Ffmpeg => "eugeneware/ffmpeg-static",
        }
    }

    /// The published file for a system; none where the system is not supported.
    pub open spec fn asset_for(self, os: Seq<char>, arch: Seq<char>) -> Option<Seq<char>> {
        if os == "linux"@ && arch == "x86_64"@ {
            Some(
                match self {
                    ToolKind::YtDlp => "yt-dlp_linux"@,
                    ToolKind::Ffmpeg => "ffmpeg-linux-x64"@,
                },
            )
        } else if os == "macos"@ && arch == "aarch64"@ {
            Some(
                match self {
                    ToolKind::YtDlp => "yt-dlp_macos"@,
                    ToolKind::Ffmpeg => "ffmpeg-darwin-arm64"@,
                },
            )
        } else {
            None
        }
    }

    /// The published file for a system.
    pub fn asset_name(self, os: &str, arch: &str) -> (result: Result<&'static str, String>)
        ensures
            match result {
                Ok(name) => self.asset_for(os@, arch@) == Some(name@),
                Err(message) => self.asset_for(os@, arch@) is None && message@ == unsupported(
                    os@,
                    arch@,
                ),
            },
    {
        if text::same_text(os, "linux") && text::same_text(arch, "x86_64") {
            return match self {
                ToolKind::YtDlp => Ok("yt-dlp_linux"),
                ToolKind::Ffmpeg => Ok("ffmpeg-linux-x64"),
            };
        }
        if text::same_text(os, "macos") && text::same_text(arch, "aarch64") {
            return match self {
                ToolKind::YtDlp => Ok("yt-dlp_macos"),
                ToolKind::Ffmpeg => Ok("ffmpeg-darwin-arm64"),
            };
        }
        let mut message = "plataforma ainda nao suportada: ".to_owned();
        message.push_str(os);
        message.push_str(" ");
        message.push_str(arch);
        Err(message)
    }

    /// The most bytes that the published file may have.
    pub open spec fn size_limit(self) -> u64 {
        match self {
            ToolKind::YtDlp => 67108864,
            ToolKind::Ffmpeg => 134217728,
        }
    }

    /// The most bytes that the published file may have.
    pub fn max_asset_bytes(self) -> (result: u64)
        ensures
            result == self.size_limit(),
    {
        match self {
            ToolKind::YtDlp => 67108864,
            ToolKind::Ffmpeg => 134217728,
        }
    }

    /// The argument that makes the program write its version.
    pub fn version_argument(self) -> (result: &'static str)
        ensures
            result@ == match self {
                ToolKind::YtDlp => "--version"@,
                ToolKind::Ffmpeg => "-version"@,
            },
    {
        match self {
            ToolKind::YtDlp => "--version",
            ToolKind::Ffmpeg => "-version",
        }
    }
}

/// The complaint about a system without a published file.
pub open spec fn unsupported(os: Seq<char>, arch: Seq<char>) -> Seq<char> {
    "plataforma ainda nao suportada: "@ + os + " "@ + arch
}

/// The oldest release of yt-dlp that is accepted.
pub open spec fn oldest_ytdlp() -> Seq<char> {
    "2026.01.01"@
}

/// The part of a version that tells its date.
pub open spec fn dated_part(version: Seq<char>) -> Seq<char> {
    if text::begins_with(version, "stable@"@) {
        version.skip("stable@"@.len() as int)
    } else {
        version
    }
}

/// Whether the first ten bytes of a version's date are a text not before the oldest release.
pub open spec fn ytdlp_supported(version: Seq<char>) -> bool {
    match scan::boundary(dated_part(version), 10) {
        Some(end) => !order::precedes(dated_part(version).take(end), oldest_ytdlp()),
        None => false,
    }
}

/// Whether a version of yt-dlp is accepted.
pub fn supported_ytdlp_version(version: &str) -> (result: bool)
    ensures
        result == ytdlp_supported(version@),
{
    let chars = text::chars_of(version);
    let prefix = text::chars_of("stable@");
    let from: usize = if text::has_prefix(version, "stable@") {
        prefix.len()
    } else {
        0
    };
    let dated = text::chars_of(text::text_of(&chars, from, chars.len()).as_str());
    assert(dated@ =~= dated_part(version@));
    match scan::boundary_at(&dated, 10) {
        Some(end) => {
            let date = text::chars_of(text::text_of(&dated, 0, end).as_str());
            assert(date@ =~= dated@.take(end as int));
            !order::text_precedes(&date, &text::chars_of("2026.01.01"))
        },
        None => false,
    }
}

/// The first line of a program's output, without its line end.
pub open spec fn first_line(output: Seq<char>) -> Seq<char> {
    let end = scan::position_of(output, '\n');
    if output.len() == 0 {
        "versao desconhecida"@
    } else if end < output.len() && end > 0 && output[end - 1] == '\r' {
        output.take(end - 1)
    } else {
        output.take(end)
    }
}

fn find_first_line(output: &str) -> (result: String)
    ensures
        result@ == first_line(output@),
{
    let chars = text::chars_of(output);
    if chars.len() == 0 {
        return "versao desconhecida".to_owned();
    }
    let end: usize = scan::find_char(&chars, '\n');
    let to: usize = if end < chars.len() && end > 0 && chars[end - 1] == '\r' {
        end - 1
    } else {
        end
    };
    let line = text::text_of(&chars, 0, to);
    assert(line@ =~= chars@.take(to as int));
    line
}

/// What a trial run of a program showed.
#[derive(PartialEq, Eq, Debug)]
pub enum Probe {
    /// There is no such file.
    Missing,
    /// The file is no working program, for this reason.
    Broken(String),
    /// The program works and has this version.
    Works(String),
}

/// The view of a [`Probe`].
pub enum ProbeView {
    Missing,
    Broken(Seq<char>),
    Works(Seq<char>),
}

impl View for Probe {
    type V = ProbeView;

    open spec fn view(&self) -> ProbeView {
        match *self {
            Probe::Missing => ProbeView::Missing,
            Probe::Broken(reason) => ProbeView::Broken(reason@),
            Probe::Works(version) => ProbeView::Works(version@),
        }
    }
}

/// What the output of a program run for its version says, together with what FFmpeg lists as its
/// encoders.
pub open spec fn smoke_verdict(
    kind: ToolKind,
    path: Seq<char>,
    success: bool,
    output: Seq<char>,
    encoders: Result<Option<Seq<char>>, Seq<char>>,
) -> ProbeView {
    let version = first_line(output);
    if !success {
        ProbeView::Broken(path + " retornou erro"@)
    } else {
        match kind {
            ToolKind::YtDlp => if ytdlp_supported(version) {
                ProbeView::Works(version)
            } else {
                ProbeView::Broken(
                    "yt-dlp "@ + version + " e anterior ao minimo "@ + oldest_ytdlp(),
                )
            },
            ToolKind::Ffmpeg => match encoders {
                Ok(Some(list)) => if text::occurs_in(list, "libopus"@) {
                    ProbeView::Works(version)
                } else {
                    ProbeView::Broken("FFmpeg sem encoder libopus"@)
                },
                Ok(None) => ProbeView::Broken("FFmpeg sem encoder libopus"@),
                Err(fault) => ProbeView::Broken(fault),
            },
        }
    }
}

/// What the run for the encoders of FFmpeg brought.
pub open spec fn encoder_listing(encoders: Result<Option<String>, String>) -> Result<
    Option<Seq<char>>,
    Seq<char>,
> {
    match encoders {
        Ok(list) => Ok(text::shown(list)),
        Err(fault) => Err(fault@),
    }
}

/// Judges a trial run of the program at `path`. `output` is what it wrote for its version, and
/// `encoders` what FFmpeg listed: nothing where that run ended badly, and a fault where it could
/// not be made.
pub fn smoke_version(
    kind: ToolKind,
    path: &str,
    success: bool,
    output: &str,
    encoders: &Result<Option<String>, String>,
) -> (result: Probe)
    ensures
        result@ == smoke_verdict(
            kind,
            path@,
            success,
            output@,
            encoder_listing(*encoders),
        ),
{
    if !success {
        let mut reason = path.to_owned();
        reason.push_str(" retornou erro");
        return Probe::Broken(reason);
    }
    let version = find_first_line(output);
    match kind {
        ToolKind::YtDlp => {
            if supported_ytdlp_version(version.as_str()) {
                Probe::Works(version)
            } else {
                let mut reason = "yt-dlp ".to_owned();
                reason.push_str(version.as_str());
                reason.push_str(" e anterior ao minimo ");
                reason.push_str("2026.01.01");
                Probe::Broken(reason)
            }
        },
        ToolKind::Ffmpeg => match encoders {
            Ok(Some(list)) => {
                if text::contains_text(list.as_str(), "libopus") {
                    Probe::Works(version)
                } else {
                    Probe::Broken("FFmpeg sem encoder libopus".to_owned())
                }
            },
            Ok(None) => Probe::Broken("FFmpeg sem encoder libopus".to_owned()),
            Err(fault) => Probe::Broken(fault.clone()),
        },
    }
}

/// What is known of a helper program.
#[derive(PartialEq, Eq, Debug)]
pub struct ToolStatus {
    pub kind: ToolKind,
    pub path: String,
    pub installed: bool,
    pub version: Option<String>,
    pub problem: Option<String>,
}

/// A place where a helper program was looked for, and what was found there.
#[derive(PartialEq, Eq, Debug)]
pub struct Candidate {
    pub path: String,
    pub probe: Probe,
}

/// The view of a [`Candidate`].
pub struct CandidateView {
    pub path: Seq<char>,
    pub probe: ProbeView,
}

impl View for Candidate {
    type V = CandidateView;

    open spec fn view(&self) -> CandidateView {
        CandidateView { path: self.path@, probe: self.probe@ }
    }
}

/// The position of the first candidate that works, or the number of candidates.
pub open spec fn first_working(candidates: Seq<CandidateView>) -> int
    decreases candidates.len(),
{
    if candidates.len() == 0 || candidates[0].probe is Works {
        0
    } else {
        1 + first_working(candidates.skip(1))
    }
}

/// The position of the first candidate that is a file at all, or the number of candidates.
pub open spec fn first_present(candidates: Seq<CandidateView>) -> int
    decreases candidates.len(),
{
    if candidates.len() == 0 || !(candidates[0].probe is Missing) {
        0
    } else {
        1 + first_present(candidates.skip(1))
    }
}

fn find_working(candidates: &Vec<Candidate>) -> (result: usize)
    ensures
        result == first_working(text::views(candidates@)),
        result <= candidates@.len(),
        result < candidates@.len() ==> candidates@[result as int].probe is Works,
{
    let ghost list = text::views(candidates@);
    let mut i: usize = 0;
    assert(list.skip(0) =~= list);
    while i < candidates.len()
        invariant
            list == text::views(candidates@),
            i <= candidates@.len(),
            first_working(list) == i + first_working(list.skip(i as int)),
        decreases candidates@.len() - i,
    {
        assert(list[i as int] == candidates@[i as int]@);
        if let Probe::Works(_) = candidates[i].probe {
            return i;
        }
        assert(list.skip(i as int).skip(1) =~= list.skip(i + 1));
        i += 1;
    }
    i
}

fn find_present(candidates: &Vec<Candidate>) -> (result: usize)
    ensures
        result == first_present(text::views(candidates@)),
        result <= candidates@.len(),
        result < candidates@.len() ==> !(candidates@[result as int].probe is Missing),
{
    let ghost list = text::views(candidates@);
    let mut i: usize = 0;
    assert(list.skip(0) =~= list);
    while i < candidates.len()
        invariant
            list == text::views(candidates@),
            i <= candidates@.len(),
            first_present(list) == i + first_present(list.skip(i as int)),
        decreases candidates@.len() - i,
    {
        assert(list[i as int] == candidates@[i as int]@);
        match candidates[i].probe {
            Probe::Missing => {},
            _ => {
                return i;
            },
        }
        assert(list.skip(i as int).skip(1) =~= list.skip(i + 1));
        i += 1;
    }
    i
}

/// The candidate that is used: the managed program where it works, and else the first one of the
/// system that does.
pub open spec fn usable(managed: CandidateView, system: Seq<CandidateView>) -> Option<
    CandidateView,
> {
    if managed.probe is Works {
        Some(managed)
    } else if first_working(system) < system.len() {
        Some(system[first_working(system)])
    } else {
        None
    }
}

/// The candidate that is blamed where none works: the first file of the system, and else the
/// managed program.
pub open spec fn blamed(managed: CandidateView, system: Seq<CandidateView>) -> CandidateView {
    if first_present(system) < system.len() {
        system[first_present(system)]
    } else {
        managed
    }
}

/// Why a candidate cannot be used.
pub open spec fn reason_of(probe: ProbeView) -> Option<Seq<char>> {
    match probe {
        ProbeView::Broken(reason) => Some(reason),
        _ => None,
    }
}

/// Where a helper program was looked for: the managed place, and those that the system offers.
pub struct Trials {
    pub managed: Candidate,
    pub system: Vec<Candidate>,
}

/// The view of [`Trials`].
#[verifier::ext_equal]
pub struct TrialsView {
    pub managed: CandidateView,
    pub system: Seq<CandidateView>,
}

impl View for Trials {
    type V = TrialsView;

    open spec fn view(&self) -> TrialsView {
        TrialsView { managed: self.managed@, system: text::views(self.system@) }
    }
}

impl ToolStatus {
    /// Whether this is what the trial runs of a program tell of it.
    pub open spec fn tells(
        self,
        kind: ToolKind,
        managed: CandidateView,
        system: Seq<CandidateView>,
    ) -> bool {
        &&& self.kind == kind
        &&& match usable(managed, system) {
            Some(chosen) => self.installed && self.path@ == chosen.path && text::shown(self.version)
                == Some(chosen.probe->Works_0) && self.problem is None,
            None => {
                let suspect = blamed(managed, system);
                !self.installed && self.path@ == suspect.path && self.version is None
                    && text::shown(self.problem) == reason_of(suspect.probe)
            },
        }
    }
}

/// What went wrong with an installation, if anything did.
pub open spec fn fault_of(outcome: Result<Trials, String>) -> Option<Seq<char>> {
    match outcome {
        Ok(_) => None,
        Err(message) => Some(message@),
    }
}

/// The care for the helper programs.
#[derive(PartialEq, Eq, Debug)]
pub struct ToolManager {
    pub paths: AppPaths,
}

impl ToolManager {
    /// The care for the programs below `paths`.
    pub fn new(paths: AppPaths) -> (result: Self)
        ensures
            result.paths == paths,
    {
        ToolManager { paths }
    }

    /// Where the managed program lies.
    pub fn path(&self, kind: ToolKind) -> (result: String)
        ensures
            result@ == paths::joined(self.paths.tools_dir@, kind.binary()),
    {
        paths::join(self.paths.tools_dir.as_str(), kind.binary_name())
    }

    /// What is known of a program, from trial runs of the managed one and of those that the
    /// system offers, in the order of the search path.
    pub fn status(&self, kind: ToolKind, managed: &Candidate, system: &Vec<Candidate>) -> (result:
        ToolStatus)
        ensures
            result.tells(kind, managed@, text::views(system@)),
    {
        if let Probe::Works(version) = &managed.probe {
            return ToolStatus {
                kind,
                path: managed.path.clone(),
                installed: true,
                version: Some(version.clone()),
                problem: None,
            };
        }
        let at: usize = find_working(system);
        if at < system.len() {
            assert(text::views(system@)[at as int] == system@[at as int]@);
            if let Probe::Works(version) = &system[at].probe {
                return ToolStatus {
                    kind,
                    path: system[at].path.clone(),
                    installed: true,
                    version: Some(version.clone()),
                    problem: None,
                };
            }
        }
        let seen: usize = find_present(system);
        let suspect = if seen < system.len() {
            assert(text::views(system@)[seen as int] == system@[seen as int]@);
            &system[seen]
        } else {
            managed
        };
        assert(suspect@ == blamed(managed@, text::views(system@)));
        let problem = match &suspect.probe {
            Probe::Broken(reason) => Some(reason.clone()),
            _ => None,
        };
        ToolStatus { kind, path: suspect.path.clone(), installed: false, version: None, problem }
    }

    /// The program to use, where one works; otherwise it has to be installed.
    pub fn ensure(&self, managed: &Candidate, system: &Vec<Candidate>) -> (result: Option<String>)
        ensures
            text::shown(result) == match usable(managed@, text::views(system@)) {
                Some(chosen) => Some(chosen.path),
                None => None,
            },
    {
        if let Probe::Works(_) = &managed.probe {
            return Some(managed.path.clone());
        }
        let at: usize = find_working(system);
        if at < system.len() {
            assert(text::views(system@)[at as int] == system@[at as int]@);
            return Some(system[at].path.clone());
        }
        None
    }

    /// The outcome of installing every program anew, of which each was tried whatever came of the
    /// other: what is known of both, from trial runs after the installations, or what went wrong.
    pub fn update_all(&self, ytdlp: Result<Trials, String>, ffmpeg: Result<Trials, String>) -> (result:
        Result<Vec<ToolStatus>, String>)
        ensures
            match result {
                Ok(statuses) => ytdlp is Ok && ffmpeg is Ok && statuses@.len() == 2
                    && statuses@[0].tells(
                    ToolKind::YtDlp,
                    ytdlp->Ok_0@.managed,
                    ytdlp->Ok_0@.system,
                ) && statuses@[1].tells(
                    ToolKind::Ffmpeg,
                    ffmpeg->Ok_0@.managed,
                    ffmpeg->Ok_0@.system,
                ),
                Err(message) => (ytdlp is Err || ffmpeg is Err) && message@
                    == "falha ao atualizar ferramentas: "@ + failures(
                    fault_of(ytdlp),
                    fault_of(ffmpeg),
                ),
            },
    {
        let mut message = "falha ao atualizar ferramentas: ".to_owned();
        match (ytdlp, ffmpeg) {
            (Ok(first), Ok(second)) => {
                let mut statuses: Vec<ToolStatus> = Vec::new();
                statuses.push(self.status(ToolKind::YtDlp, &first.managed, &first.system));
                statuses.push(self.status(ToolKind::Ffmpeg, &second.managed, &second.system));
                return Ok(statuses);
            },
            (Err(first), Ok(_)) => {
                message.push_str(failure(ToolKind::YtDlp, first.as_str()).as_str());
            },
            (Ok(_), Err(second)) => {
                message.push_str(failure(ToolKind::Ffmpeg, second.as_str()).as_str());
            },
            (Err(first), Err(second)) => {
                let mut both = failure(ToolKind::YtDlp, first.as_str());
                both.push_str("; ");
                both.push_str(failure(ToolKind::Ffmpeg, second.as_str()).as_str());
                message.push_str(both.as_str());
            },
        }
        Err(message)
    }
}

/// What went wrong with one program.
pub open spec fn failed_tool(kind: ToolKind, error: Seq<char>) -> Seq<char> {
    kind.binary() + ": "@ + error
}

/// What went wrong with the programs.
pub open spec fn failures(ytdlp: Option<Seq<char>>, ffmpeg: Option<Seq<char>>) -> Seq<char> {
    match (ytdlp, ffmpeg) {
        (Some(first), Some(second)) => failed_tool(ToolKind::YtDlp, first) + "; "@ + failed_tool(
            ToolKind::Ffmpeg,
            second,
        ),
        (Some(first), None) => failed_tool(ToolKind::YtDlp, first),
        (None, Some(second)) => failed_tool(ToolKind::Ffmpeg, second),
        (None, None) => Seq::empty(),
    }
}

fn failure(kind: ToolKind, error: &str) -> (result: String)
    ensures
        result@ == failed_tool(kind, error@),
{
    let mut message = kind.binary_name().to_owned();
    message.push_str(": ");
    message.push_str(error);
    message
}

/// Refuses an answer of a server where it passes `limit` bytes.
pub fn read_http_limited(body: Vec<u8>, limit: usize) -> (result: Result<Vec<u8>, String>)
    ensures
        match result {
            Ok(kept) => body@.len() <= limit && kept == body,
            Err(message) => body@.len() > limit && message@ == "resposta excedeu "@
                + text::decimal_text(limit as nat) + " bytes"@,
        },
{
    if body.len() > limit {
        let mut message = "resposta excedeu ".to_owned();
        message.push_str(text::decimal(limit as u64).as_str());
        message.push_str(" bytes");
        return Err(message);
    }
    Ok(body)
}

/// A running SHA-256 computation. The type of `sha2::Sha256` cannot be declared by itself, so it
/// is held here.
#[verifier::external_body]
pub struct Hasher {
    inner: sha2::Sha256,
}

/// The bytes that a computation has been given so far.
pub uninterp spec fn hashed(hasher: Hasher) -> Seq<u8>;

/// The SHA-256 digest of a sequence of bytes.
pub uninterp spec fn sha256(bytes: Seq<u8>) -> Seq<u8>;

/// `sha2::Sha256::new`: a computation that has been given nothing.
#[verifier::external_body]
fn start_hasher() -> (result: Hasher)
    ensures
        hashed(result) == Seq::<u8>::empty(),
{
    Hasher { inner: sha2::Digest::new() }
}

/// `sha2::Digest::update`: gives the computation more bytes, after those that it has.
#[verifier::external_body]
fn feed_hasher(hasher: &mut Hasher, bytes: &[u8])
    ensures
        hashed(*final(hasher)) == hashed(*old(hasher)) + bytes@,
{
    sha2::Digest::update(&mut hasher.inner, bytes)
}

/// `sha2::Digest::finalize`: the digest, 32 bytes long, of all the bytes that the computation was
/// given.
#[verifier::external_body]
fn finish_hasher(hasher: Hasher) -> (result: Vec<u8>)
    ensures
        result@ == sha256(hashed(hasher)),
        result@.len() == 32,
{
    sha2::Digest::finalize(hasher.inner).to_vec()
}

/// Bytes in lowercase hexadecimal, two digits for each.
pub open spec fn hexadecimal(bytes: Seq<u8>) -> Seq<char>
    decreases bytes.len(),
{
    if bytes.len() == 0 {
        Seq::empty()
    } else {
        hexadecimal(bytes.drop_last()) + text::zero_padded(
            text::numeral(bytes.last() as nat, 16),
            2,
        )
    }
}

fn hexadecimal_text(bytes: &Vec<u8>) -> (result: String)
    ensures
        result@ == hexadecimal(bytes@),
{
    let mut shown = String::new();
    let mut i: usize = 0;
    proof {
        reveal_strlit("");
        assert(shown@ =~= hexadecimal(bytes@.take(0)));
    }
    while i < bytes.len()
        invariant
            i <= bytes@.len(),
            shown@ == hexadecimal(bytes@.take(i as int)),
        decreases bytes@.len() - i,
    {
        assert(bytes@.take(i + 1).drop_last() =~= bytes@.take(i as int));
        shown.push_str(text::padded_hexadecimal(bytes[i] as u64, 2).as_str());
        i += 1;
    }
    assert(bytes@.take(bytes@.len() as int) =~= bytes@);
    shown
}

/// A download that is checked while it arrives.
pub struct Transfer {
    hasher: Hasher,
    total: u64,
    expected_digest: String,
    expected_size: u64,
    max_size: u64,
}

impl Transfer {
    /// The bytes that have arrived.
    pub closed spec fn received(self) -> Seq<u8> {
        hashed(self.hasher)
    }

    /// The digest, in hexadecimal, that the bytes must have.
    pub closed spec fn digest(self) -> Seq<char> {
        self.expected_digest@
    }

    /// How many bytes must arrive.
    pub closed spec fn size(self) -> u64 {
        self.expected_size
    }

    /// How many bytes may arrive.
    pub closed spec fn limit(self) -> u64 {
        self.max_size
    }

    /// Whether the count is right and the limit is kept.
    pub closed spec fn well_formed(self) -> bool {
        self.total == hashed(self.hasher).len() && self.total <= self.max_size
    }

    /// What the well-formedness of a download says.
    pub proof fn lemma_within_limit(self)
        requires
            self.well_formed(),
        ensures
            self.received().len() <= self.limit(),
    {
    }

    /// A download of which nothing has arrived.
    pub fn new(expected_digest: &str, expected_size: u64, max_size: u64) -> (result: Self)
        ensures
            result.well_formed(),
            result.received() == Seq::<u8>::empty(),
            result.digest() == expected_digest@,
            result.size() == expected_size,
            result.limit() == max_size,
    {
        Transfer {
            hasher: start_hasher(),
            total: 0,
            expected_digest: expected_digest.to_owned(),
            expected_size,
            max_size,
        }
    }

    /// Takes the next bytes, unless there are too many.
    pub fn accept(&mut self, chunk: &[u8]) -> (result: Result<(), String>)
        requires
            old(self).well_formed(),
        ensures
            final(self).well_formed(),
            final(self).digest() == old(self).digest(),
            final(self).size() == old(self).size(),
            final(self).limit() == old(self).limit(),
            match result {
                Ok(()) => final(self).received() == old(self).received() + chunk@ && old(
                    self,
                ).received().len() + chunk@.len() <= old(self).limit(),
                Err(message) => final(self).received() == old(self).received() && old(
                    self,
                ).received().len() + chunk@.len() > old(self).limit() && message@
                    == "download excedeu o limite de "@ + text::decimal_text(
                    old(self).limit() as nat,
                ) + " bytes"@,
            },
    {
        let length: u64 = chunk.len() as u64;
        if length > self.max_size - self.total {
            let mut message = "download excedeu o limite de ".to_owned();
            message.push_str(text::decimal(self.max_size).as_str());
            message.push_str(" bytes");
            return Err(message);
        }
        feed_hasher(&mut self.hasher, chunk);
        self.total = self.total + length;
        Ok(())
    }

    /// Judges a download that has arrived whole.
    pub fn finish(self) -> (result: Result<(), String>)
        requires
            self.well_formed(),
        ensures
            match result {
                Ok(()) => self.received().len() == self.size() && same_ignoring_case(
                    hexadecimal(sha256(self.received())),
                    self.digest(),
                ),
                Err(message) => if self.received().len() != self.size() {
                    message@ == wrong_size(self.size(), self.received().len())
                } else {
                    !same_ignoring_case(hexadecimal(sha256(self.received())), self.digest())
                        && message@ == wrong_digest(
                        self.digest(),
                        hexadecimal(sha256(self.received())),
                    )
                },
            },
    {
        if self.total != self.expected_size {
            let mut message = "tamanho incorreto: esperado ".to_owned();
            message.push_str(text::decimal(self.expected_size).as_str());
            message.push_str(", recebido ");
            message.push_str(text::decimal(self.total).as_str());
            return Err(message);
        }
        let actual = hexadecimal_text(&finish_hasher(self.hasher));
        let matches = text::same_text(
            text::ascii_lowered(actual.as_str()).as_str(),
            text::ascii_lowered(self.expected_digest.as_str()).as_str(),
        );
        if !matches {
            let mut message = "SHA-256 incorreto: esperado ".to_owned();
            message.push_str(self.expected_digest.as_str());
            message.push_str(", recebido ");
            message.push_str(actual.as_str());
            return Err(message);
        }
        Ok(())
    }
}

/// Whether two texts differ at most in the case of their ASCII letters.
pub open spec fn same_ignoring_case(a: Seq<char>, b: Seq<char>) -> bool {
    text::ascii_lower_text(a) == text::ascii_lower_text(b)
}

/// The complaint about a download of the wrong length.
pub open spec fn wrong_size(expected: u64, received: nat) -> Seq<char> {
    "tamanho incorreto: esperado "@ + text::decimal_text(expected as nat) + ", recebido "@
        + text::decimal_text(received)
}

/// The complaint about a download with the wrong digest.
pub open spec fn wrong_digest(expected: Seq<char>, actual: Seq<char>) -> Seq<char> {
    "SHA-256 incorreto: esperado "@ + expected + ", recebido "@ + actual
}

/// Whether a server announces more than `max_size` bytes. A length that cannot be read announces
/// nothing.
pub open spec fn announces_more(length: Option<&str>, max_size: u64) -> bool {
    match length {
        Some(value) => match text::parsed_number(value@) {
            Some(n) => n > max_size,
            None => false,
        },
        None => false,
    }
}

/// Refuses a download that the server announces to be longer than `max_size` bytes.
pub fn check_announced(length: Option<&str>, max_size: u64) -> (result: Result<(), String>)
    ensures
        match result {
            Ok(()) => !announces_more(length, max_size),
            Err(message) => announces_more(length, max_size) && message@
                == "servidor anunciou um download maior que o limite de seguranca"@,
        },
{
    match length {
        Some(value) => {
            let chars = text::chars_of(value);
            assert(chars@.subrange(0, chars@.len() as int) =~= value@);
            match text::parse_number(&chars, 0, chars.len()) {
                Some(n) => {
                    if n > max_size {
                        return Err(
                            "servidor anunciou um download maior que o limite de seguranca".to_owned(),
                        );
                    }
                    Ok(())
                },
                None => Ok(()),
            }
        },
        None => Ok(()),
    }
}

proof fn lemma_first_working(candidates: Seq<CandidateView>)
    ensures
        0 <= first_working(candidates) <= candidates.len(),
        forall|k: int|
            0 <= k < first_working(candidates) ==> !((#[trigger] candidates[k]).probe is Works),
        first_working(candidates) < candidates.len()
            ==> candidates[first_working(candidates)].probe is Works,
    decreases candidates.len(),
{
    if candidates.len() > 0 && !(candidates[0].probe is Works) {
        let rest = candidates.skip(1);
        lemma_first_working(rest);
        assert forall|k: int| 0 <= k < first_working(candidates) implies !((
        #[trigger] candidates[k]).probe is Works) by {
            if k > 0 {
                assert(rest[k - 1] == candidates[k]);
            }
        }
    }
}

proof fn lemma_first_present(candidates: Seq<CandidateView>)
    ensures
        0 <= first_present(candidates) <= candidates.len(),
        forall|k: int|
            0 <= k < first_present(candidates) ==> (#[trigger] candidates[k]).probe is Missing,
        first_present(candidates) < candidates.len()
            ==> !(candidates[first_present(candidates)].probe is Missing),
    decreases candidates.len(),
{
    if candidates.len() > 0 && candidates[0].probe is Missing {
        let rest = candidates.skip(1);
        lemma_first_present(rest);
        assert forall|k: int| 0 <= k < first_present(candidates) implies (
        #[trigger] candidates[k]).probe is Missing by {
            if k > 0 {
                assert(rest[k - 1] == candidates[k]);
            }
        }
    }
}

/// The managed program is used where it works; otherwise a program of the system that works, none
/// before it does; and none is used only where none works.
pub proof fn lemma_working_program_used(managed: CandidateView, system: Seq<CandidateView>, k: int)
    requires
        0 <= k < system.len(),
        forall|i: int| 0 <= i < k ==> !((#[trigger] system[i]).probe is Works),
    ensures
        managed.probe is Works ==> usable(managed, system) == Some(managed),
        !(managed.probe is Works) && system[k].probe is Works ==> usable(managed, system) == Some(
            system[k],
        ),
        usable(managed, system) is None ==> !(managed.probe is Works) && !(system[k].probe is Works),
        usable(managed, system) matches Some(chosen) ==> chosen.probe is Works,
        !(managed.probe is Works) ==> usable(managed, Seq::empty()) is None,
{
    lemma_first_working(system);
}

/// Where no program works, the first file of the system is blamed, or the managed program where the
/// system has none, with the reason that its trial gave.
pub proof fn lemma_program_blamed(
    managed: CandidateView,
    system: Seq<CandidateView>,
    k: int,
    reason: Seq<char>,
)
    requires
        0 <= k < system.len(),
        forall|i: int| 0 <= i < k ==> (#[trigger] system[i]).probe is Missing,
    ensures
        !(system[k].probe is Missing) ==> blamed(managed, system) == system[k],
        k == system.len() - 1 && system[k].probe is Missing ==> blamed(managed, system) == managed,
        blamed(managed, Seq::empty()) == managed,
        reason_of(ProbeView::Broken(reason)) == Some(reason),
        reason_of(ProbeView::Missing) is None,
{
    lemma_first_present(system);
}

/// What is told of a program is where the one that is used lies and which version it has, or why
/// there is none.
pub proof fn lemma_status_told(
    status: ToolStatus,
    kind: ToolKind,
    managed: CandidateView,
    system: Seq<CandidateView>,
)
    requires
        status.tells(kind, managed, system),
    ensures
        status.kind == kind,
        managed.probe matches ProbeView::Works(version) ==> status.installed && status.path@
            == managed.path && text::shown(status.version) == Some(version) && status.problem
            is None,
        status.installed <==> usable(managed, system) is Some,
        !status.installed ==> status.version is None && status.path@ == blamed(
            managed,
            system,
        ).path && text::shown(status.problem) == reason_of(blamed(managed, system).probe),
{
    lemma_first_working(system);
}

/// A program whose trial run failed does not work; yt-dlp works where its release is not too old, and
/// FFmpeg where it lists the Opus encoder, and the version is the first line that it wrote.
pub proof fn lemma_trial_verdict(
    kind: ToolKind,
    path: Seq<char>,
    output: Seq<char>,
    encoders: Result<Option<Seq<char>>, Seq<char>>,
    list: Seq<char>,
    fault: Seq<char>,
)
    ensures
        ({
            let failed = smoke_verdict(kind, path, false, output, encoders);
            let ytdlp = smoke_verdict(ToolKind::YtDlp, path, true, output, encoders);
            let listed = smoke_verdict(ToolKind::Ffmpeg, path, true, output, Ok(Some(list)));
            let version = first_line(output);
            &&& failed is Broken
            &&& text::begins_with(failed->Broken_0, path)
            &&& ytdlp_supported(version) ==> ytdlp == ProbeView::Works(version)
            &&& !ytdlp_supported(version) ==> ytdlp is Broken && text::occurs_in(
                ytdlp->Broken_0,
                version,
            )
            &&& text::occurs_in(list, "libopus"@) ==> listed == ProbeView::Works(version)
            &&& !text::occurs_in(list, "libopus"@) ==> listed is Broken
            &&& smoke_verdict(ToolKind::Ffmpeg, path, true, output, Ok(None)) is Broken
            &&& smoke_verdict(ToolKind::Ffmpeg, path, true, output, Err(fault))
                == ProbeView::Broken(fault)
        }),
{
    let version = first_line(output);
    let after = " e anterior ao minimo "@ + oldest_ytdlp();
    text::lemma_occurs_between(Seq::empty(), path, " retornou erro"@);
    text::lemma_occurs_between("yt-dlp "@, version, after);
    assert("yt-dlp "@ + version + " e anterior ao minimo "@ + oldest_ytdlp() =~= "yt-dlp "@ + version
        + after);
}

/// The version is what stands before the first line end, of either kind.
pub proof fn lemma_first_line(line: Seq<char>, rest: Seq<char>)
    requires
        line.len() > 0,
        !line.contains('\n'),
        line.last() != '\r',
    ensures
        first_line(line) == line,
        first_line(line + seq!['\n'] + rest) == line,
        first_line(line + seq!['\r', '\n'] + rest) == line,
{
    assert forall|k: int| 0 <= k < line.len() implies line[k] != '\n' by {
        assert(line.contains(line[k]));
    }
    let (unix, other) = (line + seq!['\n'] + rest, line + seq!['\r', '\n'] + rest);
    scan::lemma_position_of(line, '\n');
    scan::lemma_position_of(unix, '\n');
    scan::lemma_position_of(other, '\n');
    assert(unix[line.len() as int] == '\n');
    assert(other[line.len() as int] == '\r');
    assert(other[line.len() as int + 1] == '\n');
    assert(forall|k: int| 0 <= k < line.len() ==> unix[k] == line[k]);
    assert(forall|k: int| 0 <= k < line.len() ==> other[k] == line[k]);
    assert(scan::position_of(line, '\n') == line.len());
    assert(scan::position_of(unix, '\n') == line.len());
    assert(scan::position_of(other, '\n') == line.len() + 1);
    assert(unix.take(line.len() as int) =~= line);
    assert(other.take(line.len() as int) =~= line);
    assert(line.take(line.len() as int) =~= line);
}

/// A release is told by the ten ASCII characters of its date, whatever follows them and whether or not
/// its channel stands before them; it is refused where its date comes before that of the oldest one.
pub proof fn lemma_release_dates(date: Seq<char>, rest: Seq<char>)
    requires
        date.len() == 10,
        forall|i: int| 0 <= i < date.len() ==> scan::width(#[trigger] date[i]) == 1,
        date[0] != 's',
    ensures
        ytdlp_supported(date + rest) <==> !order::precedes(date, "2026.01.01"@),
        ytdlp_supported("stable@"@ + date + rest) <==> !order::precedes(date, "2026.01.01"@),
{
    reveal_strlit("stable@");
    let (plain, marked) = (date + rest, "stable@"@ + date + rest);
    assert(plain[0] == date[0]);
    assert(!text::begins_with(plain, "stable@"@)) by {
        if text::begins_with(plain, "stable@"@) {
            assert(plain.subrange(0, 7)[0] == 's');
        }
    }
    assert(marked =~= "stable@"@ + (date + rest));
    text::lemma_occurs_between(Seq::empty(), "stable@"@, date + rest);
    assert(marked.skip(7) =~= plain);
    lemma_narrow_boundary(date, rest);
    assert(plain.take(10) =~= date);
}

proof fn lemma_narrow_boundary(narrow: Seq<char>, rest: Seq<char>)
    requires
        forall|i: int| 0 <= i < narrow.len() ==> scan::width(#[trigger] narrow[i]) == 1,
    ensures
        scan::boundary(narrow + rest, narrow.len()) == Some(narrow.len() as int),
    decreases narrow.len(),
{
    if narrow.len() > 0 {
        let tail = narrow.skip(1);
        assert forall|i: int| 0 <= i < tail.len() implies scan::width(#[trigger] tail[i]) == 1 by {
            assert(tail[i] == narrow[i + 1]);
        }
        lemma_narrow_boundary(tail, rest);
        assert((narrow + rest).skip(1) =~= tail + rest);
        assert((narrow + rest)[0] == narrow[0]);
    }
}

/// What went wrong is told of every program with which something did, with its name, and nothing is
/// told where nothing did.
pub proof fn lemma_failures_named(first: Seq<char>, second: Seq<char>)
    ensures
        ({
            let both = failures(Some(first), Some(second));
            let (one, other) = ("yt-dlp: "@ + first, "ffmpeg: "@ + second);
            &&& text::begins_with(both, one)
            &&& text::ends_with(both, other)
            &&& both.len() == one.len() + 2 + other.len()
            &&& failures(Some(first), None) == one
            &&& failures(None, Some(second)) == other
            &&& failures(None, None).len() == 0
        }),
{
    reveal_strlit("yt-dlp");
    reveal_strlit("ffmpeg");
    reveal_strlit(": ");
    reveal_strlit("; ");
    reveal_strlit("yt-dlp: ");
    reveal_strlit("ffmpeg: ");
    let (one, other) = ("yt-dlp: "@ + first, "ffmpeg: "@ + second);
    assert(failed_tool(ToolKind::YtDlp, first) =~= one);
    assert(failed_tool(ToolKind::Ffmpeg, second) =~= other);
    text::lemma_occurs_between(Seq::empty(), one, "; "@ + other);
    text::lemma_occurs_between(one + "; "@, other, Seq::empty());
    assert(one + "; "@ + other =~= one + ("; "@ + other));
}

/// A digest is written with two digits for each byte, in the order of the bytes.
pub proof fn lemma_hexadecimal(a: Seq<u8>, b: Seq<u8>)
    ensures
        hexadecimal(a + b) == hexadecimal(a) + hexadecimal(b),
        hexadecimal(a).len() == 2 * a.len(),
    decreases a.len() + b.len(),
{
    if b.len() > 0 {
        lemma_hexadecimal(a, b.drop_last());
        assert((a + b).drop_last() =~= a + b.drop_last());
        assert(hexadecimal(a + b) =~= hexadecimal(a) + hexadecimal(b));
    } else {
        assert(a + b =~= a);
        assert(hexadecimal(a) + hexadecimal(b) =~= hexadecimal(a));
        if a.len() > 0 {
            lemma_hexadecimal(a.drop_last(), b);
            reveal_with_fuel(text::numeral, 3);
        }
    }
}

/// A byte is written by its upper and its lower half.
pub proof fn lemma_byte_written(byte: u8)
    ensures
        hexadecimal(seq![byte]) == seq![
            text::digit_char(byte as int / 16),
            text::digit_char(byte as int % 16),
        ],
{
    reveal_with_fuel(text::numeral, 3);
    reveal_with_fuel(hexadecimal, 2);
    let n = byte as nat;
    assert(n < 256 && n / 16 < 16);
    let written = text::zero_padded(text::numeral(n, 16), 2);
    if n < 16 {
        assert(text::digit_char(0) == '0');
        assert(n / 16 == 0 && n % 16 == n);
    }
    assert(written =~= seq![text::digit_char(n as int / 16), text::digit_char(n as int % 16)]);
    assert(seq![byte].drop_last() =~= Seq::<u8>::empty());
    assert(hexadecimal(seq![byte]) =~= written);
}

/// A server that announces a length announces more where the length is above the limit; one that
/// announces none, or none that can be read, does not.
pub proof fn lemma_announced(length: &str, n: nat, max_size: u64)
    requires
        length@ == text::decimal_text(n),
        n <= u64::MAX,
    ensures
        announces_more(Some(length), max_size) <==> n > max_size,
        !announces_more(None, max_size),
{
    text::lemma_decimal_round_trip(n);
}

/// A digest is compared without regard to the case of its letters, and to nothing else.
pub proof fn lemma_case_ignored(a: Seq<char>, b: Seq<char>, i: int)
    ensures
        same_ignoring_case(a, a),
        same_ignoring_case(a, text::ascii_lower_text(a)),
        same_ignoring_case(a, b) ==> a.len() == b.len(),
        same_ignoring_case(a, b) && 0 <= i < a.len() ==> text::ascii_lower(a[i])
            == text::ascii_lower(b[i]),
{
    assert(text::ascii_lower_text(text::ascii_lower_text(a)) =~= text::ascii_lower_text(a));
    assert(text::ascii_lower_text(a).len() == a.len());
    assert(text::ascii_lower_text(b).len() == b.len());
    if same_ignoring_case(a, b) && 0 <= i < a.len() {
        assert(text::ascii_lower_text(a)[i] == text::ascii_lower_text(b)[i]);
    }
}

/// What is wrong with a download is told by what was expected and what came.
pub proof fn lemma_download_complaints(
    expected: u64,
    received: nat,
    wanted: Seq<char>,
    actual: Seq<char>,
)
    ensures
        text::occurs_in(wrong_size(expected, received), text::decimal_text(expected as nat)),
        text::ends_with(wrong_size(expected, received), text::decimal_text(received)),
        text::occurs_in(wrong_digest(wanted, actual), wanted),
        text::ends_with(wrong_digest(wanted, actual), actual),
{
    let (e, r) = (text::decimal_text(expected as nat), text::decimal_text(received));
    let (size, digest, got) = (
        "tamanho incorreto: esperado "@,
        "SHA-256 incorreto: esperado "@,
        ", recebido "@,
    );
    text::lemma_occurs_between(size, e, got + r);
    assert(size + e + got + r =~= size + e + (got + r));
    text::lemma_occurs_between(size + e + got, r, Seq::empty());
    text::lemma_occurs_between(digest, wanted, got + actual);
    assert(digest + wanted + got + actual =~= digest + wanted + (got + actual));
    text::lemma_occurs_between(digest + wanted + got, actual, Seq::empty());
}

/// Each program has a file for Linux on x86-64 and for macOS on AArch64 and for no other system, and
/// no two programs or systems share one.
pub proof fn lemma_assets(kind: ToolKind, os: Seq<char>, arch: Seq<char>)
    ensures
        kind.asset_for(os, arch) is Some <==> ((os == "linux"@ && arch == "x86_64"@) || (os
            == "macos"@ && arch == "aarch64"@)),
        kind.asset_for(os, arch) is Some ==> text::begins_with(
            kind.asset_for(os, arch)->0,
            kind.binary(),
        ),
        kind.asset_for("linux"@, "x86_64"@) != kind.asset_for("macos"@, "aarch64"@),
        text::ends_with(unsupported(os, arch), arch),
        text::occurs_in(unsupported(os, arch), os),
{
    reveal_strlit("linux");
    reveal_strlit("macos");
    reveal_strlit("x86_64");
    reveal_strlit("aarch64");
    reveal_strlit("yt-dlp");
    reveal_strlit("ffmpeg");
    reveal_strlit("yt-dlp_linux");
    reveal_strlit("yt-dlp_macos");
    reveal_strlit("ffmpeg-linux-x64");
    reveal_strlit("ffmpeg-darwin-arm64");
    assert("linux"@[0] == 'l' && "macos"@[0] == 'm');
    assert("yt-dlp_linux"@[7] == 'l' && "yt-dlp_macos"@[7] == 'm');
    assert("ffmpeg-linux-x64"@.len() != "ffmpeg-darwin-arm64"@.len());
    assert("yt-dlp_linux"@.subrange(0, 6) =~= "yt-dlp"@);
    assert("yt-dlp_macos"@.subrange(0, 6) =~= "yt-dlp"@);
    assert("ffmpeg-linux-x64"@.subrange(0, 6) =~= "ffmpeg"@);
    assert("ffmpeg-darwin-arm64"@.subrange(0, 6) =~= "ffmpeg"@);
    let before = "plataforma ainda nao suportada: "@;
    text::lemma_occurs_between(before + os + " "@, arch, Seq::empty());
    text::lemma_occurs_between(before, os, " "@ + arch);
    assert(unsupported(os, arch) =~= before + os + (" "@ + arch));
}

/// The description of a release may take 4 MiB.
pub proof fn lemma_release_limit()
    ensures
        MAX_RELEASE_JSON_BYTES == 4 * 1024 * 1024,
{
}

} // verus!
