//! One download job: from its request to the published tracks, a step at a time.

use vstd::prelude::*;

use crate::download;
use crate::download::MAX_INPUT_BYTES;
use crate::download::MIN_DOWNLOAD_FREE_BYTES;
use crate::model;
use crate::model::DownloadEvent;
use crate::model::DownloadEventView;
use crate::model::DownloadRequest;
use crate::model::DownloadRequestView;
use crate::model::MediaSegment;
use crate::model::SearchItem;
use crate::model::SearchItemView;
use crate::model::TrackDraft;
use crate::model::TrackDraftView;
use crate::paths;
use crate::text;

verus! {

/// The file that a track is published as.
pub open spec fn track_path(library: Seq<char>, item: SearchItemView) -> Seq<char> {
    paths::joined(library, item.provider + "-"@ + download::safe_name(item.source_id) + ".opus"@)
}

/// The file that a track is converted into before it is published.
pub open spec fn part_path(library: Seq<char>, item: SearchItemView) -> Seq<char> {
    paths::joined(
        library,
        "."@ + item.provider + "-"@ + download::safe_name(item.source_id) + ".opus.part"@,
    )
}

/// The folder for what a job fetches.
pub open spec fn job_folder(cache: Seq<char>, job_id: Seq<char>) -> Seq<char> {
    paths::joined(paths::joined(cache, "downloads"@), download::safe_name(job_id))
}

/// The library's record of a downloaded item.
pub open spec fn draft_of(item: SearchItemView, path: Seq<char>) -> TrackDraftView {
    TrackDraftView {
        provider: Some(item.provider),
        source_id: Some(item.source_id),
        title: item.title,
        artist: item.artist,
        album: item.album,
        path,
        duration_seconds: item.duration_seconds,
        imported: false,
    }
}

/// The library's record of a downloaded item.
pub fn draft_for(item: &SearchItem, path: String) -> (result: TrackDraft)
    ensures
        result@ == draft_of(item@, path@),
{
    TrackDraft {
        provider: Some(item.provider.clone()),
        source_id: Some(item.source_id.clone()),
        title: item.title.clone(),
        artist: item.artist.clone(),
        album: text::copied(&item.album),
        path,
        duration_seconds: item.duration_seconds,
        imported: false,
    }
}

/// The arguments that make the extractor fetch the sound of `url` into `folder`.
pub open spec fn fetch_arguments(folder: Seq<char>, url: Seq<char>) -> Seq<Seq<char>> {
    seq![
        "--ignore-config"@,
        "--no-playlist"@,
        "--continue"@,
        "--no-warnings"@,
        "--no-progress"@,
        "--socket-timeout"@,
        "10"@,
        "--retries"@,
        "3"@,
        "--fragment-retries"@,
        "3"@,
        "--concurrent-fragments"@,
        "1"@,
        "--limit-rate"@,
        "8M"@,
        "--max-filesize"@,
        "1G"@,
        "--match-filter"@,
        "!is_live"@,
        "-f"@,
        "bestaudio/best"@,
        "-o"@,
        paths::joined(folder, "input.%(ext)s"@),
        "--"@,
        url,
    ]
}

fn fetch_command(folder: &str, url: &str) -> (result: Vec<String>)
    ensures
        text::views(result@) == fetch_arguments(folder@, url@),
{
    let mut arguments: Vec<String> = Vec::new();
    arguments.push("--ignore-config".to_owned());
    arguments.push("--no-playlist".to_owned());
    arguments.push("--continue".to_owned());
    arguments.push("--no-warnings".to_owned());
    arguments.push("--no-progress".to_owned());
    arguments.push("--socket-timeout".to_owned());
    arguments.push("10".to_owned());
    arguments.push("--retries".to_owned());
    arguments.push("3".to_owned());
    arguments.push("--fragment-retries".to_owned());
    arguments.push("3".to_owned());
    arguments.push("--concurrent-fragments".to_owned());
    arguments.push("1".to_owned());
    arguments.push("--limit-rate".to_owned());
    arguments.push("8M".to_owned());
    arguments.push("--max-filesize".to_owned());
    arguments.push("1G".to_owned());
    arguments.push("--match-filter".to_owned());
    arguments.push("!is_live".to_owned());
    arguments.push("-f".to_owned());
    arguments.push("bestaudio/best".to_owned());
    arguments.push("-o".to_owned());
    arguments.push(paths::join(folder, "input.%(ext)s"));
    arguments.push("--".to_owned());
    arguments.push(url.to_owned());
    assert(text::views(arguments@) =~= fetch_arguments(folder@, url@));
    arguments
}

/// The arguments that make the converter describe `input`.
pub open spec fn probe_arguments(input: Seq<char>) -> Seq<Seq<char>> {
    seq!["-hide_banner"@, "-nostdin"@, "-i"@, input]
}

fn probe_command(input: &str) -> (result: Vec<String>)
    ensures
        text::views(result@) == probe_arguments(input@),
{
    let mut arguments: Vec<String> = Vec::new();
    arguments.push("-hide_banner".to_owned());
    arguments.push("-nostdin".to_owned());
    arguments.push("-i".to_owned());
    arguments.push(input.to_owned());
    assert(text::views(arguments@) =~= probe_arguments(input@));
    arguments
}

/// Whether the converter's description of a file, where there is one, says that its sound is Opus
/// already.
pub fn probe_is_opus(description: Option<&str>) -> (result: bool)
    ensures
        result == match description {
            Some(value) => text::occurs_in(value@, "Audio: opus"@),
            None => false,
        },
{
    match description {
        Some(value) => text::contains_text(value, "Audio: opus"),
        None => false,
    }
}

/// A number of microseconds as seconds with six decimals.
pub open spec fn seconds_text(micros: nat) -> Seq<char> {
    text::decimal_text(micros / 1000000) + "."@ + text::zero_padded(
        text::decimal_text(micros % 1000000),
        6,
    )
}

fn write_seconds(micros: u64) -> (result: String)
    ensures
        result@ == seconds_text(micros as nat),
{
    let mut shown = text::decimal(micros / 1000000);
    shown.push_str(".");
    shown.push_str(text::padded_decimal(micros % 1000000, 6).as_str());
    shown
}

/// The microseconds of a part: up to where the next one begins on the same scale, so that parts
/// which follow one another neither overlap nor leave a gap.
pub open spec fn segment_micros(segment: MediaSegment) -> nat {
    let (start, end) = (segment.start_seconds.microseconds(), segment.end_seconds.microseconds());
    if end > start {
        (end - start) as nat
    } else {
        0
    }
}

/// The microseconds of a part reach exactly up to where the next one begins.
pub proof fn lemma_parts_abut(part: MediaSegment, next: MediaSegment)
    requires
        0 <= part.start_seconds.units() <= part.end_seconds.units(),
        next.start_seconds == part.end_seconds,
    ensures
        part.start_seconds.microseconds() + segment_micros(part)
            == next.start_seconds.microseconds(),
{
    let low = part.start_seconds.magnitude();
    let high = part.end_seconds.magnitude();
    let unit = vstd::arithmetic::power2::pow2(1074) as int;
    vstd::arithmetic::power2::lemma_pow2_pos(1074);
    vstd::arithmetic::div_mod::lemma_div_is_ordered(
        (1000000 * low + vstd::arithmetic::power2::pow2(1073)) as int,
        (1000000 * high + vstd::arithmetic::power2::pow2(1073)) as int,
        unit,
    );
}

/// The arguments that cut a part out of a recording.
pub open spec fn cut_arguments(segment: Option<MediaSegment>) -> Seq<Seq<char>> {
    match segment {
        Some(part) => seq![
            "-ss"@,
            seconds_text(part.start_seconds.microseconds() as nat),
            "-t"@,
            seconds_text(segment_micros(part)),
        ],
        None => Seq::empty(),
    }
}

/// The arguments that choose how the sound is encoded: a part of a recording is always encoded
/// anew.
pub open spec fn codec_arguments(copy: bool, bitrate_kbps: u16) -> Seq<Seq<char>> {
    if copy {
        seq!["-c:a"@, "copy"@]
    } else {
        seq![
            "-c:a"@,
            "libopus"@,
            "-b:a"@,
            text::decimal_text(bitrate_kbps as nat) + "k"@,
            "-vbr"@,
            "on"@,
            "-threads"@,
            "1"@,
            "-filter_threads"@,
            "1"@,
            "-filter_complex_threads"@,
            "1"@,
        ]
    }
}

/// The arguments that write what is known of a track into its file.
pub open spec fn tag_arguments(item: SearchItemView, total: nat) -> Seq<Seq<char>> {
    seq!["-metadata"@, "title="@ + item.title, "-metadata"@, "artist="@ + item.artist] + match item.album {
        Some(album) => seq!["-metadata"@, "album="@ + album],
        None => Seq::<Seq<char>>::empty(),
    } + match item.segment {
        Some(part) => seq![
            "-metadata"@,
            "track="@ + text::decimal_text(part.position as nat) + "/"@ + text::decimal_text(total),
        ],
        None => Seq::<Seq<char>>::empty(),
    }
}

/// The arguments that make the converter write `part` from `input`.
pub open spec fn conversion_arguments(
    input: Seq<char>,
    item: SearchItemView,
    total: nat,
    copy: bool,
    bitrate_kbps: u16,
    part: Seq<char>,
) -> Seq<Seq<char>> {
    seq![
        "-hide_banner"@,
        "-loglevel"@,
        "error"@,
        "-nostdin"@,
        "-nostats"@,
        "-y"@,
        "-i"@,
        input,
    ] + cut_arguments(item.segment) + seq!["-vn"@, "-map_metadata"@, "-1"@] + codec_arguments(
        copy,
        bitrate_kbps,
    ) + tag_arguments(item, total) + seq!["-f"@, "opus"@, part]
}

fn labelled(label: &str, value: &str) -> (result: String)
    ensures
        result@ == label@ + value@,
{
    let mut joined = label.to_owned();
    joined.push_str(value);
    joined
}

fn append_all(arguments: &mut Vec<String>, mut more: Vec<String>)
    ensures
        text::views(final(arguments)@) == text::views(old(arguments)@) + text::views(more@),
{
    let ghost added = more@;
    let ghost before = arguments@;
    arguments.append(&mut more);
    assert(text::views(arguments@) =~= text::views(before) + text::views(added));
}

fn cut_command(segment: &Option<MediaSegment>) -> (result: Vec<String>)
    ensures
        text::views(result@) == cut_arguments(*segment),
{
    let mut arguments: Vec<String> = Vec::new();
    match segment {
        Some(part) => {
            let start: u64 = part.start_seconds.micros();
            let end: u64 = part.end_seconds.micros();
            let length: u64 = if end > start {
                end - start
            } else {
                0
            };
            arguments.push("-ss".to_owned());
            arguments.push(write_seconds(start));
            arguments.push("-t".to_owned());
            arguments.push(write_seconds(length));
        },
        None => {},
    }
    assert(text::views(arguments@) =~= cut_arguments(*segment));
    arguments
}

fn codec_command(copy: bool, bitrate_kbps: u16) -> (result: Vec<String>)
    ensures
        text::views(result@) == codec_arguments(copy, bitrate_kbps),
{
    let mut arguments: Vec<String> = Vec::new();
    arguments.push("-c:a".to_owned());
    if copy {
        arguments.push("copy".to_owned());
    } else {
        arguments.push("libopus".to_owned());
        arguments.push("-b:a".to_owned());
        let mut rate = text::decimal(bitrate_kbps as u64);
        rate.push_str("k");
        arguments.push(rate);
        arguments.push("-vbr".to_owned());
        arguments.push("on".to_owned());
        arguments.push("-threads".to_owned());
        arguments.push("1".to_owned());
        arguments.push("-filter_threads".to_owned());
        arguments.push("1".to_owned());
        arguments.push("-filter_complex_threads".to_owned());
        arguments.push("1".to_owned());
    }
    assert(text::views(arguments@) =~= codec_arguments(copy, bitrate_kbps));
    arguments
}

fn tag_command(item: &SearchItem, total: usize) -> (result: Vec<String>)
    ensures
        text::views(result@) == tag_arguments(item@, total as nat),
{
    let mut arguments: Vec<String> = Vec::new();
    arguments.push("-metadata".to_owned());
    arguments.push(labelled("title=", item.title.as_str()));
    arguments.push("-metadata".to_owned());
    arguments.push(labelled("artist=", item.artist.as_str()));
    match &item.album {
        Some(album) => {
            arguments.push("-metadata".to_owned());
            arguments.push(labelled("album=", album.as_str()));
        },
        None => {},
    }
    match &item.segment {
        Some(part) => {
            let mut place = labelled("track=", text::decimal(part.position as u64).as_str());
            place.push_str("/");
            place.push_str(text::decimal(total as u64).as_str());
            arguments.push("-metadata".to_owned());
            arguments.push(place);
        },
        None => {},
    }
    assert(text::views(arguments@) =~= tag_arguments(item@, total as nat));
    arguments
}

fn conversion_command(
    input: &str,
    item: &SearchItem,
    total: usize,
    copy: bool,
    bitrate_kbps: u16,
    part: &str,
) -> (result: Vec<String>)
    ensures
        text::views(result@) == conversion_arguments(
            input@,
            item@,
            total as nat,
            copy,
            bitrate_kbps,
            part@,
        ),
{
    let mut arguments: Vec<String> = Vec::new();
    arguments.push("-hide_banner".to_owned());
    arguments.push("-loglevel".to_owned());
    arguments.push("error".to_owned());
    arguments.push("-nostdin".to_owned());
    arguments.push("-nostats".to_owned());
    arguments.push("-y".to_owned());
    arguments.push("-i".to_owned());
    arguments.push(input.to_owned());
    assert(text::views(arguments@) =~= seq![
        "-hide_banner"@,
        "-loglevel"@,
        "error"@,
        "-nostdin"@,
        "-nostats"@,
        "-y"@,
        "-i"@,
        input@,
    ]);
    append_all(&mut arguments, cut_command(&item.segment));
    let mut plain: Vec<String> = Vec::new();
    plain.push("-vn".to_owned());
    plain.push("-map_metadata".to_owned());
    plain.push("-1".to_owned());
    assert(text::views(plain@) =~= seq!["-vn"@, "-map_metadata"@, "-1"@]);
    append_all(&mut arguments, plain);
    append_all(&mut arguments, codec_command(copy, bitrate_kbps));
    append_all(&mut arguments, tag_command(item, total));
    let mut target: Vec<String> = Vec::new();
    target.push("-f".to_owned());
    target.push("opus".to_owned());
    target.push(part.to_owned());
    assert(text::views(target@) =~= seq!["-f"@, "opus"@, part@]);
    append_all(&mut arguments, target);
    arguments
}

/// An entry of a folder.
#[derive(PartialEq, Eq, Debug)]
pub struct FolderEntry {
    pub name: String,
    pub is_file: bool,
}

/// The view of a [`FolderEntry`].
pub struct FolderEntryView {
    pub name: Seq<char>,
    pub is_file: bool,
}

impl View for FolderEntry {
    type V = FolderEntryView;

    open spec fn view(&self) -> FolderEntryView {
        FolderEntryView { name: self.name@, is_file: self.is_file }
    }
}

/// Whether an entry is the fetched file: complete, and named as it was asked for.
pub open spec fn fetched_entry(entry: FolderEntryView) -> bool {
    entry.is_file && text::begins_with(entry.name, "input."@) && !text::ends_with(
        entry.name,
        ".part"@,
    )
}

/// The position of the first fetched file, or the number of entries.
pub open spec fn fetched_position(entries: Seq<FolderEntryView>) -> int
    decreases entries.len(),
{
    if entries.len() == 0 || fetched_entry(entries[0]) {
        0
    } else {
        1 + fetched_position(entries.skip(1))
    }
}

fn find_fetched(entries: &Vec<FolderEntry>) -> (result: usize)
    ensures
        result == fetched_position(text::views(entries@)),
        result <= entries@.len(),
{
    let ghost list = text::views(entries@);
    let mut i: usize = 0;
    assert(list.skip(0) =~= list);
    while i < entries.len()
        invariant
            list == text::views(entries@),
            i <= entries@.len(),
            fetched_position(list) == i + fetched_position(list.skip(i as int)),
        decreases entries@.len() - i,
    {
        assert(list[i as int] == entries@[i as int]@);
        let name = entries[i].name.as_str();
        if entries[i].is_file && text::has_prefix(name, "input.") && !text::has_suffix(
            name,
            ".part",
        ) {
            return i;
        }
        assert(list.skip(i as int).skip(1) =~= list.skip(i + 1));
        i += 1;
    }
    i
}

/// How far a job has come: what was asked last.
#[derive(Clone, Copy, PartialEq, Eq, Structural, Debug)]
pub enum Stage {
    /// The free space for what is fetched is being checked.
    CacheSpace,
    /// The free space of the library is being checked.
    LibrarySpace,
    /// The published file is being looked for.
    Look,
    /// The folder for the source is being made.
    Folder,
    /// The source is being fetched.
    Fetch,
    /// The fetched file is being looked for.
    List,
    /// It is being measured.
    Measure,
    /// The right to convert is being waited for.
    Acquire,
    /// The source is being described.
    Probe,
    /// The track is being converted.
    Convert,
    /// What a failed conversion left is being removed.
    Discard,
    /// The track is being published.
    Publish,
    /// What was fetched is being removed.
    Clean,
    /// The job is over.
    Ended,
}

/// What a job asks for.
#[derive(PartialEq, Eq, Debug)]
pub enum Ask {
    CheckSpace { path: String, bytes: u64 },
    IsFile { path: String },
    MakeFolder { path: String },
    Fetch { arguments: Vec<String> },
    List { path: String },
    Measure { path: String },
    Acquire,
    Describe { arguments: Vec<String> },
    Convert { arguments: Vec<String> },
    Remove { path: String },
    Rename { from: String, to: String },
    RemoveFolder { path: String },
    Complete,
    GiveUp { message: String },
}

/// The view of an [`Ask`].
#[verifier::ext_equal]
pub enum AskView {
    CheckSpace { path: Seq<char>, bytes: u64 },
    IsFile { path: Seq<char> },
    MakeFolder { path: Seq<char> },
    Fetch { arguments: Seq<Seq<char>> },
    List { path: Seq<char> },
    Measure { path: Seq<char> },
    Acquire,
    Describe { arguments: Seq<Seq<char>> },
    Convert { arguments: Seq<Seq<char>> },
    Remove { path: Seq<char> },
    Rename { from: Seq<char>, to: Seq<char> },
    RemoveFolder { path: Seq<char> },
    Complete,
    GiveUp { message: Seq<char> },
}

impl View for Ask {
    type V = AskView;

    open spec fn view(&self) -> AskView {
        match *self {
            Ask::CheckSpace { path, bytes } => AskView::CheckSpace { path: path@, bytes },
            Ask::IsFile { path } => AskView::IsFile { path: path@ },
            Ask::MakeFolder { path } => AskView::MakeFolder { path: path@ },
            Ask::Fetch { arguments } => AskView::Fetch { arguments: text::views(arguments@) },
            Ask::List { path } => AskView::List { path: path@ },
            Ask::Measure { path } => AskView::Measure { path: path@ },
            Ask::Acquire => AskView::Acquire,
            Ask::Describe { arguments } => AskView::Describe { arguments: text::views(arguments@) },
            Ask::Convert { arguments } => AskView::Convert { arguments: text::views(arguments@) },
            Ask::Remove { path } => AskView::Remove { path: path@ },
            Ask::Rename { from, to } => AskView::Rename { from: from@, to: to@ },
            Ask::RemoveFolder { path } => AskView::RemoveFolder { path: path@ },
            Ask::Complete => AskView::Complete,
            Ask::GiveUp { message } => AskView::GiveUp { message: message@ },
        }
    }
}

/// The answer to what was asked.
#[derive(PartialEq, Eq, Debug)]
pub enum Reply {
    Done,
    Failed(String),
    Yes,
    No,
    Entries(Vec<FolderEntry>),
    Size(u64),
}

/// The view of a [`Reply`].
pub enum ReplyView {
    Done,
    Failed(Seq<char>),
    Yes,
    No,
    Entries(Seq<FolderEntryView>),
    Size(u64),
}

impl View for Reply {
    type V = ReplyView;

    open spec fn view(&self) -> ReplyView {
        match *self {
            Reply::Done => ReplyView::Done,
            Reply::Failed(message) => ReplyView::Failed(message@),
            Reply::Yes => ReplyView::Yes,
            Reply::No => ReplyView::No,
            Reply::Entries(entries) => ReplyView::Entries(text::views(entries@)),
            Reply::Size(bytes) => ReplyView::Size(bytes),
        }
    }
}

/// Whether a reply answers what is asked at a stage. The right to convert is refused to a job that
/// was cancelled while it waited.
pub open spec fn answers(stage: Stage, reply: ReplyView) -> bool {
    match stage {
        Stage::Look | Stage::Acquire | Stage::Probe => reply is Yes || reply is No,
        Stage::List => reply is Entries || reply is Failed,
        Stage::Measure => reply is Size || reply is Failed,
        Stage::Ended => false,
        _ => reply is Done || reply is Failed,
    }
}

/// A source that was fetched: where it came from and where it lies.
pub struct Source {
    pub url: String,
    pub path: String,
}

/// The view of a [`Source`].
pub struct SourceView {
    pub url: Seq<char>,
    pub path: Seq<char>,
}

impl View for Source {
    type V = SourceView;

    open spec fn view(&self) -> SourceView {
        SourceView { url: self.url@, path: self.path@ }
    }
}

/// The position of the source for `url`, or the number of sources.
pub open spec fn source_position(sources: Seq<SourceView>, url: Seq<char>) -> int
    decreases sources.len(),
{
    if sources.len() == 0 || sources[0].url == url {
        0
    } else {
        1 + source_position(sources.skip(1), url)
    }
}

/// A job under way.
pub struct Job {
    pub request: DownloadRequest,
    pub library: String,
    pub cache: String,
    pub bitrate_kbps: u16,
    /// How many tracks are done.
    pub current: usize,
    pub sources: Vec<Source>,
    pub tracks: Vec<TrackDraft>,
    /// Where the source of the track at hand lies.
    pub input: String,
    pub failure: String,
    pub stage: Stage,
}

/// The view of a [`Job`].
#[verifier::ext_equal]
pub struct JobView {
    pub request: DownloadRequestView,
    pub library: Seq<char>,
    pub cache: Seq<char>,
    pub bitrate_kbps: u16,
    pub current: int,
    pub sources: Seq<SourceView>,
    pub tracks: Seq<TrackDraftView>,
    pub input: Seq<char>,
    pub failure: Seq<char>,
    pub stage: Stage,
}

impl View for Job {
    type V = JobView;

    open spec fn view(&self) -> JobView {
        JobView {
            request: self.request@,
            library: self.library@,
            cache: self.cache@,
            bitrate_kbps: self.bitrate_kbps,
            current: self.current as int,
            sources: text::views(self.sources@),
            tracks: text::views(self.tracks@),
            input: self.input@,
            failure: self.failure@,
            stage: self.stage,
        }
    }
}

/// Whether the source of the track at hand is not there yet at a stage.
pub open spec fn before_source(stage: Stage) -> bool {
    match stage {
        Stage::CacheSpace
        | Stage::LibrarySpace
        | Stage::Look
        | Stage::Folder
        | Stage::Fetch
        | Stage::List
        | Stage::Measure => true,
        _ => false,
    }
}

/// What a step of a job leads to: what to report, and what is asked next.
pub struct Task {
    pub event: Option<DownloadEvent>,
    pub ask: Ask,
}

/// What an optional event holds.
pub open spec fn shown_event(event: Option<DownloadEvent>) -> Option<DownloadEventView> {
    match event {
        Some(inner) => Some(inner@),
        None => None,
    }
}

impl JobView {
    /// Whether the job is at one of its tracks, or done with them all.
    pub open spec fn well_formed(self) -> bool {
        &&& 0 <= self.current <= self.request.items.len()
        &&& self.stage != Stage::Clean && self.stage != Stage::Ended ==> self.current
            < self.request.items.len()
        &&& self.stage == Stage::Clean ==> self.current == self.request.items.len()
        &&& self.sources.len() <= self.current + 1
        &&& before_source(self.stage) ==> self.sources.len() <= self.current
        &&& self.tracks.len() == self.current
        &&& forall|i: int|
            0 <= i < self.current ==> #[trigger] self.tracks[i] == draft_of(
                self.request.items[i],
                track_path(self.library, self.request.items[i]),
            )
    }

    /// The track at hand.
    pub open spec fn item(self) -> SearchItemView {
        self.request.items[self.current]
    }

    /// The folder for the source of the track at hand. Each further source gets a folder of its
    /// own inside the first one.
    pub open spec fn source_folder(self) -> Seq<char> {
        let folder = job_folder(self.cache, self.request.job_id);
        if self.sources.len() == 0 {
            folder
        } else {
            paths::joined(folder, text::decimal_text(self.sources.len() + 1))
        }
    }

    /// The same job at another stage.
    pub open spec fn at(self, stage: Stage) -> JobView {
        JobView { stage, ..self }
    }

    /// The end without success.
    pub open spec fn given_up(self, message: Seq<char>) -> (
        JobView,
        Option<DownloadEventView>,
        AskView,
    ) {
        (self.at(Stage::Ended), None, AskView::GiveUp { message })
    }

    /// The end with every track published.
    pub open spec fn completed(self) -> (JobView, Option<DownloadEventView>, AskView) {
        (
            self.at(Stage::Ended),
            Some(
                DownloadEventView::Completed {
                    job_id: self.request.job_id,
                    tracks: self.tracks,
                    album: self.request.album,
                },
            ),
            AskView::Complete,
        )
    }

    /// What begins the track at hand; after the last one what was fetched is removed.
    pub open spec fn begun(self) -> (JobView, Option<DownloadEventView>, AskView) {
        if self.current < self.request.items.len() {
            (
                self.at(Stage::CacheSpace),
                None,
                AskView::CheckSpace { path: self.cache, bytes: MIN_DOWNLOAD_FREE_BYTES },
            )
        } else if self.sources.len() > 0 {
            (
                self.at(Stage::Clean),
                None,
                AskView::RemoveFolder { path: job_folder(self.cache, self.request.job_id) },
            )
        } else {
            self.completed()
        }
    }

    /// What follows once the track at hand is published.
    pub open spec fn advanced(self) -> (JobView, Option<DownloadEventView>, AskView) {
        (JobView {
            current: self.current + 1,
            tracks: self.tracks.push(
                draft_of(self.item(), track_path(self.library, self.item())),
            ),
            ..self
        }).begun()
    }

    /// What converts the track at hand.
    pub open spec fn converting(self, copy: bool, event: Option<DownloadEventView>) -> (
        JobView,
        Option<DownloadEventView>,
        AskView,
    ) {
        (
            self.at(Stage::Convert),
            event,
            AskView::Convert {
                arguments: conversion_arguments(
                    self.input,
                    self.item(),
                    self.request.items.len(),
                    copy,
                    self.bitrate_kbps,
                    part_path(self.library, self.item()),
                ),
            },
        )
    }

    /// What follows a reply: the job after it, what is reported and what is asked next.
    pub open spec fn next(self, reply: ReplyView) -> (
        JobView,
        Option<DownloadEventView>,
        AskView,
    ) {
        let item = self.item();
        match self.stage {
            Stage::CacheSpace => match reply {
                ReplyView::Failed(cause) => self.given_up(cause),
                _ => (
                    self.at(Stage::LibrarySpace),
                    None,
                    AskView::CheckSpace { path: self.library, bytes: MIN_DOWNLOAD_FREE_BYTES },
                ),
            },
            Stage::LibrarySpace => match reply {
                ReplyView::Failed(cause) => self.given_up(cause),
                _ => (
                    self.at(Stage::Look),
                    None,
                    AskView::IsFile { path: track_path(self.library, item) },
                ),
            },
            Stage::Look => match reply {
                ReplyView::Yes => self.advanced(),
                _ => {
                    let at = source_position(self.sources, item.url);
                    if at < self.sources.len() {
                        (
                            JobView {
                                input: self.sources[at].path,
                                stage: Stage::Acquire,
                                ..self
                            },
                            None,
                            AskView::Acquire,
                        )
                    } else {
                        (
                            self.at(Stage::Folder),
                            None,
                            AskView::MakeFolder { path: self.source_folder() },
                        )
                    }
                },
            },
            Stage::Folder => match reply {
                ReplyView::Failed(cause) => self.given_up(cause),
                _ => (
                    self.at(Stage::Fetch),
                    Some(DownloadEventView::Downloading { job_id: self.request.job_id }),
                    AskView::Fetch { arguments: fetch_arguments(self.source_folder(), item.url) },
                ),
            },
            Stage::Fetch => match reply {
                ReplyView::Failed(cause) => self.given_up(text::caused("download falhou"@, cause)),
                _ => (self.at(Stage::List), None, AskView::List { path: self.source_folder() }),
            },
            Stage::List => match reply {
                ReplyView::Entries(entries) => {
                    let at = fetched_position(entries);
                    if at < entries.len() {
                        let path = paths::joined(self.source_folder(), entries[at].name);
                        (
                            JobView { input: path, stage: Stage::Measure, ..self },
                            None,
                            AskView::Measure { path },
                        )
                    } else {
                        self.given_up("yt-dlp terminou sem produzir um arquivo"@)
                    }
                },
                ReplyView::Failed(cause) => self.given_up(cause),
                _ => self.given_up(Seq::empty()),
            },
            Stage::Measure => match reply {
                ReplyView::Size(bytes) => if bytes > MAX_INPUT_BYTES {
                    self.given_up("arquivo de entrada excedeu o limite de 1 GiB"@)
                } else {
                    (
                        JobView {
                            sources: self.sources.push(
                                SourceView { url: item.url, path: self.input },
                            ),
                            stage: Stage::Acquire,
                            ..self
                        },
                        None,
                        AskView::Acquire,
                    )
                },
                ReplyView::Failed(cause) => self.given_up(cause),
                _ => self.given_up(Seq::empty()),
            },
            Stage::Acquire => match reply {
                ReplyView::Yes => {
                    let event = Some(
                        DownloadEventView::Converting {
                            job_id: self.request.job_id,
                            current: (self.current + 1) as usize,
                            total: self.request.items.len() as usize,
                        },
                    );
                    if item.segment is Some {
                        self.converting(false, event)
                    } else {
                        (
                            self.at(Stage::Probe),
                            event,
                            AskView::Describe { arguments: probe_arguments(self.input) },
                        )
                    }
                },
                _ => self.given_up("download cancelado"@),
            },
            Stage::Probe => self.converting(reply is Yes, None),
            Stage::Convert => match reply {
                ReplyView::Failed(cause) => (
                    JobView {
                        failure: text::caused("conversao para Opus falhou"@, cause),
                        stage: Stage::Discard,
                        ..self
                    },
                    None,
                    AskView::Remove { path: part_path(self.library, item) },
                ),
                _ => (
                    self.at(Stage::Publish),
                    None,
                    AskView::Rename {
                        from: part_path(self.library, item),
                        to: track_path(self.library, item),
                    },
                ),
            },
            Stage::Discard => self.given_up(self.failure),
            Stage::Publish => match reply {
                ReplyView::Failed(cause) => self.given_up(
                    text::caused("falha ao publicar faixa"@, cause),
                ),
                _ => self.advanced(),
            },
            Stage::Clean => self.completed(),
            Stage::Ended => self.given_up(Seq::empty()),
        }
    }
}

fn opus_name(item: &SearchItem, prefix: &str, ending: &str) -> (result: String)
    ensures
        result@ == prefix@ + item@.provider + "-"@ + download::safe_name(item@.source_id) + ending@,
{
    let mut name = prefix.to_owned();
    name.push_str(item.provider.as_str());
    name.push_str("-");
    name.push_str(download::safe_component(item.source_id.as_str()).as_str());
    name.push_str(ending);
    name
}

impl Job {
    /// A job for `request`, and what it asks first.
    pub fn start(request: DownloadRequest, library: &str, cache: &str, bitrate_kbps: u16) -> (result:
        (Self, Task))
        ensures
            result.0@.well_formed(),
            result.0@.request == request@,
            result.0@.library == library@,
            result.0@.cache == cache@,
            result.0@.bitrate_kbps == bitrate_kbps,
            result.0@.current == 0,
            result.0@.sources.len() == 0,
            (result.0@, shown_event(result.1.event), result.1.ask@) == result.0@.begun(),
    {
        let mut job = Job {
            request,
            library: library.to_owned(),
            cache: cache.to_owned(),
            bitrate_kbps,
            current: 0,
            sources: Vec::new(),
            tracks: Vec::new(),
            input: String::new(),
            failure: String::new(),
            stage: Stage::Clean,
        };
        let task = job.begin();
        (job, task)
    }

    fn track_path(&self) -> (result: String)
        requires
            self@.current < self@.request.items.len(),
        ensures
            result@ == track_path(self@.library, self@.item()),
    {
        proof {
            reveal_strlit("");
            assert(forall|s: Seq<char>| #[trigger] (""@ + s) =~= s);
        }
        let name = opus_name(&self.request.items[self.current], "", ".opus");
        assert(name@ =~= self@.item().provider + "-"@ + download::safe_name(
            self@.item().source_id,
        ) + ".opus"@);
        paths::join(self.library.as_str(), name.as_str())
    }

    fn part_path(&self) -> (result: String)
        requires
            self@.current < self@.request.items.len(),
        ensures
            result@ == part_path(self@.library, self@.item()),
    {
        let name = opus_name(&self.request.items[self.current], ".", ".opus.part");
        paths::join(self.library.as_str(), name.as_str())
    }

    fn job_folder(&self) -> (result: String)
        ensures
            result@ == job_folder(self@.cache, self@.request.job_id),
    {
        paths::join(
            paths::join(self.cache.as_str(), "downloads").as_str(),
            download::safe_component(self.request.job_id.as_str()).as_str(),
        )
    }

    fn source_folder(&self) -> (result: String)
        requires
            self.sources@.len() < usize::MAX,
        ensures
            result@ == self@.source_folder(),
    {
        let folder = self.job_folder();
        if self.sources.len() == 0 {
            folder
        } else {
            let number = text::decimal((self.sources.len() + 1) as u64);
            paths::join(folder.as_str(), number.as_str())
        }
    }

    fn find_source(&self, url: &str) -> (result: usize)
        ensures
            result == source_position(self@.sources, url@),
            result <= self.sources@.len(),
    {
        let ghost list = text::views(self.sources@);
        let mut i: usize = 0;
        assert(list.skip(0) =~= list);
        while i < self.sources.len()
            invariant
                list == text::views(self.sources@),
                i <= self.sources@.len(),
                source_position(list, url@) == i + source_position(list.skip(i as int), url@),
            decreases self.sources@.len() - i,
        {
            assert(list[i as int] == self.sources@[i as int]@);
            if text::same_text(self.sources[i].url.as_str(), url) {
                return i;
            }
            assert(list.skip(i as int).skip(1) =~= list.skip(i + 1));
            i += 1;
        }
        i
    }

    fn give_up(&mut self, message: String) -> (result: Task)
        ensures
            (final(self)@, shown_event(result.event), result.ask@) == old(self)@.given_up(message@),
    {
        self.stage = Stage::Ended;
        Task { event: None, ask: Ask::GiveUp { message } }
    }

    fn complete(&mut self) -> (result: Task)
        ensures
            (final(self)@, shown_event(result.event), result.ask@) == old(self)@.completed(),
    {
        self.stage = Stage::Ended;
        Task {
            event: Some(
                DownloadEvent::Completed {
                    job_id: self.request.job_id.clone(),
                    tracks: copied_drafts(&self.tracks),
                    album: model::copied_album(&self.request.album),
                },
            ),
            ask: Ask::Complete,
        }
    }

    fn begin(&mut self) -> (result: Task)
        requires
            old(self)@.current <= old(self)@.request.items.len(),
        ensures
            (final(self)@, shown_event(result.event), result.ask@) == old(self)@.begun(),
    {
        if self.current < self.request.items.len() {
            self.stage = Stage::CacheSpace;
            Task {
                event: None,
                ask: Ask::CheckSpace { path: self.cache.clone(), bytes: MIN_DOWNLOAD_FREE_BYTES },
            }
        } else if self.sources.len() > 0 {
            self.stage = Stage::Clean;
            Task { event: None, ask: Ask::RemoveFolder { path: self.job_folder() } }
        } else {
            self.complete()
        }
    }

    fn advance(&mut self) -> (result: Task)
        requires
            old(self)@.current < old(self)@.request.items.len(),
        ensures
            (final(self)@, shown_event(result.event), result.ask@) == old(self)@.advanced(),
    {
        let ghost before = *self;
        let total: usize = self.request.items.len();
        assert(self.current < total);
        let draft = draft_for(&self.request.items[self.current], self.track_path());
        self.tracks.push(draft);
        self.current += 1;
        assert(text::views(self.tracks@) =~= text::views(before.tracks@).push(draft@));
        self.begin()
    }

    fn convert(&mut self, copy: bool, event: Option<DownloadEvent>) -> (result: Task)
        requires
            old(self)@.current < old(self)@.request.items.len(),
        ensures
            (final(self)@, shown_event(result.event), result.ask@) == old(self)@.converting(
                copy,
                shown_event(event),
            ),
    {
        let arguments = conversion_command(
            self.input.as_str(),
            &self.request.items[self.current],
            self.request.items.len(),
            copy,
            self.bitrate_kbps,
            self.part_path().as_str(),
        );
        self.stage = Stage::Convert;
        Task { event, ask: Ask::Convert { arguments } }
    }

    /// Takes the answer to what was asked last, and asks for the next step.
    #[verifier::rlimit(40)]
    pub fn step(&mut self, reply: Reply) -> (result: Task)
        requires
            old(self)@.well_formed(),
            answers(old(self)@.stage, reply@),
        ensures
            final(self)@.well_formed(),
            (final(self)@, shown_event(result.event), result.ask@) == old(self)@.next(reply@),
    {
        proof {
            lemma_step_keeps(self@, reply@);
        }
        if let Stage::Clean = self.stage {
            return self.complete();
        }
        let total: usize = self.request.items.len();
        assert(self.current < total);
        let ghost list = self.request@.items;
        assert(list[self.current as int] == self.request.items@[self.current as int]@);
        match self.stage {
            Stage::CacheSpace => match reply {
                Reply::Failed(cause) => self.give_up(cause),
                _ => {
                    self.stage = Stage::LibrarySpace;
                    Task {
                        event: None,
                        ask: Ask::CheckSpace {
                            path: self.library.clone(),
                            bytes: MIN_DOWNLOAD_FREE_BYTES,
                        },
                    }
                },
            },
            Stage::LibrarySpace => match reply {
                Reply::Failed(cause) => self.give_up(cause),
                _ => {
                    self.stage = Stage::Look;
                    Task { event: None, ask: Ask::IsFile { path: self.track_path() } }
                },
            },
            Stage::Look => match reply {
                Reply::Yes => self.advance(),
                _ => {
                    let at: usize = self.find_source(
                        self.request.items[self.current].url.as_str(),
                    );
                    if at < self.sources.len() {
                        assert(text::views(self.sources@)[at as int] == self.sources@[at as int]@);
                        self.input = self.sources[at].path.clone();
                        self.stage = Stage::Acquire;
                        Task { event: None, ask: Ask::Acquire }
                    } else {
                        self.stage = Stage::Folder;
                        Task { event: None, ask: Ask::MakeFolder { path: self.source_folder() } }
                    }
                },
            },
            Stage::Folder => match reply {
                Reply::Failed(cause) => self.give_up(cause),
                _ => {
                    self.stage = Stage::Fetch;
                    let arguments = fetch_command(
                        self.source_folder().as_str(),
                        self.request.items[self.current].url.as_str(),
                    );
                    Task {
                        event: Some(
                            DownloadEvent::Downloading { job_id: self.request.job_id.clone() },
                        ),
                        ask: Ask::Fetch { arguments },
                    }
                },
            },
            Stage::Fetch => match reply {
                Reply::Failed(cause) => {
                    let message = text::caused_text("download falhou", cause.as_str());
                    self.give_up(message)
                },
                _ => {
                    self.stage = Stage::List;
                    Task { event: None, ask: Ask::List { path: self.source_folder() } }
                },
            },
            Stage::List => match reply {
                Reply::Entries(entries) => {
                    let at: usize = find_fetched(&entries);
                    if at < entries.len() {
                        assert(text::views(entries@)[at as int] == entries@[at as int]@);
                        let path = paths::join(
                            self.source_folder().as_str(),
                            entries[at].name.as_str(),
                        );
                        self.input = path.clone();
                        self.stage = Stage::Measure;
                        Task { event: None, ask: Ask::Measure { path } }
                    } else {
                        self.give_up("yt-dlp terminou sem produzir um arquivo".to_owned())
                    }
                },
                Reply::Failed(cause) => self.give_up(cause),
                _ => self.give_up(String::new()),
            },
            Stage::Measure => match reply {
                Reply::Size(bytes) => {
                    if bytes > MAX_INPUT_BYTES {
                        self.give_up("arquivo de entrada excedeu o limite de 1 GiB".to_owned())
                    } else {
                        let ghost before = self.sources@;
                        let source = Source {
                            url: self.request.items[self.current].url.clone(),
                            path: self.input.clone(),
                        };
                        self.sources.push(source);
                        assert(text::views(self.sources@) =~= text::views(before).push(source@));
                        self.stage = Stage::Acquire;
                        Task { event: None, ask: Ask::Acquire }
                    }
                },
                Reply::Failed(cause) => self.give_up(cause),
                _ => self.give_up(String::new()),
            },
            Stage::Acquire => match reply {
                Reply::Yes => {
                    let event = Some(
                        DownloadEvent::Converting {
                            job_id: self.request.job_id.clone(),
                            current: self.current + 1,
                            total: self.request.items.len(),
                        },
                    );
                    if self.request.items[self.current].segment.is_some() {
                        self.convert(false, event)
                    } else {
                        self.stage = Stage::Probe;
                        Task {
                            event,
                            ask: Ask::Describe { arguments: probe_command(self.input.as_str()) },
                        }
                    }
                },
                _ => self.give_up("download cancelado".to_owned()),
            },
            Stage::Probe => {
                let copy = match reply {
                    Reply::Yes => true,
                    _ => false,
                };
                self.convert(copy, None)
            },
            Stage::Convert => match reply {
                Reply::Failed(cause) => {
                    self.failure = text::caused_text("conversao para Opus falhou", cause.as_str());
                    self.stage = Stage::Discard;
                    Task { event: None, ask: Ask::Remove { path: self.part_path() } }
                },
                _ => {
                    self.stage = Stage::Publish;
                    Task {
                        event: None,
                        ask: Ask::Rename { from: self.part_path(), to: self.track_path() },
                    }
                },
            },
            Stage::Discard => {
                let message = self.failure.clone();
                self.give_up(message)
            },
            Stage::Publish => match reply {
                Reply::Failed(cause) => {
                    let message = text::caused_text("falha ao publicar faixa", cause.as_str());
                    self.give_up(message)
                },
                _ => self.advance(),
            },
            Stage::Clean => self.complete(),
            Stage::Ended => self.give_up(String::new()),
        }
    }
}

proof fn lemma_step_keeps(job: JobView, reply: ReplyView)
    requires
        job.well_formed(),
        answers(job.stage, reply),
    ensures
        job.next(reply).0.well_formed(),
{
}

/// Whether no source was fetched twice, and the one at hand is fetched only where it is not there.
pub open spec fn fetched_once(job: JobView) -> bool {
    &&& forall|i: int, j: int|
        0 <= i < j < job.sources.len() ==> (#[trigger] job.sources[i]).url != (
        #[trigger] job.sources[j]).url
    &&& match job.stage {
        Stage::Folder | Stage::Fetch | Stage::List | Stage::Measure => forall|i: int|
            0 <= i < job.sources.len() ==> (#[trigger] job.sources[i]).url != job.item().url,
        _ => true,
    }
}

proof fn lemma_source_position(sources: Seq<SourceView>, url: Seq<char>)
    requires
        source_position(sources, url) >= sources.len(),
    ensures
        forall|i: int| 0 <= i < sources.len() ==> (#[trigger] sources[i]).url != url,
    decreases sources.len(),
{
    if sources.len() > 0 {
        lemma_source_position(sources.skip(1), url);
        assert forall|i: int| 0 <= i < sources.len() implies (#[trigger] sources[i]).url != url by {
            if i > 0 {
                assert(sources[i] == sources.skip(1)[i - 1]);
            }
        }
    }
}

/// A job fetches each source once, whatever the number of tracks that are cut out of it.
pub proof fn lemma_fetched_once(job: JobView, reply: ReplyView)
    requires
        job.well_formed(),
        answers(job.stage, reply),
        fetched_once(job),
    ensures
        fetched_once(job.next(reply).0),
        job.next(reply).2 is Fetch ==> forall|i: int|
            0 <= i < job.sources.len() ==> (#[trigger] job.sources[i]).url != job.item().url,
{
    if job.stage == Stage::Look {
        if source_position(job.sources, job.item().url) >= job.sources.len() {
            lemma_source_position(job.sources, job.item().url);
        }
    }
}

/// A track appears in the library only by renaming the whole result of a conversion that
/// succeeded, and a job is reported as completed only once every one of its tracks is there.
pub proof fn lemma_published_whole(job: JobView, reply: ReplyView)
    requires
        job.well_formed(),
        answers(job.stage, reply),
    ensures
        job.next(reply).2 is Rename ==> job.stage == Stage::Convert && reply is Done,
        job.next(reply).2 is Complete ==> job.next(reply).1 == Some(
            DownloadEventView::Completed {
                job_id: job.request.job_id,
                tracks: Seq::new(
                    job.request.items.len(),
                    |i: int|
                        draft_of(
                            job.request.items[i],
                            track_path(job.library, job.request.items[i]),
                        ),
                ),
                album: job.request.album,
            },
        ),
{
    let after = job.next(reply).0;
    lemma_step_keeps(job, reply);
    if job.next(reply).2 is Complete {
        assert(after.tracks =~= Seq::new(
            job.request.items.len(),
            |i: int|
                draft_of(job.request.items[i], track_path(job.library, job.request.items[i])),
        ));
    }
}

fn copied_drafts(tracks: &Vec<TrackDraft>) -> (result: Vec<TrackDraft>)
    ensures
        text::views(result@) == text::views(tracks@),
{
    let mut result: Vec<TrackDraft> = Vec::new();
    let mut i: usize = 0;
    while i < tracks.len()
        invariant
            i <= tracks@.len(),
            result@.len() == i,
            forall|k: int| 0 <= k < i ==> (#[trigger] result@[k])@ == tracks@[k]@,
        decreases tracks@.len() - i,
    {
        result.push(tracks[i].clone());
        i += 1;
    }
    assert(text::views(result@) =~= text::views(tracks@));
    result
}

/// The link that is fetched stands alone behind the end of the options, so that it is never taken
/// for one, and no other argument depends on it.
pub proof fn lemma_url_is_last(folder: Seq<char>, url: Seq<char>, other: Seq<char>)
    ensures
        fetch_arguments(folder, url).last() == url,
        fetch_arguments(folder, url)[23] == "--"@,
        fetch_arguments(folder, url).len() == 25,
        fetch_arguments(folder, url).drop_last() == fetch_arguments(folder, other).drop_last(),
{
    assert(fetch_arguments(folder, url).drop_last() =~= fetch_arguments(
        folder,
        other,
    ).drop_last());
}

/// A job removes only the unfinished file of its own track, and what was fetched only once every
/// track is published; a job that fails leaves what was fetched for the next try.
pub proof fn lemma_removes_only_its_own(job: JobView, reply: ReplyView)
    requires
        job.well_formed(),
        answers(job.stage, reply),
    ensures
        job.next(reply).2 matches AskView::Remove { path } ==> path == part_path(
            job.library,
            job.item(),
        ) && job.stage == Stage::Convert && reply is Failed,
        job.next(reply).2 matches AskView::RemoveFolder { path } ==> path == job_folder(
            job.cache,
            job.request.job_id,
        ) && job.next(reply).0.tracks.len() == job.request.items.len(),
        job.next(reply).2 is GiveUp ==> job.next(reply).0.stage == Stage::Ended,
{
    lemma_step_keeps(job, reply);
}

/// Before anything is fetched for a track, the cache and the library were found to have room.
pub proof fn lemma_space_first(job: JobView, reply: ReplyView)
    requires
        job.well_formed(),
        answers(job.stage, reply),
    ensures
        job.next(reply).0.stage == Stage::Fetch ==> job.stage == Stage::Folder && reply is Done,
        job.next(reply).0.stage == Stage::Folder ==> job.stage == Stage::Look,
        job.next(reply).0.stage == Stage::Look ==> job.stage == Stage::LibrarySpace && reply is Done,
        job.next(reply).0.stage == Stage::LibrarySpace ==> job.stage == Stage::CacheSpace && reply is Done
            && job.next(reply).2 == (AskView::CheckSpace {
            path: job.library,
            bytes: MIN_DOWNLOAD_FREE_BYTES,
        }),
        job.next(reply).0.stage == Stage::CacheSpace ==> job.next(reply).2 == (
        AskView::CheckSpace { path: job.cache, bytes: MIN_DOWNLOAD_FREE_BYTES }),
{
}

/// A part of a recording is always encoded anew, never cut out of the stream as it is.
pub proof fn lemma_parts_encoded(job: JobView, reply: ReplyView)
    requires
        job.well_formed(),
        job.stage == Stage::Acquire,
        reply is Yes,
        job.item().segment is Some,
    ensures
        job.next(reply).2 == (AskView::Convert {
            arguments: conversion_arguments(
                job.input,
                job.item(),
                job.request.items.len(),
                false,
                job.bitrate_kbps,
                part_path(job.library, job.item()),
            ),
        }),
{
}

/// How many steps the track at hand may still take from a stage on.
pub open spec fn steps_at(stage: Stage) -> int {
    match stage {
        Stage::CacheSpace => 12,
        Stage::LibrarySpace => 11,
        Stage::Look => 10,
        Stage::Folder => 9,
        Stage::Fetch => 8,
        Stage::List => 7,
        Stage::Measure => 6,
        Stage::Acquire => 5,
        Stage::Probe => 4,
        Stage::Convert => 3,
        Stage::Publish => 2,
        Stage::Discard | Stage::Clean => 1,
        Stage::Ended => 0,
    }
}

/// The most steps that a job may still take.
pub open spec fn steps_left(job: JobView) -> int {
    if job.stage == Stage::Ended {
        0
    } else {
        12 * (job.request.items.len() - job.current) + steps_at(job.stage)
    }
}

/// Every job comes to an end, whatever it is answered: each step leaves fewer of them, and the last
/// one completes the job or gives it up.
pub proof fn lemma_job_ends(job: JobView, reply: ReplyView)
    requires
        job.well_formed(),
        answers(job.stage, reply),
    ensures
        0 <= steps_left(job.next(reply).0) < steps_left(job),
        steps_left(job.next(reply).0) == 0 <==> job.next(reply).2 is Complete || job.next(reply).2
            is GiveUp,
{
}

/// Every track that a completed job reports is the item that was asked for, field by field and in
/// order: its title, artist, album, duration and source, in its own file of the library. The album
/// that is reported is the one that was asked for.
pub proof fn lemma_completed_as_asked(job: JobView, reply: ReplyView)
    requires
        job.well_formed(),
        answers(job.stage, reply),
        job.next(reply).2 is Complete,
    ensures
        job.next(reply).1 is Some,
        job.next(reply).1->0 is Completed,
        ({
            let event = job.next(reply).1->0;
            let (items, tracks) = (job.request.items, event->Completed_tracks);
            &&& event->Completed_job_id == job.request.job_id
            &&& event->Completed_album == job.request.album
            &&& tracks.len() == items.len()
            &&& forall|k: int|
                0 <= k < tracks.len() ==> {
                    &&& (#[trigger] tracks[k]).title == items[k].title
                    &&& tracks[k].artist == items[k].artist
                    &&& tracks[k].album == items[k].album
                    &&& tracks[k].duration_seconds == items[k].duration_seconds
                    &&& tracks[k].provider == Some(items[k].provider)
                    &&& tracks[k].source_id == Some(items[k].source_id)
                    &&& tracks[k].path == track_path(job.library, items[k])
                    &&& !tracks[k].imported
                }
        }),
{
    lemma_published_whole(job, reply);
}

/// A job begins with nothing done: with its first track, or, where it has none, at its end.
pub proof fn lemma_job_begins(job: JobView)
    requires
        job.current == 0,
        job.sources.len() == 0,
    ensures
        job.request.items.len() > 0 ==> job.begun().0 == (JobView { stage: Stage::CacheSpace, ..job })
            && job.begun().1 is None && job.begun().2 == (AskView::CheckSpace {
            path: job.cache,
            bytes: MIN_DOWNLOAD_FREE_BYTES,
        }),
        job.request.items.len() == 0 ==> job.begun().2 is Complete,
{
}

/// What a job was asked for never changes under way, and a track that is done stays as it is.
pub proof fn lemma_request_kept(job: JobView, reply: ReplyView)
    requires
        job.well_formed(),
        answers(job.stage, reply),
    ensures
        job.next(reply).0.request == job.request,
        job.next(reply).0.library == job.library,
        job.next(reply).0.cache == job.cache,
        job.next(reply).0.bitrate_kbps == job.bitrate_kbps,
        job.current <= job.next(reply).0.current <= job.current + 1,
        job.next(reply).0.tracks.take(job.current) == job.tracks,
        job.next(reply).0.current == job.current + 1 <==> (job.stage == Stage::Look && reply is Yes)
            || (job.stage == Stage::Publish && reply is Done),
{
    assert(job.next(reply).0.tracks.take(job.current) =~= job.tracks);
}

/// A track whose file is in the library is neither fetched nor converted again: the job goes on to
/// the next one.
pub proof fn lemma_present_track_skipped(job: JobView, reply: ReplyView)
    requires
        job.well_formed(),
        job.stage == Stage::LibrarySpace,
        reply is Done,
    ensures
        job.next(reply).2 == (AskView::IsFile { path: track_path(job.library, job.item()) }),
        job.next(reply).0.stage == Stage::Look,
        ({
            let looked = job.next(reply).0.next(ReplyView::Yes);
            &&& looked.0.current == job.current + 1
            &&& looked.2 is CheckSpace || looked.2 is RemoveFolder || looked.2 is Complete
        }),
{
}

/// A track that is missing is fetched from its own link into the folder that was made for it, and
/// the file that is found there is the one that is converted; a source that was fetched before is
/// taken again instead.
pub proof fn lemma_missing_track_fetched(job: JobView, reply: ReplyView)
    requires
        job.well_formed(),
        answers(job.stage, reply),
    ensures
        job.stage == Stage::Look && reply is No ==> {
            let known = exists|i: int|
                0 <= i < job.sources.len() && (#[trigger] job.sources[i]).url == job.item().url;
            &&& !known ==> job.next(reply).2 == (AskView::MakeFolder { path: job.source_folder() })
                && job.next(reply).0.stage == Stage::Folder
            &&& known ==> job.next(reply).2 is Acquire && exists|i: int|
                0 <= i < job.sources.len() && (#[trigger] job.sources[i]).url == job.item().url
                    && job.next(reply).0.input == job.sources[i].path
        },
        job.stage == Stage::Folder && reply is Done ==> job.next(reply).2 is Fetch && job.next(
            reply,
        ).2->Fetch_arguments.last() == job.item().url && job.next(reply).2->Fetch_arguments[22]
            == paths::joined(job.source_folder(), "input.%(ext)s"@) && job.next(reply).1 == Some(
            DownloadEventView::Downloading { job_id: job.request.job_id },
        ),
        job.stage == Stage::Fetch && reply is Done ==> job.next(reply).2 == (AskView::List {
            path: job.source_folder(),
        }),
        job.stage == Stage::List ==> (reply matches ReplyView::Entries(entries) ==> {
            let found = exists|i: int| 0 <= i < entries.len() && fetched_entry(#[trigger] entries[i]);
            &&& !found ==> job.next(reply).2 is GiveUp
            &&& found ==> exists|i: int|
                0 <= i < entries.len() && fetched_entry(#[trigger] entries[i]) && job.next(reply).2
                    == (AskView::Measure {
                    path: paths::joined(job.source_folder(), entries[i].name),
                }) && job.next(reply).0.input == paths::joined(job.source_folder(), entries[i].name)
        }),
        job.stage == Stage::Measure ==> (reply matches ReplyView::Size(bytes) ==> {
            &&& bytes > 1073741824 ==> job.next(reply).2 is GiveUp
            &&& bytes <= 1073741824 ==> job.next(reply).2 is Acquire && job.next(reply).0.input
                == job.input && job.next(reply).0.sources.last() == (SourceView {
                url: job.item().url,
                path: job.input,
            })
        }),
{
    if job.stage == Stage::Look && reply is No {
        let url = job.item().url;
        let at = source_position(job.sources, url);
        lemma_source_found(job.sources, url);
        if at < job.sources.len() {
            assert(job.sources[at].url == url);
        } else {
            lemma_source_position(job.sources, url);
        }
    }
    if job.stage == Stage::List {
        if let ReplyView::Entries(entries) = reply {
            lemma_fetched_found(entries);
            let at = fetched_position(entries);
            if at < entries.len() {
                assert(fetched_entry(entries[at]));
            }
        }
    }
}

proof fn lemma_source_found(sources: Seq<SourceView>, url: Seq<char>)
    ensures
        0 <= source_position(sources, url) <= sources.len(),
        source_position(sources, url) < sources.len() ==> sources[source_position(
            sources,
            url,
        )].url == url,
    decreases sources.len(),
{
    if sources.len() > 0 && sources[0].url != url {
        lemma_source_found(sources.skip(1), url);
    }
}

proof fn lemma_fetched_found(entries: Seq<FolderEntryView>)
    ensures
        0 <= fetched_position(entries) <= entries.len(),
        fetched_position(entries) < entries.len() ==> fetched_entry(
            entries[fetched_position(entries)],
        ),
        fetched_position(entries) == entries.len() ==> forall|i: int|
            0 <= i < entries.len() ==> !fetched_entry(#[trigger] entries[i]),
    decreases entries.len(),
{
    if entries.len() > 0 && !fetched_entry(entries[0]) {
        let rest = entries.skip(1);
        lemma_fetched_found(rest);
        if fetched_position(entries) == entries.len() {
            assert forall|i: int| 0 <= i < entries.len() implies !fetched_entry(
                #[trigger] entries[i],
            ) by {
                if i > 0 {
                    assert(rest[i - 1] == entries[i]);
                }
            }
        }
    }
}

/// The fetched file is a file whose name begins with `input.` and does not end with `.part`.
pub proof fn lemma_fetched_names(rest: Seq<char>, entry: FolderEntryView)
    ensures
        fetched_entry(entry) ==> entry.is_file && text::begins_with(entry.name, "input."@)
            && !text::ends_with(entry.name, ".part"@),
        entry.is_file && entry.name == "input."@ + rest && !text::ends_with(entry.name, ".part"@)
            ==> fetched_entry(entry),
{
    text::lemma_occurs_between(Seq::empty(), "input."@, rest);
}

/// A track is converted from what was fetched for it into its own unfinished file, with its own
/// title and artist, and only that file becomes the track.
pub proof fn lemma_converted_and_published(job: JobView, reply: ReplyView)
    requires
        job.well_formed(),
        answers(job.stage, reply),
    ensures
        job.next(reply).2 matches AskView::Convert { arguments } ==> {
            let copied = job.stage == Stage::Probe && reply is Yes;
            &&& arguments == conversion_arguments(
                job.input,
                job.item(),
                job.request.items.len(),
                copied,
                job.bitrate_kbps,
                part_path(job.library, job.item()),
            )
            &&& copied ==> job.stage == Stage::Probe
        },
        job.stage == Stage::Acquire && reply is Yes ==> job.next(reply).1 == Some(
            DownloadEventView::Converting {
                job_id: job.request.job_id,
                current: (job.current + 1) as usize,
                total: job.request.items.len() as usize,
            },
        ) && (job.item().segment is None ==> job.next(reply).2 == (AskView::Describe {
            arguments: seq!["-hide_banner"@, "-nostdin"@, "-i"@, job.input],
        })),
        job.stage == Stage::Acquire && reply is No ==> job.next(reply).2 is GiveUp,
        job.stage == Stage::Probe ==> job.next(reply).2 is Convert,
        job.stage == Stage::Convert && reply is Done ==> job.next(reply).2 == (AskView::Rename {
            from: part_path(job.library, job.item()),
            to: track_path(job.library, job.item()),
        }),
{
}

/// A failure is never taken for success: whatever fails, the job reports no track for it, and what
/// it gives up with tells the cause.
pub proof fn lemma_failures_told(job: JobView, cause: Seq<char>)
    requires
        job.well_formed(),
        answers(job.stage, ReplyView::Failed(cause)),
        job.stage != Stage::Clean,
        job.stage != Stage::Discard,
    ensures
        ({
            let after = job.next(ReplyView::Failed(cause));
            let told = if job.stage == Stage::Convert {
                after.0.failure
            } else {
                after.2->GiveUp_message
            };
            &&& after.0.current == job.current
            &&& after.0.tracks == job.tracks
            &&& after.1 is None
            &&& job.stage == Stage::Convert ==> after.2 is Remove && after.0.stage == Stage::Discard
            &&& job.stage != Stage::Convert ==> after.2 is GiveUp && after.0.stage == Stage::Ended
            &&& text::ends_with(told, cause)
        }),
        ({
            let ended = JobView { stage: Stage::Discard, ..job };
            &&& ended.next(ReplyView::Done).2 == (AskView::GiveUp { message: job.failure })
            &&& ended.next(ReplyView::Failed(cause)).2 == (AskView::GiveUp { message: job.failure })
        }),
{
    text::lemma_caused_holds_both("download falhou"@, cause);
    text::lemma_caused_holds_both("conversao para Opus falhou"@, cause);
    text::lemma_caused_holds_both("falha ao publicar faixa"@, cause);
    text::lemma_occurs_between(Seq::empty(), cause, Seq::empty());
    assert(Seq::<char>::empty() + cause =~= cause);
}

/// A published track is named by its provider and its identifier and ends with `.opus`; while it is
/// being made, its file is another one that does not.
pub proof fn lemma_track_files(library: Seq<char>, item: SearchItemView)
    requires
        library.len() > 0,
        library.last() != '/',
        item.provider.len() > 0,
        item.provider[0] != '/',
    ensures
        track_path(library, item) == library + seq!['/'] + (item.provider + seq!['-']
            + download::safe_name(item.source_id) + ".opus"@),
        part_path(library, item) == library + seq!['/'] + (seq!['.'] + item.provider + seq!['-']
            + download::safe_name(item.source_id) + ".opus"@ + ".part"@),
        part_path(library, item) != track_path(library, item),
{
    reveal_strlit("-");
    reveal_strlit(".");
    reveal_strlit(".opus");
    reveal_strlit(".opus.part");
    reveal_strlit(".part");
    let safe = download::safe_name(item.source_id);
    let name = item.provider + "-"@ + safe + ".opus"@;
    let hidden = "."@ + item.provider + "-"@ + safe + ".opus.part"@;
    assert(name[0] == item.provider[0]);
    assert(hidden[0] == '.');
    paths::lemma_joined(library, name);
    paths::lemma_joined(library, hidden);
    assert("-"@ =~= seq!['-']);
    assert("."@ =~= seq!['.']);
    assert(".opus.part"@ =~= ".opus"@ + ".part"@);
    assert(hidden =~= seq!['.'] + item.provider + seq!['-'] + safe + ".opus"@ + ".part"@);
    assert(part_path(library, item).len() != track_path(library, item).len());
}

/// The converter reads what was fetched and writes the unfinished file as Opus; it writes the title,
/// the artist and the album of the track into it, and the place of a part among all of them.
pub proof fn lemma_conversion_tells(
    input: Seq<char>,
    item: SearchItemView,
    total: nat,
    copy: bool,
    bitrate_kbps: u16,
    part: Seq<char>,
)
    ensures
        ({
            let arguments = conversion_arguments(input, item, total, copy, bitrate_kbps, part);
            let tags = tag_arguments(item, total);
            let from = arguments.len() - 3 - tags.len();
            &&& arguments[6] == "-i"@
            &&& arguments[7] == input
            &&& arguments.last() == part
            &&& arguments[arguments.len() - 3] == "-f"@
            &&& arguments[arguments.len() - 2] == "opus"@
            &&& arguments[from] == "-metadata"@
            &&& arguments[from + 1] == "title="@ + item.title
            &&& arguments[from + 2] == "-metadata"@
            &&& arguments[from + 3] == "artist="@ + item.artist
            &&& item.album matches Some(album) ==> arguments[from + 4] == "-metadata"@
                && arguments[from + 5] == "album="@ + album
            &&& item.segment matches Some(place) ==> arguments[arguments.len() - 5] == "-metadata"@
                && arguments[arguments.len() - 4] == "track="@ + text::decimal_text(
                place.position as nat,
            ) + "/"@ + text::decimal_text(total)
            &&& tags.len() == 4 + (if item.album is Some {
                2int
            } else {
                0
            }) + (if item.segment is Some {
                2int
            } else {
                0
            })
        }),
{
    let arguments = conversion_arguments(input, item, total, copy, bitrate_kbps, part);
    let tags = tag_arguments(item, total);
    let last = seq!["-f"@, "opus"@, part];
    let head = seq![
        "-hide_banner"@,
        "-loglevel"@,
        "error"@,
        "-nostdin"@,
        "-nostats"@,
        "-y"@,
        "-i"@,
        input,
    ] + cut_arguments(item.segment) + seq!["-vn"@, "-map_metadata"@, "-1"@] + codec_arguments(
        copy,
        bitrate_kbps,
    );
    assert(arguments =~= head + tags + last);
    let from = head.len() as int;
    assert(from == arguments.len() - 3 - tags.len());
    assert forall|i: int| 0 <= i < tags.len() implies arguments[from + i] == tags[i] by {}
    assert(arguments[from] == tags[0]);
    assert(arguments[from + 1] == tags[1]);
    assert(arguments[from + 2] == tags[2]);
    assert(arguments[from + 3] == tags[3]);
    if item.album is Some {
        assert(arguments[from + 4] == tags[4]);
        assert(arguments[from + 5] == tags[5]);
    }
    if item.segment is Some {
        assert(arguments[arguments.len() - 5] == tags[tags.len() - 2]);
        assert(arguments[arguments.len() - 4] == tags[tags.len() - 1]);
    }
}

/// Sound that is Opus is copied; any other is encoded as Opus with the bitrate that is set. A part is
/// cut out from where it begins and for as long as it lasts, and a whole recording is not cut.
pub proof fn lemma_conversion_encodes(
    input: Seq<char>,
    item: SearchItemView,
    total: nat,
    copy: bool,
    bitrate_kbps: u16,
    part: Seq<char>,
)
    ensures
        ({
            let arguments = conversion_arguments(input, item, total, copy, bitrate_kbps, part);
            let at = if item.segment is Some {
                15int
            } else {
                11
            };
            &&& item.segment matches Some(place) ==> arguments[8] == "-ss"@ && arguments[9]
                == seconds_text(place.start_seconds.microseconds() as nat) && arguments[10] == "-t"@
                && arguments[11] == seconds_text(segment_micros(place))
            &&& arguments[at - 3] == "-vn"@
            &&& arguments[at] == "-c:a"@
            &&& copy ==> arguments[at + 1] == "copy"@ && arguments[at + 2] == "-metadata"@
            &&& !copy ==> arguments[at + 1] == "libopus"@ && arguments[at + 2] == "-b:a"@
                && arguments[at + 3] == text::decimal_text(bitrate_kbps as nat) + "k"@
        }),
{
    let arguments = conversion_arguments(input, item, total, copy, bitrate_kbps, part);
    let start = seq![
        "-hide_banner"@,
        "-loglevel"@,
        "error"@,
        "-nostdin"@,
        "-nostats"@,
        "-y"@,
        "-i"@,
        input,
    ];
    let cut = cut_arguments(item.segment);
    let middle = seq!["-vn"@, "-map_metadata"@, "-1"@];
    let codec = codec_arguments(copy, bitrate_kbps);
    let tags = tag_arguments(item, total);
    let at = (start.len() + cut.len() + middle.len()) as int;
    assert(arguments =~= start + cut + middle + codec + tags + seq!["-f"@, "opus"@, part]);
    assert(arguments[at] == codec[0]);
    assert(arguments[at + 1] == codec[1]);
    if !copy {
        assert(arguments[at + 2] == codec[2]);
        assert(arguments[at + 3] == codec[3]);
    } else {
        assert(arguments[at + 2] == tags[0]);
    }
    assert(arguments[at - 3] == middle[0]);
    if item.segment is Some {
        assert(arguments[8] == cut[0] && arguments[9] == cut[1] && arguments[10] == cut[2]
            && arguments[11] == cut[3]);
    }
}

/// The seconds of a cut are written with six decimals and lose nothing of the microseconds.
pub proof fn lemma_seconds_written(micros: nat)
    ensures
        exists|whole: Seq<char>, decimals: Seq<char>|
            {
                &&& seconds_text(micros) == #[trigger] (whole + seq!['.'] + decimals)
                &&& text::all_digits(whole)
                &&& text::all_digits(decimals)
                &&& decimals.len() == 6
                &&& 1000000 * text::digits_value(whole) + text::digits_value(decimals) == micros
            },
{
    reveal_strlit(".");
    let whole = text::decimal_text(micros / 1000000);
    let rest = text::decimal_text(micros % 1000000);
    let decimals = text::zero_padded(rest, 6);
    text::lemma_decimal_round_trip(micros / 1000000);
    text::lemma_decimal_round_trip(micros % 1000000);
    text::lemma_zero_padded(rest, 6);
    assert(rest.len() <= 6) by {
        lemma_short_numeral(micros % 1000000);
    }
    assert("."@ =~= seq!['.']);
    assert(seconds_text(micros) == (whole + seq!['.'] + decimals));
}

proof fn lemma_short_numeral(n: nat)
    requires
        n < 1000000,
    ensures
        text::decimal_text(n).len() <= 6,
{
    reveal_with_fuel(text::numeral, 7);
}

/// Whether a program is told an option with a value: the one right before the other.
pub open spec fn told(arguments: Seq<Seq<char>>, option: Seq<char>, value: Seq<char>) -> bool {
    exists|i: int|
        0 <= i < arguments.len() - 1 && #[trigger] arguments[i] == option && arguments[i + 1]
            == value
}

/// Fetching takes the best sound of one recording and no live one, a fragment at a time and 8 MiB a
/// second at most, tries three times, refuses what is larger than 1 GiB, goes on where it was broken
/// off, and writes into its own folder; the user's own settings of the extractor do not count.
pub proof fn lemma_fetching_bounded(folder: Seq<char>, url: Seq<char>)
    ensures
        ({
            let arguments = fetch_arguments(folder, url);
            &&& told(arguments, "-f"@, "bestaudio/best"@)
            &&& told(arguments, "--match-filter"@, "!is_live"@)
            &&& told(arguments, "--concurrent-fragments"@, "1"@)
            &&& told(arguments, "--limit-rate"@, "8M"@)
            &&& told(arguments, "--max-filesize"@, "1G"@)
            &&& told(arguments, "--socket-timeout"@, "10"@)
            &&& told(arguments, "--retries"@, "3"@)
            &&& told(arguments, "--fragment-retries"@, "3"@)
            &&& told(arguments, "-o"@, paths::joined(folder, "input.%(ext)s"@))
            &&& told(arguments, "--"@, url)
            &&& arguments.contains("--ignore-config"@)
            &&& arguments.contains("--no-playlist"@)
            &&& arguments.contains("--continue"@)
        }),
{
    let arguments = fetch_arguments(folder, url);
    assert(arguments[0] == "--ignore-config"@);
    assert(arguments[1] == "--no-playlist"@);
    assert(arguments[2] == "--continue"@);
    assert(arguments[5] == "--socket-timeout"@ && arguments[6] == "10"@);
    assert(arguments[7] == "--retries"@ && arguments[8] == "3"@);
    assert(arguments[9] == "--fragment-retries"@ && arguments[10] == "3"@);
    assert(arguments[11] == "--concurrent-fragments"@ && arguments[12] == "1"@);
    assert(arguments[13] == "--limit-rate"@ && arguments[14] == "8M"@);
    assert(arguments[15] == "--max-filesize"@ && arguments[16] == "1G"@);
    assert(arguments[17] == "--match-filter"@ && arguments[18] == "!is_live"@);
    assert(arguments[19] == "-f"@ && arguments[20] == "bestaudio/best"@);
    assert(arguments[21] == "-o"@ && arguments[22] == paths::joined(folder, "input.%(ext)s"@));
    assert(arguments[23] == "--"@ && arguments[24] == url);
}

} // verus!
