//! The interface: what is shown, what a key does, and what has to be done outside.
//!
//! An [`App`] holds everything that the interface knows. Keys and events change it and may leave
//! [`Action`]s to be carried out; what comes of those is handed back as events.

use vstd::prelude::*;

pub mod background;
pub mod frame;
pub mod jobs;
pub mod keys;
pub mod library;
pub mod playback;
pub mod playlists;
pub mod screens;
pub mod search;
pub mod suggestions;

use crate::db::LibraryDb;
use crate::db::LibraryView;
use crate::model::Album;
use crate::model::AlbumView;
use crate::model::DownloadRequest;
use crate::model::DownloadRequestView;
use crate::model::SearchItem;
use crate::model::SearchItemView;
use crate::model::SearchKind;
use crate::model::Track;
use crate::model::TrackView;
use crate::player::AudioPlayer;
use crate::player::Playback;
use crate::selection::Selection;
use crate::text;

verus! {

/// The most characters of a query.
pub const MAX_SEARCH_INPUT_CHARS: usize = 512;

/// The most characters of a path.
pub const MAX_PATH_INPUT_CHARS: usize = 4096;

/// The most characters of a playlist's name.
pub const MAX_PLAYLIST_NAME_CHARS: usize = 128;

/// How many jobs are remembered.
pub const MAX_JOB_HISTORY: usize = 512;

/// How many pages of results one can go back.
pub const MAX_SEARCH_HISTORY: usize = 8;

/// A workspace.
#[derive(Clone, Copy, PartialEq, Eq, Structural, Debug)]
pub enum Screen {
    Search,
    Library,
    Queue,
    Downloads,
    Playlists,
    Suggestions,
}

/// What is being typed.
#[derive(Clone, Copy, PartialEq, Eq, Structural, Debug)]
pub enum InputMode {
    /// Nothing.
    Idle,
    Search,
    LibraryFilter,
    Import,
    Playlist { track_id: i64 },
}

impl InputMode {
    /// How many characters may be typed.
    pub open spec fn limit(self) -> nat {
        match self {
            InputMode::Search | InputMode::LibraryFilter => MAX_SEARCH_INPUT_CHARS as nat,
            InputMode::Import => MAX_PATH_INPUT_CHARS as nat,
            InputMode::Playlist { .. } => MAX_PLAYLIST_NAME_CHARS as nat,
            InputMode::Idle => 0,
        }
    }
}

/// What follows the end of a track.
#[derive(Clone, Copy, PartialEq, Eq, Structural, Debug)]
pub enum RepeatMode {
    Off,
    One,
    All,
}

impl RepeatMode {
    /// The mode after this one.
    pub open spec fn after(self) -> RepeatMode {
        match self {
            RepeatMode::Off => RepeatMode::One,
            RepeatMode::One => RepeatMode::All,
            RepeatMode::All => RepeatMode::Off,
        }
    }

    /// The word for this mode.
    pub open spec fn word(self) -> Seq<char> {
        match self {
            RepeatMode::Off => "off"@,
            RepeatMode::One => "uma"@,
            RepeatMode::All => "todas"@,
        }
    }

    /// The mode after this one.
    pub fn cycle(self) -> (result: RepeatMode)
        ensures
            result == self.after(),
    {
        match self {
            RepeatMode::Off => RepeatMode::One,
            RepeatMode::One => RepeatMode::All,
            RepeatMode::All => RepeatMode::Off,
        }
    }

    /// The word for this mode.
    pub fn label(self) -> (result: &'static str)
        ensures
            result@ == self.word(),
    {
        match self {
            RepeatMode::Off => "off",
            RepeatMode::One => "uma",
            RepeatMode::All => "todas",
        }
    }
}

/// Pressing the key for the repeat mode three times leads back to where it was.
pub proof fn lemma_repeat_cycles(mode: RepeatMode)
    ensures
        mode.after().after().after() == mode,
        mode.after() != mode,
{
}

/// A download job as it is shown.
#[derive(PartialEq, Eq, Debug)]
pub struct JobEntry {
    pub id: String,
    pub title: String,
    pub state: String,
    pub error: Option<String>,
}

/// The view of a [`JobEntry`].
#[verifier::ext_equal]
pub struct JobEntryView {
    pub id: Seq<char>,
    pub title: Seq<char>,
    pub state: Seq<char>,
    pub error: Option<Seq<char>>,
}

impl View for JobEntry {
    type V = JobEntryView;

    open spec fn view(&self) -> JobEntryView {
        JobEntryView {
            id: self.id@,
            title: self.title@,
            state: self.state@,
            error: text::shown(self.error),
        }
    }
}

/// A page of results that one can go back to.
pub struct SearchPage {
    pub title: String,
    pub is_collection: bool,
    pub results: Vec<SearchItem>,
    pub selected: Selection,
    pub index: usize,
}

/// The view of a [`SearchPage`].
#[verifier::ext_equal]
pub struct SearchPageView {
    pub title: Seq<char>,
    pub is_collection: bool,
    pub results: Seq<SearchItemView>,
    pub selected: Set<int>,
    pub index: int,
}

impl View for SearchPage {
    type V = SearchPageView;

    open spec fn view(&self) -> SearchPageView {
        SearchPageView {
            title: self.title@,
            is_collection: self.is_collection,
            results: text::views(self.results@),
            selected: self.selected@,
            index: self.index as int,
        }
    }
}

/// An album that is open.
pub struct AlbumDetail {
    pub album: Album,
    pub tracks: Vec<Track>,
    pub index: usize,
    pub parent_index: usize,
}

/// The view of an [`AlbumDetail`].
#[verifier::ext_equal]
pub struct AlbumDetailView {
    pub album: AlbumView,
    pub tracks: Seq<TrackView>,
    pub index: int,
    pub parent_index: int,
}

impl View for AlbumDetail {
    type V = AlbumDetailView;

    open spec fn view(&self) -> AlbumDetailView {
        AlbumDetailView {
            album: self.album@,
            tracks: text::views(self.tracks@),
            index: self.index as int,
            parent_index: self.parent_index as int,
        }
    }
}

/// A playlist that is open.
pub struct PlaylistDetail {
    pub id: i64,
    pub name: String,
    pub tracks: Vec<Track>,
    pub index: usize,
    pub parent_index: usize,
}

/// The view of a [`PlaylistDetail`].
#[verifier::ext_equal]
pub struct PlaylistDetailView {
    pub id: i64,
    pub name: Seq<char>,
    pub tracks: Seq<TrackView>,
    pub index: int,
    pub parent_index: int,
}

impl View for PlaylistDetail {
    type V = PlaylistDetailView;

    open spec fn view(&self) -> PlaylistDetailView {
        PlaylistDetailView {
            id: self.id,
            name: self.name@,
            tracks: text::views(self.tracks@),
            index: self.index as int,
            parent_index: self.parent_index as int,
        }
    }
}

/// Something that has to be done outside.
#[derive(PartialEq, Eq, Debug)]
pub enum Action {
    /// Search in the background.
    Search { query: String, direct_url: bool },
    /// Open a result in the background.
    Resolve { label: String, kind: SearchKind, url: String },
    /// Resolve results and bring the helper programs for downloading them.
    Prepare { items: Vec<SearchItem> },
    /// Search for suggestions in the background.
    Suggest { queries: Vec<String> },
    /// Import a folder in the background.
    Import { root: String },
    /// Hand a request to the download service.
    Enqueue { request: DownloadRequest, title: String },
    /// Cancel a job.
    Cancel { job_id: String, title: String },
    /// Play a file.
    Play { path: String },
    /// Pause, or go on.
    Pause { paused: bool },
    /// Stop playing.
    Stop,
    /// Go on at another place of the file.
    Seek { millis: u64 },
    /// Change the volume.
    Volume { percent: u8 },
    /// Keep that the notice was accepted.
    AcceptNotice,
    /// Keep the queue.
    StoreQueue,
    /// Keep every track and the folders that are imported.
    StoreTracks,
    /// Keep a playlist.
    StorePlaylist { id: i64 },
    /// Keep an album and its tracks.
    StoreAlbum { id: i64 },
    /// Keep the state of a job.
    StoreJob { job_id: String },
}

/// The view of an [`Action`].
#[verifier::ext_equal]
pub enum ActionView {
    Search { query: Seq<char>, direct_url: bool },
    Resolve { label: Seq<char>, kind: SearchKind, url: Seq<char> },
    Prepare { items: Seq<SearchItemView> },
    Suggest { queries: Seq<Seq<char>> },
    Import { root: Seq<char> },
    Enqueue { request: DownloadRequestView, title: Seq<char> },
    Cancel { job_id: Seq<char>, title: Seq<char> },
    Play { path: Seq<char> },
    Pause { paused: bool },
    Stop,
    Seek { millis: u64 },
    Volume { percent: u8 },
    AcceptNotice,
    StoreQueue,
    StoreTracks,
    StorePlaylist { id: i64 },
    StoreAlbum { id: i64 },
    StoreJob { job_id: Seq<char> },
}

impl View for Action {
    type V = ActionView;

    open spec fn view(&self) -> ActionView {
        match *self {
            Action::Search { query, direct_url } => ActionView::Search {
                query: query@,
                direct_url,
            },
            Action::Resolve { label, kind, url } => ActionView::Resolve {
                label: label@,
                kind,
                url: url@,
            },
            Action::Prepare { items } => ActionView::Prepare { items: text::views(items@) },
            Action::Suggest { queries } => ActionView::Suggest { queries: text::views(queries@) },
            Action::Import { root } => ActionView::Import { root: root@ },
            Action::Enqueue { request, title } => ActionView::Enqueue {
                request: request@,
                title: title@,
            },
            Action::Cancel { job_id, title } => ActionView::Cancel {
                job_id: job_id@,
                title: title@,
            },
            Action::Play { path } => ActionView::Play { path: path@ },
            Action::Pause { paused } => ActionView::Pause { paused },
            Action::Stop => ActionView::Stop,
            Action::Seek { millis } => ActionView::Seek { millis },
            Action::Volume { percent } => ActionView::Volume { percent },
            Action::AcceptNotice => ActionView::AcceptNotice,
            Action::StoreQueue => ActionView::StoreQueue,
            Action::StoreTracks => ActionView::StoreTracks,
            Action::StorePlaylist { id } => ActionView::StorePlaylist { id },
            Action::StoreAlbum { id } => ActionView::StoreAlbum { id },
            Action::StoreJob { job_id } => ActionView::StoreJob { job_id: job_id@ },
        }
    }
}

/// Everything that the interface knows.
pub struct App {
    pub db: LibraryDb,
    pub player: AudioPlayer,
    /// Whether the download service runs.
    pub service: bool,
    /// The requests that have not been handed to the service yet.
    pub waiting: Vec<DownloadRequest>,
    pub max_parallel_downloads: usize,
    pub screen: Screen,
    pub input_mode: InputMode,
    pub input: String,
    pub status: String,
    pub busy: bool,
    pub show_notice: bool,
    pub search_title: String,
    pub search_is_collection: bool,
    pub search_history: Vec<SearchPage>,
    pub search_results: Vec<SearchItem>,
    pub selected_results: Selection,
    pub search_index: usize,
    pub albums: Vec<Album>,
    pub library: Vec<Track>,
    pub library_index: usize,
    pub library_filter: String,
    pub album_detail: Option<AlbumDetail>,
    pub queue: Vec<Track>,
    pub queue_index: usize,
    pub current_index: Option<usize>,
    pub jobs: Vec<JobEntry>,
    pub job_index: usize,
    pub playlists: Vec<(i64, String, u64)>,
    pub playlist_index: usize,
    pub playlist_detail: Option<PlaylistDetail>,
    pub suggestions: Vec<SearchItem>,
    pub suggestions_loaded: bool,
    pub selected_suggestions: Selection,
    pub suggestion_index: usize,
    pub shuffle: bool,
    pub repeat: RepeatMode,
    pub show_help: bool,
    pub should_quit: bool,
    /// What has to be done outside, in order.
    pub actions: Vec<Action>,
}

/// The view of an [`App`].
#[verifier::ext_equal]
pub struct AppView {
    pub db: LibraryView,
    pub playback: Option<Playback>,
    pub preferred_device: Option<Seq<char>>,
    pub service: bool,
    pub waiting: Seq<DownloadRequestView>,
    pub max_parallel_downloads: usize,
    pub screen: Screen,
    pub input_mode: InputMode,
    pub input: Seq<char>,
    pub status: Seq<char>,
    pub busy: bool,
    pub show_notice: bool,
    pub search_title: Seq<char>,
    pub search_is_collection: bool,
    pub search_history: Seq<SearchPageView>,
    pub search_results: Seq<SearchItemView>,
    pub selected_results: Set<int>,
    pub search_index: int,
    pub albums: Seq<AlbumView>,
    pub library: Seq<TrackView>,
    pub library_index: int,
    pub library_filter: Seq<char>,
    pub album_detail: Option<AlbumDetailView>,
    pub queue: Seq<TrackView>,
    pub queue_index: int,
    pub current_index: Option<int>,
    pub jobs: Seq<JobEntryView>,
    pub job_index: int,
    pub playlists: Seq<(i64, Seq<char>, u64)>,
    pub playlist_index: int,
    pub playlist_detail: Option<PlaylistDetailView>,
    pub suggestions: Seq<SearchItemView>,
    pub suggestions_loaded: bool,
    pub selected_suggestions: Set<int>,
    pub suggestion_index: int,
    pub shuffle: bool,
    pub repeat: RepeatMode,
    pub show_help: bool,
    pub should_quit: bool,
    pub actions: Seq<ActionView>,
}

/// An optional position as a mathematical integer.
pub open spec fn place(position: Option<usize>) -> Option<int> {
    match position {
        Some(i) => Some(i as int),
        None => None,
    }
}

/// What an open album holds.
pub open spec fn album_shown(detail: Option<AlbumDetail>) -> Option<AlbumDetailView> {
    match detail {
        Some(inner) => Some(inner@),
        None => None,
    }
}

/// What an open playlist holds.
pub open spec fn playlist_shown(detail: Option<PlaylistDetail>) -> Option<PlaylistDetailView> {
    match detail {
        Some(inner) => Some(inner@),
        None => None,
    }
}

impl View for App {
    type V = AppView;

    open spec fn view(&self) -> AppView {
        AppView {
            db: self.db@,
            playback: self.player.current,
            preferred_device: text::shown(self.player.preferred_device),
            service: self.service,
            waiting: text::views(self.waiting@),
            max_parallel_downloads: self.max_parallel_downloads,
            screen: self.screen,
            input_mode: self.input_mode,
            input: self.input@,
            status: self.status@,
            busy: self.busy,
            show_notice: self.show_notice,
            search_title: self.search_title@,
            search_is_collection: self.search_is_collection,
            search_history: text::views(self.search_history@),
            search_results: text::views(self.search_results@),
            selected_results: self.selected_results@,
            search_index: self.search_index as int,
            albums: text::views(self.albums@),
            library: text::views(self.library@),
            library_index: self.library_index as int,
            library_filter: self.library_filter@,
            album_detail: album_shown(self.album_detail),
            queue: text::views(self.queue@),
            queue_index: self.queue_index as int,
            current_index: place(self.current_index),
            jobs: text::views(self.jobs@),
            job_index: self.job_index as int,
            playlists: text::views(self.playlists@),
            playlist_index: self.playlist_index as int,
            playlist_detail: playlist_shown(self.playlist_detail),
            suggestions: text::views(self.suggestions@),
            suggestions_loaded: self.suggestions_loaded,
            selected_suggestions: self.selected_suggestions@,
            suggestion_index: self.suggestion_index as int,
            shuffle: self.shuffle,
            repeat: self.repeat,
            show_help: self.show_help,
            should_quit: self.should_quit,
            actions: text::views(self.actions@),
        }
    }
}

/// Whether a catalogue is well-formed.
#[verifier::opaque]
pub open spec fn sound(view: LibraryView) -> bool {
    view.well_formed()
}

/// Whether a cursor lies on a row, or on the first place of an empty list.
pub open spec fn on_row(index: int, count: int) -> bool {
    0 <= index && (index < count || index == 0)
}

/// A cursor moved onto the last row where it lies past it.
pub open spec fn clamped(index: int, count: int) -> int {
    if index < count {
        index
    } else if count > 0 {
        count - 1
    } else {
        0
    }
}

impl AppView {
    /// Whether every cursor lies on a row, the track that is played is in the queue, and no list
    /// is longer than it may be.
    pub open spec fn well_formed(self) -> bool {
        &&& sound(self.db)
        &&& self.playback matches Some(playback) ==> playback.sample_rate
            >= crate::player::MIN_SAMPLE_RATE && playback.volume <= 100
        &&& on_row(self.search_index, self.search_results.len() as int)
        &&& on_row(self.library_index, (self.albums.len() + self.library.len()) as int)
        &&& self.albums.len() <= 500
        &&& self.library.len() <= 500
        &&& self.album_detail matches Some(detail) ==> on_row(
            detail.index,
            detail.tracks.len() as int,
        )
        &&& on_row(self.queue_index, self.queue.len() as int)
        &&& self.current_index matches Some(index) ==> 0 <= index < self.queue.len()
        &&& self.jobs.len() <= MAX_JOB_HISTORY
        &&& 0 <= self.job_index <= MAX_JOB_HISTORY
        &&& on_row(self.playlist_index, self.playlists.len() as int)
        &&& self.playlist_detail matches Some(detail) ==> on_row(
            detail.index,
            detail.tracks.len() as int,
        )
        &&& on_row(self.suggestion_index, self.suggestions.len() as int)
        &&& self.search_history.len() <= MAX_SEARCH_HISTORY
        &&& self.input.len() <= MAX_PATH_INPUT_CHARS
    }

    /// The same with another message.
    #[verifier::opaque]
    pub open spec fn said(self, message: Seq<char>) -> AppView {
        AppView { status: message, ..self }
    }

    /// The same with one more thing to do.
    #[verifier::opaque]
    pub open spec fn asked(self, action: ActionView) -> AppView {
        AppView { actions: self.actions.push(action), ..self }
    }

    /// The same with nothing being typed.
    #[verifier::opaque]
    pub open spec fn untyped(self) -> AppView {
        AppView { input: Seq::empty(), input_mode: InputMode::Idle, ..self }
    }

    /// The identifier of the track that is played or paused.
    pub open spec fn current_id(self) -> Option<i64> {
        match self.current_index {
            Some(index) => if 0 <= index < self.queue.len() {
                Some(self.queue[index].id)
            } else {
                None
            },
            None => None,
        }
    }
}

/// The row after `current`, but not past the last one.
pub open spec fn next_row(current: int, length: int) -> int {
    if length == 0 {
        0
    } else if current + 1 < length {
        current + 1
    } else {
        length - 1
    }
}

/// The row after `current`, but not past the last one.
pub fn next_index(current: usize, length: usize) -> (result: usize)
    ensures
        result == next_row(current as int, length as int),
{
    if length == 0 {
        0
    } else if current < length - 1 {
        current + 1
    } else {
        length - 1
    }
}

/// The row before `current`, but not before the first one.
pub open spec fn previous_row(current: int) -> int {
    if current > 0 {
        current - 1
    } else {
        0
    }
}

/// The row before `current`, but not before the first one.
pub fn previous_index(current: usize) -> (result: usize)
    ensures
        result == previous_row(current as int),
{
    if current > 0 {
        current - 1
    } else {
        0
    }
}

/// Moving the selection keeps it on a row.
pub proof fn lemma_moves_on_rows(current: int, length: int)
    requires
        on_row(current, length),
        length >= 0,
    ensures
        on_row(next_row(current, length), length),
        on_row(previous_row(current), length),
{
}

/// Whether a character is a control character: one of the first 32, or one of the 33 from delete
/// on.
pub open spec fn control_char(c: char) -> bool {
    (c as u32) < 32 || (127 <= c as u32 && (c as u32) < 160)
}

/// The characters of a label: control characters become spaces.
pub open spec fn printable(s: Seq<char>) -> Seq<char> {
    s.map_values(
        |c: char|
            if control_char(c) {
                ' '
            } else {
                c
            },
    )
}

/// The first characters of a text as a label on one line; a longer text ends in an ellipsis.
pub open spec fn label_of(value: Seq<char>, max_chars: nat) -> Seq<char> {
    if value.len() > max_chars {
        printable(value.take(max_chars as int)).push('…')
    } else {
        printable(value)
    }
}

/// The first characters of a text as a label on one line.
pub fn short_label(value: &str, max_chars: usize) -> (result: String)
    ensures
        result@ == label_of(value@, max_chars as nat),
{
    let chars = text::chars_of(value);
    let length: usize = if chars.len() > max_chars {
        max_chars
    } else {
        chars.len()
    };
    let mut label = String::new();
    let mut i: usize = 0;
    proof {
        reveal_strlit("");
        assert(label@ =~= printable(value@.take(0)));
    }
    while i < length
        invariant
            chars@ == value@,
            i <= length <= chars@.len(),
            label@ == printable(value@.take(i as int)),
        decreases length - i,
    {
        let c = chars[i];
        let code: u32 = c as u32;
        let shown = if code < 32 || (127 <= code && code < 160) {
            ' '
        } else {
            c
        };
        label.push(shown);
        assert(printable(value@.take(i + 1)) =~= printable(value@.take(i as int)).push(shown));
        i += 1;
    }
    assert(value@.take(value@.len() as int) =~= value@);
    if chars.len() > max_chars {
        label.push('…');
    }
    label
}

/// Two digits at least.
pub open spec fn two_digits(n: nat) -> Seq<char> {
    text::zero_padded(text::decimal_text(n), 2)
}

/// A duration in minutes and seconds.
pub open spec fn clock(duration: Option<u64>) -> Seq<char> {
    match duration {
        Some(seconds) => two_digits((seconds / 60) as nat) + ":"@ + two_digits(
            (seconds % 60) as nat,
        ),
        None => "--:--"@,
    }
}

/// A duration in minutes and seconds.
pub fn duration_label(duration: Option<u64>) -> (result: String)
    ensures
        result@ == clock(duration),
{
    match duration {
        Some(seconds) => {
            let mut label = text::padded_decimal(seconds / 60, 2);
            label.push_str(":");
            label.push_str(text::padded_decimal(seconds % 60, 2).as_str());
            label
        },
        None => "--:--".to_owned(),
    }
}

impl App {
    fn say(&mut self, message: &str)
        ensures
            final(self)@ == old(self)@.said(message@),
            old(self)@.well_formed() ==> final(self)@.well_formed(),
            final(self).player == old(self).player,
    {
        reveal(AppView::said);
        self.status = message.to_owned();
        assert(self@ =~= old(self)@.said(message@));
    }

    fn say_with(&mut self, before: &str, name: &str)
        ensures
            final(self)@ == old(self)@.said(before@ + name@),
            old(self)@.well_formed() ==> final(self)@.well_formed(),
            final(self).player == old(self).player,
    {
        reveal(AppView::said);
        let mut message = before.to_owned();
        message.push_str(name);
        self.status = message;
        assert(self@ =~= old(self)@.said(before@ + name@));
    }

    fn say_of(&mut self, before: &str, name: &str, after: &str)
        ensures
            final(self)@ == old(self)@.said(before@ + name@ + after@),
            old(self)@.well_formed() ==> final(self)@.well_formed(),
            final(self).player == old(self).player,
    {
        reveal(AppView::said);
        let mut message = before.to_owned();
        message.push_str(name);
        message.push_str(after);
        self.status = message;
        assert(self@ =~= old(self)@.said(before@ + name@ + after@));
    }

    fn ask(&mut self, action: Action)
        ensures
            final(self)@ == old(self)@.asked(action@),
            old(self)@.well_formed() ==> final(self)@.well_formed(),
            final(self).player == old(self).player,
    {
        reveal(AppView::asked);
        self.actions.push(action);
        assert(text::views(self.actions@) =~= text::views(old(self).actions@).push(action@));
        assert(self@ =~= old(self)@.asked(action@));
    }

    fn stop_typing(&mut self)
        ensures
            final(self)@ == old(self)@.untyped(),
            old(self)@.well_formed() ==> final(self)@.well_formed(),
            final(self).player == old(self).player,
    {
        reveal(AppView::untyped);
        self.input = String::new();
        self.input_mode = InputMode::Idle;
        proof {
            reveal_strlit("");
            assert(self.input@ =~= Seq::<char>::empty());
            assert(self@ =~= old(self)@.untyped());
        }
    }

    /// Hands out what has to be done outside.
    pub fn take_actions(&mut self) -> (result: Vec<Action>)
        ensures
            text::views(result@) == old(self)@.actions,
            final(self)@ == (AppView { actions: Seq::empty(), ..old(self)@ }),
            old(self)@.well_formed() ==> final(self)@.well_formed(),
    {
        let mut taken: Vec<Action> = Vec::new();
        taken.append(&mut self.actions);
        assert(text::views(taken@) =~= old(self)@.actions);
        assert(text::views(self.actions@) =~= Seq::<ActionView>::empty());
        assert(self@ =~= (AppView { actions: Seq::empty(), ..old(self)@ }));
        taken
    }
}

/// The row below is the next one, up to the last, and the row above the one before, down to the
/// first; a cursor past the end of a list that became shorter goes to its last row.
pub proof fn lemma_neighbouring_rows(current: int, length: int)
    requires
        0 <= current < length,
    ensures
        current + 1 < length ==> next_row(current, length) == current + 1,
        current + 1 == length ==> next_row(current, length) == current,
        current > 0 ==> previous_row(current) == current - 1,
        current == 0 ==> previous_row(current) == current,
        current + 1 < length ==> previous_row(next_row(current, length)) == current,
        clamped(current, length) == current,
        forall|past: int| past >= length ==> #[trigger] clamped(past, length) == length - 1,
        clamped(current, 0) == 0,
{
}

/// A label holds the characters of its text, each in its place, but for control characters, which
/// become spaces; of a text that is too long it holds the beginning and an ellipsis.
pub proof fn lemma_label(value: Seq<char>, max_chars: nat, i: int, c: char)
    requires
        0 <= i < value.len(),
        i < max_chars,
        value[i] == c,
    ensures
        ({
            let label = label_of(value, max_chars);
            &&& value.len() <= max_chars ==> label.len() == value.len()
            &&& value.len() > max_chars ==> label.len() == max_chars + 1 && label.last() == '…'
            &&& c < ' ' || ('\u{7f}' <= c && c <= '\u{9f}') ==> label[i] == ' '
            &&& !(c < ' ' || ('\u{7f}' <= c && c <= '\u{9f}')) ==> label[i] == c
        }),
{
    if value.len() > max_chars {
        assert(value.take(max_chars as int)[i] == c);
    }
    assert(control_char(c) <==> c < ' ' || ('\u{7f}' <= c && c <= '\u{9f}'));
}

/// A duration is shown by its minutes and the seconds below a minute, with two digits at least.
pub proof fn lemma_clock(minutes: nat, seconds: nat)
    requires
        seconds < 60,
        60 * minutes + seconds <= u64::MAX,
    ensures
        ({
            let shown = clock(Some((60 * minutes + seconds) as u64));
            let (before, after) = (shown.take(shown.len() - 3), shown.skip(shown.len() - 2));
            &&& shown.len() >= 5
            &&& shown[shown.len() - 3] == ':'
            &&& text::all_digits(before)
            &&& text::digits_value(before) == minutes
            &&& text::all_digits(after)
            &&& text::digits_value(after) == seconds
        }),
        !text::all_digits(clock(None)),
{
    let total = (60 * minutes + seconds) as u64;
    assert(total / 60 == minutes && total % 60 == seconds) by (nonlinear_arith)
        requires
            total == 60 * minutes + seconds,
            seconds < 60,
    ;
    reveal_strlit(":");
    reveal_strlit("--:--");
    text::lemma_decimal_round_trip(minutes);
    text::lemma_decimal_round_trip(seconds);
    text::lemma_zero_padded(text::decimal_text(minutes), 2);
    text::lemma_zero_padded(text::decimal_text(seconds), 2);
    let shown = clock(Some(total));
    assert(text::decimal_text(seconds).len() <= 2) by {
        reveal_with_fuel(text::numeral, 3);
    }
    assert(shown.take(shown.len() - 3) =~= two_digits(minutes));
    assert(shown.skip(shown.len() - 2) =~= two_digits(seconds));
    assert(!text::ascii_digit("--:--"@[0]));
}

/// Repeating goes from off to one track, from there to all of them, and from there to off; each has
/// a word of its own.
pub proof fn lemma_repeat_modes(mode: RepeatMode)
    ensures
        RepeatMode::Off.after() == RepeatMode::One,
        mode.after().after() != mode,
        mode.after() != mode,
        mode.after().after().after() == mode,
        mode.word() != mode.after().word(),
        mode.word() == match mode {
            RepeatMode::Off => "off"@,
            RepeatMode::One => "uma"@,
            RepeatMode::All => "todas"@,
        },
{
    reveal_strlit("off");
    reveal_strlit("uma");
    reveal_strlit("todas");
    assert("off"@[0] == 'o' && "uma"@[0] == 'u' && "todas"@[0] == 't');
}

/// 512 jobs are remembered, and eight pages of results.
pub proof fn lemma_histories_bounded(app: AppView)
    requires
        app.well_formed(),
    ensures
        app.jobs.len() <= 512,
        app.search_history.len() <= 8,
        app.albums.len() <= 500,
        app.library.len() <= 500,
        MAX_JOB_HISTORY == 512,
        MAX_SEARCH_HISTORY == 8,
{
}

} // verus!
