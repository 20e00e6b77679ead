//! What the interface shows, as text with tones; drawing it is left to the terminal.

use vstd::prelude::*;

use crate::model;
use crate::model::Album;
use crate::model::AlbumView;
use crate::model::SearchItem;
use crate::model::SearchItemView;
use crate::model::Track;
use crate::model::TrackView;
use crate::player;
use crate::player::PlaybackState;
use crate::selection::Selection;
use crate::text;
use crate::tui;
use crate::tui::jobs;
use crate::tui::App;
use crate::tui::AppView;
use crate::tui::JobEntry;
use crate::tui::JobEntryView;
use crate::tui::Screen;

verus! {

/// The narrowest workspace that has room for the context beside it.
pub const WIDE_WORKSPACE: u16 = 104;

/// How a text is shown.
#[derive(Clone, Copy, PartialEq, Eq, Structural, Debug)]
pub enum Tone {
    Plain,
    Accent,
    AccentBold,
    Text,
    TextBold,
    Muted,
    MutedBold,
    /// Something is wrong.
    Alarm,
    /// Something is going on, or halts.
    Caution,
    CautionBold,
    /// A key of the keyboard, or the tab that is open.
    Key,
}

/// A text with a tone.
#[derive(PartialEq, Eq, Debug)]
pub struct Span {
    pub text: String,
    pub tone: Tone,
}

/// The view of a [`Span`].
#[verifier::ext_equal]
pub struct SpanView {
    pub text: Seq<char>,
    pub tone: Tone,
}

impl View for Span {
    type V = SpanView;

    open spec fn view(&self) -> SpanView {
        SpanView { text: self.text@, tone: self.tone }
    }
}

/// A text with a tone.
pub open spec fn span(text: Seq<char>, tone: Tone) -> SpanView {
    SpanView { text, tone }
}

/// A line.
#[derive(PartialEq, Eq, Debug)]
pub struct Row {
    pub spans: Vec<Span>,
}

impl View for Row {
    type V = Seq<SpanView>;

    open spec fn view(&self) -> Seq<SpanView> {
        text::views(self.spans@)
    }
}

impl Row {
    pub(crate) fn new() -> (result: Self)
        ensures
            result@ == Seq::<SpanView>::empty(),
    {
        let row = Row { spans: Vec::new() };
        assert(row@ =~= Seq::<SpanView>::empty());
        row
    }

    pub(crate) fn put(&mut self, text: String, tone: Tone)
        ensures
            final(self)@ == old(self)@.push(span(text@, tone)),
    {
        self.spans.push(Span { text, tone });
        assert(self@ =~= old(self)@.push(span(text@, tone)));
    }

    pub(crate) fn say(&mut self, text: &str, tone: Tone)
        ensures
            final(self)@ == old(self)@.push(span(text@, tone)),
    {
        self.put(text.to_owned(), tone);
    }
}

/// A list with a title above and a hint below.
#[derive(PartialEq, Eq, Debug)]
pub struct Panel {
    pub title: String,
    pub hint: String,
    pub rows: Vec<Row>,
    pub selected: usize,
}

/// The view of a [`Panel`].
#[verifier::ext_equal]
pub struct PanelView {
    pub title: Seq<char>,
    pub hint: Seq<char>,
    pub rows: Seq<Seq<SpanView>>,
    pub selected: int,
}

impl View for Panel {
    type V = PanelView;

    open spec fn view(&self) -> PanelView {
        PanelView {
            title: self.title@,
            hint: self.hint@,
            rows: text::views(self.rows@),
            selected: self.selected as int,
        }
    }
}

/// Spaces.
pub open spec fn blanks(count: int) -> Seq<char> {
    Seq::new(
        if count > 0 {
            count as nat
        } else {
            0
        },
        |i: int| ' ',
    )
}

/// A text filled up with spaces behind it.
pub open spec fn left_aligned(s: Seq<char>, width: int) -> Seq<char> {
    s + blanks(width - s.len())
}

/// A text filled up with spaces before it.
pub open spec fn right_aligned(s: Seq<char>, width: int) -> Seq<char> {
    blanks(width - s.len()) + s
}

fn fill(count: usize) -> (result: String)
    ensures
        result@ == blanks(count as int),
{
    let mut filling = String::new();
    let mut i: usize = 0;
    proof {
        reveal_strlit("");
        assert(filling@ =~= blanks(0));
    }
    while i < count
        invariant
            i <= count,
            filling@ == blanks(i as int),
        decreases count - i,
    {
        filling.push(' ');
        assert(filling@ =~= blanks(i + 1));
        i += 1;
    }
    filling
}

fn missing(s: &str, width: usize) -> (result: usize)
    ensures
        blanks(result as int) == blanks(width - s@.len()),
{
    let length: usize = text::chars_of(s).len();
    let count: usize = if length < width {
        width - length
    } else {
        0
    };
    assert(blanks(count as int) =~= blanks(width - s@.len()));
    count
}

pub(crate) fn align_left(s: &str, width: usize) -> (result: String)
    ensures
        result@ == left_aligned(s@, width as int),
{
    let mut label = s.to_owned();
    label.push_str(fill(missing(s, width)).as_str());
    label
}

pub(crate) fn align_right(s: &str, width: usize) -> (result: String)
    ensures
        result@ == right_aligned(s@, width as int),
{
    let mut label = fill(missing(s, width));
    label.push_str(s);
    label
}

pub(crate) fn joined(a: &str, b: &str) -> (result: String)
    ensures
        result@ == a@ + b@,
{
    let mut whole = a.to_owned();
    whole.push_str(b);
    whole
}

pub(crate) fn wrapped(a: &str, b: &str, c: &str) -> (result: String)
    ensures
        result@ == a@ + b@ + c@,
{
    let mut whole = joined(a, b);
    whole.push_str(c);
    whole
}

pub(crate) fn number(n: usize) -> (result: String)
    ensures
        result@ == text::decimal_text(n as nat),
{
    text::decimal(n as u64)
}

/// The number of a row, counted from one.
pub open spec fn row_number(i: int) -> Seq<char> {
    right_aligned(text::decimal_text((i + 1) as nat), 3)
}

fn number_of(i: usize) -> (result: String)
    requires
        i < usize::MAX,
    ensures
        result@ == row_number(i as int),
{
    align_right(number(i + 1).as_str(), 3)
}

/// The row of a result.
pub open spec fn result_row(item: SearchItemView, marked: bool) -> Seq<SpanView> {
    seq![
        span(
            (if marked {
                "◆"@
            } else {
                "◇"@
            }) + " "@,
            Tone::Accent,
        ),
        span(left_aligned(text::uppercase_text(model::kind_label(item.kind)), 8), Tone::Muted),
        span(item.title, Tone::Text),
        span("  /  "@ + item.artist, Tone::Muted),
        span("  "@ + tui::clock(item.duration_seconds), Tone::Muted),
    ]
}

/// The rows of a list of results.
pub open spec fn result_rows(items: Seq<SearchItemView>, marks: Set<int>) -> Seq<Seq<SpanView>> {
    Seq::new(items.len(), |i: int| result_row(items[i], marks.contains(i)))
}

fn show_result(item: &SearchItem, marked: bool) -> (result: Row)
    ensures
        result@ == result_row(item@, marked),
{
    let mut row = Row::new();
    row.put(
        joined(
            if marked {
                "◆"
            } else {
                "◇"
            },
            " ",
        ),
        Tone::Accent,
    );
    row.put(align_left(item.kind.label().to_uppercase().as_str(), 8), Tone::Muted);
    row.say(item.title.as_str(), Tone::Text);
    row.put(joined("  /  ", item.artist.as_str()), Tone::Muted);
    row.put(joined("  ", tui::duration_label(item.duration_seconds).as_str()), Tone::Muted);
    assert(row@ =~= result_row(item@, marked));
    row
}

fn show_results(items: &Vec<SearchItem>, marks: &Selection) -> (result: Vec<Row>)
    ensures
        text::views(result@) == result_rows(text::views(items@), marks@),
{
    let mut rows: Vec<Row> = Vec::new();
    let mut i: usize = 0;
    while i < items.len()
        invariant
            i <= items@.len(),
            rows@.len() == i,
            forall|k: int|
                0 <= k < i ==> (#[trigger] rows@[k])@ == result_row(
                    items@[k]@,
                    marks@.contains(k),
                ),
        decreases items@.len() - i,
    {
        rows.push(show_result(&items[i], marks.contains(i)));
        i += 1;
    }
    assert(text::views(rows@) =~= result_rows(text::views(items@), marks@));
    rows
}

/// The sign of a playback state.
pub open spec fn state_sign(state: PlaybackState) -> Seq<char> {
    match state {
        PlaybackState::Paused => "Ⅱ"@,
        PlaybackState::Playing => "▶"@,
        PlaybackState::Stopped => " "@,
    }
}

fn sign_of(state: PlaybackState) -> (result: &'static str)
    ensures
        result@ == state_sign(state),
{
    match state {
        PlaybackState::Paused => "Ⅱ",
        PlaybackState::Playing => "▶",
        PlaybackState::Stopped => " ",
    }
}

/// The sign before a track: what the player does with it, or that its file is missing.
pub open spec fn marker(track: TrackView, state: PlaybackState, current: Option<i64>) -> Seq<char> {
    if current == Some(track.id) {
        state_sign(state)
    } else if track.available {
        " "@
    } else {
        "!"@
    }
}

/// The sign before a track.
pub fn track_marker(track: &Track, state: PlaybackState, current: Option<i64>) -> (result:
    &'static str)
    ensures
        result@ == marker(track@, state, current),
{
    if current == Some(track.id) {
        sign_of(state)
    } else if track.available {
        " "
    } else {
        "!"
    }
}

/// The row of a track: a sign, its number, its title and artist, and its duration where it is shown.
pub open spec fn track_row(
    sign: Seq<char>,
    kind: Seq<char>,
    i: int,
    track: TrackView,
    timed: bool,
) -> Seq<SpanView> {
    let plain = seq![
        span(sign + kind + row_number(i) + "  "@, Tone::Accent),
        span(track.title, Tone::Text),
        span("  /  "@ + track.artist, Tone::Muted),
    ];
    if timed {
        plain.push(span("  "@ + tui::clock(track.duration_seconds), Tone::Muted))
    } else {
        plain
    }
}

/// The rows of a list of tracks.
pub open spec fn track_rows(
    tracks: Seq<TrackView>,
    kind: Seq<char>,
    state: PlaybackState,
    current: Option<i64>,
    timed: bool,
) -> Seq<Seq<SpanView>> {
    Seq::new(
        tracks.len(),
        |i: int| track_row(marker(tracks[i], state, current), kind, i, tracks[i], timed),
    )
}

fn show_track(sign: &str, kind: &str, i: usize, track: &Track, timed: bool) -> (result: Row)
    requires
        i < usize::MAX,
    ensures
        result@ == track_row(sign@, kind@, i as int, track@, timed),
{
    let mut row = Row::new();
    row.put(
        joined(wrapped(sign, kind, number_of(i).as_str()).as_str(), "  "),
        Tone::Accent,
    );
    row.say(track.title.as_str(), Tone::Text);
    row.put(joined("  /  ", track.artist.as_str()), Tone::Muted);
    if timed {
        row.put(
            joined("  ", tui::duration_label(track.duration_seconds).as_str()),
            Tone::Muted,
        );
    }
    assert(row@ =~= track_row(sign@, kind@, i as int, track@, timed));
    row
}

fn show_tracks(
    tracks: &Vec<Track>,
    kind: &str,
    state: PlaybackState,
    current: Option<i64>,
    timed: bool,
) -> (result: Vec<Row>)
    ensures
        text::views(result@) == track_rows(text::views(tracks@), kind@, state, current, timed),
{
    let mut rows: Vec<Row> = Vec::new();
    let mut i: usize = 0;
    while i < tracks.len()
        invariant
            i <= tracks@.len(),
            rows@.len() == i,
            forall|k: int|
                0 <= k < i ==> (#[trigger] rows@[k])@ == track_row(
                    marker(tracks@[k]@, state, current),
                    kind@,
                    k,
                    tracks@[k]@,
                    timed,
                ),
        decreases tracks@.len() - i,
    {
        let sign = track_marker(&tracks[i], state, current);
        rows.push(show_track(sign, kind, i, &tracks[i], timed));
        i += 1;
    }
    assert(text::views(rows@) =~= track_rows(text::views(tracks@), kind@, state, current, timed));
    rows
}

/// The row of an album.
pub open spec fn album_line(album: AlbumView) -> Seq<SpanView> {
    seq![
        span(
            (if album.available_count < album.track_count {
                "!"@
            } else {
                "▣"@
            }) + " ALBUM  "@,
            Tone::Accent,
        ),
        span(album.title, Tone::Text),
        span("  /  "@ + album.artist, Tone::Muted),
        span("  ·  "@ + text::decimal_text(album.track_count as nat) + " tracks"@, Tone::Muted),
    ]
}

fn show_album(album: &Album) -> (result: Row)
    ensures
        result@ == album_line(album@),
{
    let mut row = Row::new();
    row.put(
        joined(
            if album.available_count < album.track_count {
                "!"
            } else {
                "▣"
            },
            " ALBUM  ",
        ),
        Tone::Accent,
    );
    row.say(album.title.as_str(), Tone::Text);
    row.put(joined("  /  ", album.artist.as_str()), Tone::Muted);
    row.put(wrapped("  ·  ", text::decimal(album.track_count).as_str(), " tracks"), Tone::Muted);
    assert(row@ =~= album_line(album@));
    row
}

fn show_albums(albums: &Vec<Album>) -> (result: Vec<Row>)
    ensures
        text::views(result@) == text::views(albums@).map_values(|album: AlbumView| album_line(album)),
{
    let mut rows: Vec<Row> = Vec::new();
    let mut i: usize = 0;
    while i < albums.len()
        invariant
            i <= albums@.len(),
            rows@.len() == i,
            forall|k: int| 0 <= k < i ==> (#[trigger] rows@[k])@ == album_line(albums@[k]@),
        decreases albums@.len() - i,
    {
        rows.push(show_album(&albums[i]));
        i += 1;
    }
    assert(text::views(rows@) =~= text::views(albums@).map_values(
        |album: AlbumView| album_line(album),
    ));
    rows
}

/// The rows of the queue.
pub open spec fn queue_rows(
    tracks: Seq<TrackView>,
    state: PlaybackState,
    current: Option<int>,
) -> Seq<Seq<SpanView>> {
    Seq::new(
        tracks.len(),
        |i: int|
            track_row(
                if current == Some(i) {
                    state_sign(state)
                } else {
                    " "@
                },
                " "@,
                i,
                tracks[i],
                false,
            ),
    )
}

fn show_queue(tracks: &Vec<Track>, state: PlaybackState, current: Option<usize>) -> (result: Vec<
    Row,
>)
    ensures
        text::views(result@) == queue_rows(text::views(tracks@), state, tui::place(current)),
{
    let mut rows: Vec<Row> = Vec::new();
    let mut i: usize = 0;
    while i < tracks.len()
        invariant
            i <= tracks@.len(),
            rows@.len() == i,
            forall|k: int|
                0 <= k < i ==> (#[trigger] rows@[k])@ == track_row(
                    if tui::place(current) == Some(k) {
                        state_sign(state)
                    } else {
                        " "@
                    },
                    " "@,
                    k,
                    tracks@[k]@,
                    false,
                ),
        decreases tracks@.len() - i,
    {
        let sign = if current == Some(i) {
            sign_of(state)
        } else {
            " "
        };
        rows.push(show_track(sign, " ", i, &tracks[i], false));
        i += 1;
    }
    assert(text::views(rows@) =~= queue_rows(text::views(tracks@), state, tui::place(current)));
    rows
}

/// The row of a job.
pub open spec fn job_line(job: JobEntryView) -> Seq<SpanView> {
    seq![
        span(
            left_aligned(text::uppercase_text(job.state), 12),
            if job.state == "concluido"@ {
                Tone::Accent
            } else if job.state == "erro"@ {
                Tone::Alarm
            } else {
                Tone::Muted
            },
        ),
        span(job.title, Tone::Text),
        span(
            match job.error {
                Some(error) => "  /  "@ + error,
                None => ""@,
            },
            Tone::Alarm,
        ),
    ]
}

fn show_job(job: &JobEntry) -> (result: Row)
    ensures
        result@ == job_line(job@),
{
    let tone = if text::same_text(job.state.as_str(), "concluido") {
        Tone::Accent
    } else if text::same_text(job.state.as_str(), "erro") {
        Tone::Alarm
    } else {
        Tone::Muted
    };
    let mut row = Row::new();
    row.put(align_left(job.state.as_str().to_uppercase().as_str(), 12), tone);
    row.say(job.title.as_str(), Tone::Text);
    match &job.error {
        Some(error) => {
            row.put(joined("  /  ", error.as_str()), Tone::Alarm);
        },
        None => {
            row.say("", Tone::Alarm);
        },
    }
    assert(row@ =~= job_line(job@));
    row
}

fn show_jobs(list: &Vec<JobEntry>) -> (result: Vec<Row>)
    ensures
        text::views(result@) == text::views(list@).map_values(|job: JobEntryView| job_line(job)),
{
    let mut rows: Vec<Row> = Vec::new();
    let mut i: usize = 0;
    while i < list.len()
        invariant
            i <= list@.len(),
            rows@.len() == i,
            forall|k: int| 0 <= k < i ==> (#[trigger] rows@[k])@ == job_line(list@[k]@),
        decreases list@.len() - i,
    {
        rows.push(show_job(&list[i]));
        i += 1;
    }
    assert(text::views(rows@) =~= text::views(list@).map_values(
        |job: JobEntryView| job_line(job),
    ));
    rows
}

/// The row of a playlist.
pub open spec fn playlist_line(i: int, line: (i64, Seq<char>, u64)) -> Seq<SpanView> {
    seq![
        span(row_number(i) + "  "@, Tone::Accent),
        span(line.1, Tone::Text),
        span("  /  "@ + text::decimal_text(line.2 as nat) + " tracks"@, Tone::Muted),
    ]
}

/// The rows of the playlists.
pub open spec fn playlist_rows(lines: Seq<(i64, Seq<char>, u64)>) -> Seq<Seq<SpanView>> {
    Seq::new(lines.len(), |i: int| playlist_line(i, lines[i]))
}

fn show_playlists(lines: &Vec<(i64, String, u64)>) -> (result: Vec<Row>)
    ensures
        text::views(result@) == playlist_rows(text::views(lines@)),
{
    let mut rows: Vec<Row> = Vec::new();
    let mut i: usize = 0;
    while i < lines.len()
        invariant
            i <= lines@.len(),
            rows@.len() == i,
            forall|k: int| 0 <= k < i ==> (#[trigger] rows@[k])@ == playlist_line(k, lines@[k]@),
        decreases lines@.len() - i,
    {
        let mut row = Row::new();
        row.put(joined(number_of(i).as_str(), "  "), Tone::Accent);
        row.say(lines[i].1.as_str(), Tone::Text);
        row.put(wrapped("  /  ", text::decimal(lines[i].2).as_str(), " tracks"), Tone::Muted);
        assert(row@ =~= playlist_line(i as int, lines@[i as int]@));
        rows.push(row);
        i += 1;
    }
    assert(text::views(rows@) =~= playlist_rows(text::views(lines@)));
    rows
}

/// The rows of an open playlist; an empty one says so.
pub open spec fn entry_rows(
    tracks: Seq<TrackView>,
    state: PlaybackState,
    current: Option<i64>,
) -> Seq<Seq<SpanView>> {
    if tracks.len() == 0 {
        seq![seq![span("  Playlist vazia."@, Tone::Muted)]]
    } else {
        track_rows(tracks, " "@, state, current, false)
    }
}

fn show_entries(tracks: &Vec<Track>, state: PlaybackState, current: Option<i64>) -> (result: Vec<
    Row,
>)
    ensures
        text::views(result@) == entry_rows(text::views(tracks@), state, current),
{
    if tracks.len() == 0 {
        let mut row = Row::new();
        row.say("  Playlist vazia.", Tone::Muted);
        let mut rows: Vec<Row> = Vec::new();
        rows.push(row);
        assert(text::views(rows@) =~= entry_rows(text::views(tracks@), state, current)) by {
            assert(row@ =~= seq![span("  Playlist vazia."@, Tone::Muted)]);
        }
        rows
    } else {
        show_tracks(tracks, " ", state, current, false)
    }
}

impl AppView {
    /// What the player does.
    pub open spec fn playback_state(self) -> PlaybackState {
        match self.playback {
            None => PlaybackState::Stopped,
            Some(playback) => if playback.paused {
                PlaybackState::Paused
            } else {
                PlaybackState::Playing
            },
        }
    }

    /// The panel of the results.
    #[verifier::opaque]
    pub open spec fn search_panel(self) -> PanelView {
        PanelView {
            title: " SEARCH / "@ + text::uppercase_text(self.search_title) + " / "@
                + text::decimal_text(self.search_results.len()) + " ITEMS "@,
            hint: "[/] query  [enter] open  [d] selected  [A] full album  [esc] back"@,
            rows: result_rows(self.search_results, self.selected_results),
            selected: self.search_index,
        }
    }

    /// The panel of the library, or of the album that is open.
    #[verifier::opaque]
    pub open spec fn library_panel(self) -> PanelView {
        match self.album_detail {
            Some(detail) => PanelView {
                title: " LIBRARY / ALBUM / "@ + text::uppercase_text(detail.album.title) + " / "@
                    + text::decimal_text(detail.tracks.len()) + " TRACKS "@,
                hint: "[enter] play selected   [A] play album   [P] playlist   [esc] library"@,
                rows: track_rows(
                    detail.tracks,
                    " "@,
                    self.playback_state(),
                    self.current_id(),
                    true,
                ),
                selected: detail.index,
            },
            None => PanelView {
                title: " LIBRARY / "@ + text::decimal_text(self.albums.len()) + " ALBUMS + "@
                    + text::decimal_text(self.library.len()) + " TRACKS "@,
                hint: "[/] filter   [enter] open/play   [P] playlist   [I] import folder"@,
                rows: self.albums.map_values(|album: AlbumView| album_line(album)) + track_rows(
                    self.library,
                    " TRACK "@,
                    self.playback_state(),
                    self.current_id(),
                    false,
                ),
                selected: self.library_index,
            },
        }
    }

    /// The panel of the queue.
    #[verifier::opaque]
    pub open spec fn queue_panel(self) -> PanelView {
        PanelView {
            title: " PLAY QUEUE / "@ + text::decimal_text(self.queue.len()) + " TRACKS "@,
            hint: "[enter] play or pause current   [x] remove   [b/n] previous/next"@,
            rows: queue_rows(self.queue, self.playback_state(), self.current_index),
            selected: self.queue_index,
        }
    }

    /// The panel of the transfers.
    #[verifier::opaque]
    pub open spec fn jobs_panel(self) -> PanelView {
        PanelView {
            title: " TRANSFERS / "@ + text::decimal_text(self.jobs.len()) + " JOBS "@,
            hint: "[c] cancel   "@ + text::decimal_text(self.max_parallel_downloads as nat)
                + " network worker(s)   1 conversion thread"@,
            rows: self.jobs.map_values(|job: JobEntryView| job_line(job)),
            selected: self.job_index,
        }
    }

    /// The panel of the playlists, or of the one that is open.
    #[verifier::opaque]
    pub open spec fn playlists_panel(self) -> PanelView {
        match self.playlist_detail {
            Some(detail) => PanelView {
                title: " PLAYLIST / "@ + text::uppercase_text(detail.name) + " / "@
                    + text::decimal_text(detail.tracks.len()) + " TRACKS "@,
                hint: "[enter] play selected   [A] play all   [x/delete] remove   [esc] playlists"@,
                rows: entry_rows(detail.tracks, self.playback_state(), self.current_id()),
                selected: detail.index,
            },
            None => PanelView {
                title: " PLAYLISTS / "@ + text::decimal_text(self.playlists.len()) + " "@,
                hint: "[enter] open   use [P] in library or album to add a track"@,
                rows: playlist_rows(self.playlists),
                selected: self.playlist_index,
            },
        }
    }

    /// The panel of the suggestions.
    #[verifier::opaque]
    pub open spec fn suggestions_panel(self) -> PanelView {
        PanelView {
            title: " SUGGESTIONS / "@ + text::decimal_text(self.suggestions.len()) + " ITEMS "@,
            hint: "[x] mark   [a] mark all   [d] download   [R] refresh"@,
            rows: result_rows(self.suggestions, self.selected_suggestions),
            selected: self.suggestion_index,
        }
    }

    /// The panel of the screen that is shown.
    #[verifier::opaque]
    pub open spec fn panel(self) -> PanelView {
        match self.screen {
            Screen::Search => self.search_panel(),
            Screen::Library => self.library_panel(),
            Screen::Queue => self.queue_panel(),
            Screen::Downloads => self.jobs_panel(),
            Screen::Playlists => self.playlists_panel(),
            Screen::Suggestions => self.suggestions_panel(),
        }
    }
}

impl App {
    fn current_id(&self) -> (result: Option<i64>)
        requires
            self@.well_formed(),
        ensures
            result == self@.current_id(),
    {
        match self.current_index {
            Some(index) => {
                assert(self@.queue[index as int] == self.queue@[index as int]@);
                Some(self.queue[index].id)
            },
            None => None,
        }
    }

    fn search_panel(&self) -> (result: Panel)
        ensures
            result@ == self@.search_panel(),
    {
        reveal(AppView::search_panel);
        let mut title = wrapped(
            " SEARCH / ",
            self.search_title.as_str().to_uppercase().as_str(),
            " / ",
        );
        title.push_str(number(self.search_results.len()).as_str());
        title.push_str(" ITEMS ");
        Panel {
            title,
            hint: "[/] query  [enter] open  [d] selected  [A] full album  [esc] back".to_owned(),
            rows: show_results(&self.search_results, &self.selected_results),
            selected: self.search_index,
        }
    }

    fn library_panel(&self) -> (result: Panel)
        requires
            self@.well_formed(),
        ensures
            result@ == self@.library_panel(),
    {
        reveal(AppView::library_panel);
        let state = self.player.state();
        let current = self.current_id();
        match &self.album_detail {
            Some(detail) => {
                let mut title = wrapped(
                    " LIBRARY / ALBUM / ",
                    detail.album.title.as_str().to_uppercase().as_str(),
                    " / ",
                );
                title.push_str(number(detail.tracks.len()).as_str());
                title.push_str(" TRACKS ");
                Panel {
                    title,
                    hint: "[enter] play selected   [A] play album   [P] playlist   [esc] library".to_owned(),
                    rows: show_tracks(&detail.tracks, " ", state, current, true),
                    selected: detail.index,
                }
            },
            None => {
                let mut title = wrapped(
                    " LIBRARY / ",
                    number(self.albums.len()).as_str(),
                    " ALBUMS + ",
                );
                title.push_str(number(self.library.len()).as_str());
                title.push_str(" TRACKS ");
                let mut rows = show_albums(&self.albums);
                let mut more = show_tracks(&self.library, " TRACK ", state, current, false);
                let ghost above = rows@;
                let ghost below = more@;
                rows.append(&mut more);
                assert(text::views(rows@) =~= text::views(above) + text::views(below));
                Panel {
                    title,
                    hint: "[/] filter   [enter] open/play   [P] playlist   [I] import folder".to_owned(),
                    rows,
                    selected: self.library_index,
                }
            },
        }
    }

    fn queue_panel(&self) -> (result: Panel)
        ensures
            result@ == self@.queue_panel(),
    {
        reveal(AppView::queue_panel);
        Panel {
            title: wrapped(" PLAY QUEUE / ", number(self.queue.len()).as_str(), " TRACKS "),
            hint: "[enter] play or pause current   [x] remove   [b/n] previous/next".to_owned(),
            rows: show_queue(&self.queue, self.player.state(), self.current_index),
            selected: self.queue_index,
        }
    }

    fn jobs_panel(&self) -> (result: Panel)
        ensures
            result@ == self@.jobs_panel(),
    {
        reveal(AppView::jobs_panel);
        Panel {
            title: wrapped(" TRANSFERS / ", number(self.jobs.len()).as_str(), " JOBS "),
            hint: wrapped(
                "[c] cancel   ",
                number(self.max_parallel_downloads).as_str(),
                " network worker(s)   1 conversion thread",
            ),
            rows: show_jobs(&self.jobs),
            selected: self.job_index,
        }
    }

    fn playlists_panel(&self) -> (result: Panel)
        requires
            self@.well_formed(),
        ensures
            result@ == self@.playlists_panel(),
    {
        reveal(AppView::playlists_panel);
        match &self.playlist_detail {
            Some(detail) => {
                let mut title = wrapped(
                    " PLAYLIST / ",
                    detail.name.as_str().to_uppercase().as_str(),
                    " / ",
                );
                title.push_str(number(detail.tracks.len()).as_str());
                title.push_str(" TRACKS ");
                Panel {
                    title,
                    hint: "[enter] play selected   [A] play all   [x/delete] remove   [esc] playlists".to_owned(),
                    rows: show_entries(&detail.tracks, self.player.state(), self.current_id()),
                    selected: detail.index,
                }
            },
            None => Panel {
                title: wrapped(" PLAYLISTS / ", number(self.playlists.len()).as_str(), " "),
                hint: "[enter] open   use [P] in library or album to add a track".to_owned(),
                rows: show_playlists(&self.playlists),
                selected: self.playlist_index,
            },
        }
    }

    fn suggestions_panel(&self) -> (result: Panel)
        ensures
            result@ == self@.suggestions_panel(),
    {
        reveal(AppView::suggestions_panel);
        Panel {
            title: wrapped(" SUGGESTIONS / ", number(self.suggestions.len()).as_str(), " ITEMS "),
            hint: "[x] mark   [a] mark all   [d] download   [R] refresh".to_owned(),
            rows: show_results(&self.suggestions, &self.selected_suggestions),
            selected: self.suggestion_index,
        }
    }

    /// The panel of the screen that is shown.
    pub fn panel(&self) -> (result: Panel)
        requires
            self@.well_formed(),
        ensures
            result@ == self@.panel(),
    {
        reveal(AppView::panel);
        match self.screen {
            Screen::Search => self.search_panel(),
            Screen::Library => self.library_panel(),
            Screen::Queue => self.queue_panel(),
            Screen::Downloads => self.jobs_panel(),
            Screen::Playlists => self.playlists_panel(),
            Screen::Suggestions => self.suggestions_panel(),
        }
    }
}

/// Whether a row shows a text as one of its parts.
pub open spec fn shows(row: Seq<SpanView>, words: Seq<char>) -> bool {
    exists|i: int| 0 <= i < row.len() && (#[trigger] row[i]).text == words
}

/// A text that is filled up is as wide as it has to be, and keeps its characters at its end of the
/// field.
pub proof fn lemma_aligned(s: Seq<char>, width: int, i: int)
    requires
        0 <= i < s.len(),
    ensures
        left_aligned(s, width).len() == if width > s.len() {
            width
        } else {
            s.len() as int
        },
        right_aligned(s, width).len() == left_aligned(s, width).len(),
        left_aligned(s, width)[i] == s[i],
        right_aligned(s, width)[right_aligned(s, width).len() - s.len() + i] == s[i],
        s.len() < width ==> left_aligned(s, width).last() == ' ' && right_aligned(s, width)[0]
            == ' ',
        text::ends_with(row_number(i), text::decimal_text((i + 1) as nat)),
{
    let written = text::decimal_text((i + 1) as nat);
    text::lemma_occurs_between(blanks(3 - written.len()), written, Seq::empty());
}

/// The row of a result shows its title, who it is by, its kind and how long it is; a mark changes the
/// sign before it.
pub proof fn lemma_result_row(item: SearchItemView, marked: bool)
    ensures
        ({
            let row = result_row(item, marked);
            &&& shows(row, item.title)
            &&& shows(row, "  /  "@ + item.artist)
            &&& shows(row, "  "@ + tui::clock(item.duration_seconds))
            &&& exists|i: int|
                0 <= i < row.len() && text::begins_with(
                    (#[trigger] row[i]).text,
                    text::uppercase_text(model::kind_label(item.kind)),
                )
            &&& row[0].text != result_row(item, !marked)[0].text
            &&& marked ==> row[0].text == "◆ "@
        }),
{
    let row = result_row(item, marked);
    reveal_strlit("◆");
    reveal_strlit("◇");
    reveal_strlit("◆ ");
    reveal_strlit(" ");
    let (full, empty) = ("◆"@ + " "@, "◇"@ + " "@);
    assert(full[0] == '◆' && empty[0] == '◇');
    assert("◆ "@ =~= full);
    assert(row[2].text == item.title);
    assert(row[3].text == "  /  "@ + item.artist);
    assert(row[4].text == "  "@ + tui::clock(item.duration_seconds));
    let kind = text::uppercase_text(model::kind_label(item.kind));
    text::lemma_occurs_between(Seq::empty(), kind, blanks(8 - kind.len()));
    assert(text::begins_with(row[1].text, kind));
}

/// The row of a track shows its number, its title and who it is by, and its duration where that is
/// wanted.
pub proof fn lemma_track_row(
    sign: Seq<char>,
    kind: Seq<char>,
    i: int,
    track: TrackView,
    timed: bool,
)
    ensures
        ({
            let row = track_row(sign, kind, i, track, timed);
            &&& text::begins_with(row[0].text, sign)
            &&& row[0].text == sign + kind + row_number(i) + "  "@
            &&& shows(row, track.title)
            &&& shows(row, "  /  "@ + track.artist)
            &&& timed ==> shows(row, "  "@ + tui::clock(track.duration_seconds))
            &&& row.len() == if timed {
                4int
            } else {
                3
            }
        }),
{
    let row = track_row(sign, kind, i, track, timed);
    let rest = kind + row_number(i) + "  "@;
    text::lemma_occurs_between(Seq::empty(), sign, rest);
    assert(row[0].text =~= sign + rest);
    assert(row[1].text == track.title);
    assert(row[2].text == "  /  "@ + track.artist);
    if timed {
        assert(row[3].text == "  "@ + tui::clock(track.duration_seconds));
    }
}

/// The sign before a track tells whether it is being played or paused; of any other it tells whether
/// its file is missing.
pub proof fn lemma_marker(track: TrackView, other: i64)
    ensures
        marker(track, PlaybackState::Playing, Some(track.id)) == "▶"@,
        marker(track, PlaybackState::Paused, Some(track.id)) == "Ⅱ"@,
        other != track.id && track.available ==> marker(track, PlaybackState::Playing, Some(other))
            == " "@,
        other != track.id && !track.available ==> marker(track, PlaybackState::Playing, Some(other))
            == "!"@,
        !track.available ==> marker(track, PlaybackState::Stopped, None) == "!"@,
{
}

/// The row of an album shows its title, who it is by and how many tracks it has; a sign warns where
/// one of them lacks its file.
pub proof fn lemma_album_line(album: AlbumView)
    ensures
        ({
            let row = album_line(album);
            &&& shows(row, album.title)
            &&& shows(row, "  /  "@ + album.artist)
            &&& exists|i: int|
                0 <= i < row.len() && text::ends_with(
                    (#[trigger] row[i]).text,
                    text::decimal_text(album.track_count as nat) + " tracks"@,
                )
            &&& (row[0].text[0] == '!' <==> album.available_count < album.track_count)
        }),
{
    let row = album_line(album);
    reveal_strlit("!");
    reveal_strlit("▣");
    assert(row[1].text == album.title);
    assert(row[2].text == "  /  "@ + album.artist);
    let count = text::decimal_text(album.track_count as nat);
    assert(row[3].text =~= "  ·  "@ + (count + " tracks"@));
    text::lemma_occurs_between("  ·  "@, count + " tracks"@, Seq::empty());
    assert(text::ends_with(row[3].text, count + " tracks"@));
}

/// The row of a transfer shows what is transferred, its state and what went wrong; the row of a
/// playlist shows its name and how many tracks it has.
pub proof fn lemma_job_and_playlist_lines(job: JobEntryView, i: int, line: (i64, Seq<char>, u64))
    ensures
        shows(job_line(job), job.title),
        text::begins_with(job_line(job)[0].text, text::uppercase_text(job.state)),
        job.error matches Some(error) ==> shows(job_line(job), "  /  "@ + error),
        job.state == "erro"@ ==> job_line(job)[0].tone == Tone::Alarm,
        shows(playlist_line(i, line), line.1),
        shows(
            playlist_line(i, line),
            "  /  "@ + text::decimal_text(line.2 as nat) + " tracks"@,
        ),
        text::begins_with(playlist_line(i, line)[0].text, row_number(i)),
{
    let state = text::uppercase_text(job.state);
    text::lemma_occurs_between(Seq::empty(), state, blanks(12 - state.len()));
    text::lemma_occurs_between(Seq::empty(), row_number(i), "  "@);
    assert(job_line(job)[1].text == job.title);
    if let Some(error) = job.error {
        assert(job_line(job)[2].text == "  /  "@ + error);
    }
    assert(playlist_line(i, line)[1].text == line.1);
    assert(playlist_line(i, line)[2].text == "  /  "@ + text::decimal_text(line.2 as nat)
        + " tracks"@);
    reveal_strlit("erro");
    reveal_strlit("concluido");
    assert("erro"@.len() != "concluido"@.len());
}

/// The panel of a screen shows the list that belongs to it, each member in its row, with the cursor of
/// that list.
pub proof fn lemma_panel_shows_list(app: AppView, i: int)
    requires
        0 <= i,
    ensures
        ({
            let panel = app.panel();
            let (state, current) = (app.playback_state(), app.current_id());
            &&& app.screen == Screen::Search ==> panel.selected == app.search_index
                && panel.rows.len() == app.search_results.len() && (i < app.search_results.len()
                ==> panel.rows[i] == result_row(
                app.search_results[i],
                app.selected_results.contains(i),
            ))
            &&& app.screen == Screen::Suggestions ==> panel.selected == app.suggestion_index
                && panel.rows.len() == app.suggestions.len() && (i < app.suggestions.len()
                ==> panel.rows[i] == result_row(
                app.suggestions[i],
                app.selected_suggestions.contains(i),
            ))
            &&& app.screen == Screen::Library && app.album_detail is None ==> panel.selected
                == app.library_index && panel.rows.len() == app.albums.len() + app.library.len()
            &&& app.screen == Screen::Library && app.album_detail is None && i < app.albums.len()
                ==> panel.rows[i] == album_line(app.albums[i])
            &&& app.screen == Screen::Library && app.album_detail is None && i < app.library.len()
                ==> panel.rows[app.albums.len() as int + i] == track_row(
                marker(app.library[i], state, current),
                " TRACK "@,
                i,
                app.library[i],
                false,
            )
            &&& app.screen == Screen::Library && app.album_detail is Some ==> panel.selected
                == app.album_detail->0.index && panel.rows.len()
                == app.album_detail->0.tracks.len() && (i < app.album_detail->0.tracks.len()
                ==> panel.rows[i] == track_row(
                marker(app.album_detail->0.tracks[i], state, current),
                " "@,
                i,
                app.album_detail->0.tracks[i],
                true,
            ))
            &&& app.screen == Screen::Queue ==> panel.selected == app.queue_index
                && panel.rows.len() == app.queue.len() && (i < app.queue.len() ==> panel.rows[i]
                == track_row(
                if app.current_index == Some(i) {
                    state_sign(state)
                } else {
                    " "@
                },
                " "@,
                i,
                app.queue[i],
                false,
            ))
            &&& app.screen == Screen::Downloads ==> panel.selected == app.job_index
                && panel.rows.len() == app.jobs.len() && (i < app.jobs.len() ==> panel.rows[i]
                == job_line(app.jobs[i]))
            &&& app.screen == Screen::Playlists && app.playlist_detail is None ==> panel.selected
                == app.playlist_index && panel.rows.len() == app.playlists.len() && (i
                < app.playlists.len() ==> panel.rows[i] == playlist_line(i, app.playlists[i]))
            &&& app.screen == Screen::Playlists && app.playlist_detail is Some ==> panel.selected
                == app.playlist_detail->0.index && (i < app.playlist_detail->0.tracks.len()
                ==> panel.rows.len() == app.playlist_detail->0.tracks.len() && panel.rows[i]
                == track_row(
                marker(app.playlist_detail->0.tracks[i], state, current),
                " "@,
                i,
                app.playlist_detail->0.tracks[i],
                false,
            ))
        }),
{
    reveal(AppView::panel);
    reveal(AppView::search_panel);
    reveal(AppView::library_panel);
    reveal(AppView::queue_panel);
    reveal(AppView::jobs_panel);
    reveal(AppView::playlists_panel);
    reveal(AppView::suggestions_panel);
}

/// The title of a panel tells how many members the list has, and the name of what is open.
pub proof fn lemma_panel_titles(app: AppView)
    ensures
        text::ends_with(
            app.search_panel().title,
            text::decimal_text(app.search_results.len()) + " ITEMS "@,
        ),
        text::ends_with(
            app.queue_panel().title,
            text::decimal_text(app.queue.len()) + " TRACKS "@,
        ),
        text::ends_with(app.jobs_panel().title, text::decimal_text(app.jobs.len()) + " JOBS "@),
        text::ends_with(
            app.suggestions_panel().title,
            text::decimal_text(app.suggestions.len()) + " ITEMS "@,
        ),
        app.album_detail matches Some(detail) ==> text::ends_with(
            app.library_panel().title,
            text::decimal_text(detail.tracks.len()) + " TRACKS "@,
        ),
        app.playlist_detail matches Some(detail) ==> text::ends_with(
            app.playlists_panel().title,
            text::decimal_text(detail.tracks.len()) + " TRACKS "@,
        ),
        app.album_detail is None ==> text::ends_with(
            app.library_panel().title,
            text::decimal_text(app.library.len()) + " TRACKS "@,
        ),
        app.playlist_detail is None ==> text::ends_with(
            app.playlists_panel().title,
            text::decimal_text(app.playlists.len()) + " "@,
        ),
{
    reveal(AppView::search_panel);
    reveal(AppView::library_panel);
    reveal(AppView::queue_panel);
    reveal(AppView::jobs_panel);
    reveal(AppView::playlists_panel);
    reveal(AppView::suggestions_panel);
    lemma_ends_in_count(
        " SEARCH / "@ + text::uppercase_text(app.search_title) + " / "@,
        app.search_results.len(),
        " ITEMS "@,
    );
    lemma_ends_in_count(" PLAY QUEUE / "@, app.queue.len(), " TRACKS "@);
    lemma_ends_in_count(" TRANSFERS / "@, app.jobs.len(), " JOBS "@);
    lemma_ends_in_count(" SUGGESTIONS / "@, app.suggestions.len(), " ITEMS "@);
    lemma_ends_in_count(" PLAYLISTS / "@, app.playlists.len(), " "@);
    lemma_ends_in_count(
        " LIBRARY / "@ + text::decimal_text(app.albums.len()) + " ALBUMS + "@,
        app.library.len(),
        " TRACKS "@,
    );
    if let Some(detail) = app.album_detail {
        lemma_ends_in_count(
            " LIBRARY / ALBUM / "@ + text::uppercase_text(detail.album.title) + " / "@,
            detail.tracks.len(),
            " TRACKS "@,
        );
    }
    if let Some(detail) = app.playlist_detail {
        lemma_ends_in_count(
            " PLAYLIST / "@ + text::uppercase_text(detail.name) + " / "@,
            detail.tracks.len(),
            " TRACKS "@,
        );
    }
}

proof fn lemma_ends_in_count(before: Seq<char>, count: nat, after: Seq<char>)
    ensures
        text::ends_with(
            before + text::decimal_text(count) + after,
            text::decimal_text(count) + after,
        ),
{
    let part = text::decimal_text(count) + after;
    let whole = before + text::decimal_text(count) + after;
    let at = before.len() as int;
    assert(whole.subrange(at, at + part.len()) =~= part);
    assert(text::occurs_at(whole, part, whole.len() - part.len()));
}

/// The player is stopped where there is no sound, and paused or playing where there is.
pub proof fn lemma_state_told(app: AppView)
    ensures
        app.playback is None <==> app.playback_state() == PlaybackState::Stopped,
        app.playback matches Some(playback) ==> (playback.paused <==> app.playback_state()
            == PlaybackState::Paused),
{
}

} // verus!
