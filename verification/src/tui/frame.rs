//! What surrounds the workspace: the header, the context, the player, the status line, the help and
//! the notice.

use vstd::prelude::*;

use crate::model::AlbumView;
use crate::model::Album;
use crate::model::TrackView;
use crate::player;
use crate::player::PlaybackState;
use crate::text;
use crate::tui;
use crate::tui::jobs;
use crate::tui::screens;
use crate::tui::screens::Row;
use crate::tui::screens::SpanView;
use crate::tui::screens::Tone;
use crate::tui::screens::WIDE_WORKSPACE;
use crate::tui::App;
use crate::tui::AppView;
use crate::tui::InputMode;
use crate::tui::JobEntry;
use crate::tui::JobEntryView;
use crate::tui::Screen;

verus! {

/// Whether a workspace of this width has the context beside it.
pub fn shows_context(width: u16) -> (result: bool)
    ensures
        result == (width >= WIDE_WORKSPACE),
{
    width >= WIDE_WORKSPACE
}

/// The row of a key and what it does.
pub open spec fn control_row(key: Seq<char>, action: Seq<char>) -> Seq<SpanView> {
    seq![
        screens::span("["@ + key + "]"@, Tone::Key),
        screens::span(" "@ + action, Tone::Muted),
    ]
}

/// The row of a number.
pub open spec fn metric_row(label: Seq<char>, value: nat) -> Seq<SpanView> {
    seq![
        screens::span(screens::left_aligned(label, 17), Tone::Muted),
        screens::span(text::decimal_text(value), Tone::TextBold),
    ]
}

/// A row with one text.
pub open spec fn single_row(words: Seq<char>, tone: Tone) -> Seq<SpanView> {
    seq![screens::span(words, tone)]
}

/// The row of a command in the help.
pub open spec fn help_row(key: Seq<char>, action: Seq<char>) -> Seq<SpanView> {
    seq![
        screens::span("  "@ + screens::left_aligned(key, 13), Tone::Accent),
        screens::span(action, Tone::Text),
    ]
}

/// The tab of a screen.
pub open spec fn tab(key: Seq<char>, label: Seq<char>, active: bool) -> Seq<SpanView> {
    seq![
        screens::span(
            " "@ + key + " "@ + label + " "@,
            if active {
                Tone::Key
            } else {
                Tone::Muted
            },
        ),
        screens::span(" "@, Tone::Plain),
    ]
}

/// How many of the jobs are under way.
pub open spec fn active_jobs(list: Seq<JobEntryView>) -> nat
    decreases list.len(),
{
    if list.len() == 0 {
        0
    } else {
        active_jobs(list.drop_last()) + if jobs::under_way(list.last().state) {
            1nat
        } else {
            0
        }
    }
}

/// How many tracks a list of albums holds, as far as that can be shown.
pub open spec fn album_tracks(albums: Seq<AlbumView>, start: nat) -> nat
    decreases albums.len(),
{
    if albums.len() == 0 {
        start
    } else {
        let before = album_tracks(albums.drop_last(), start);
        if before + albums.last().track_count > u64::MAX {
            u64::MAX as nat
        } else {
            (before + albums.last().track_count) as nat
        }
    }
}

/// The player as it is shown.
pub struct PlayerPanel {
    pub title: String,
    pub track: Row,
    /// How far the track has been played, and how long it is.
    pub time: String,
    /// The part of the track that has been played, in seconds.
    pub elapsed: u64,
    /// The whole track in seconds; zero where that is not known.
    pub whole: u64,
    pub sound: String,
    pub controls: Row,
}

/// The view of a [`PlayerPanel`].
#[verifier::ext_equal]
pub struct PlayerPanelView {
    pub title: Seq<char>,
    pub track: Seq<SpanView>,
    pub time: Seq<char>,
    pub elapsed: u64,
    pub whole: u64,
    pub sound: Seq<char>,
    pub controls: Seq<SpanView>,
}

impl View for PlayerPanel {
    type V = PlayerPanelView;

    open spec fn view(&self) -> PlayerPanelView {
        PlayerPanelView {
            title: self.title@,
            track: self.track@,
            time: self.time@,
            elapsed: self.elapsed,
            whole: self.whole,
            sound: self.sound@,
            controls: self.controls@,
        }
    }
}

/// The word for a playback state.
pub open spec fn state_word(state: PlaybackState) -> Seq<char> {
    match state {
        PlaybackState::Playing => "PLAYING"@,
        PlaybackState::Paused => "PAUSED"@,
        PlaybackState::Stopped => "STOPPED"@,
    }
}

/// The sign of a playback state and its tone.
pub open spec fn state_span(state: PlaybackState) -> SpanView {
    match state {
        PlaybackState::Playing => screens::span(" ▶ "@, Tone::AccentBold),
        PlaybackState::Paused => screens::span(" Ⅱ "@, Tone::CautionBold),
        PlaybackState::Stopped => screens::span(" ■ "@, Tone::MutedBold),
    }
}

impl AppView {
    /// The line with the name of the program.
    pub open spec fn banner(self) -> Seq<SpanView> {
        seq![
            screens::span(" EZMUSIC // "@, Tone::AccentBold),
            screens::span("LOCAL AUDIO RESEARCH CONSOLE"@, Tone::Muted),
        ]
    }

    /// Whether one can go back on the screen that is shown.
    pub open spec fn can_go_back(self) -> bool {
        ||| self.screen == Screen::Search && self.search_history.len() > 0
        ||| self.screen == Screen::Library && self.album_detail is Some
        ||| self.screen == Screen::Playlists && self.playlist_detail is Some
    }

    /// The tabs.
    #[verifier::opaque]
    pub open spec fn navigation(self) -> Seq<SpanView> {
        tab("1"@, "SEARCH"@, self.screen == Screen::Search) + tab(
            "2"@,
            "LIBRARY"@,
            self.screen == Screen::Library,
        ) + tab("3"@, "QUEUE"@, self.screen == Screen::Queue) + tab(
            "4"@,
            "TRANSFERS"@,
            self.screen == Screen::Downloads,
        ) + tab("5"@, "PLAYLISTS"@, self.screen == Screen::Playlists) + tab(
            "6"@,
            "SUGGESTIONS"@,
            self.screen == Screen::Suggestions,
        ) + if self.can_go_back() {
            single_row(" ← ESC BACK "@, Tone::AccentBold)
        } else {
            Seq::empty()
        }
    }

    /// How often the device found too few samples.
    pub open spec fn underruns(self) -> u64 {
        match self.playback {
            None => 0,
            Some(playback) => playback.underflows,
        }
    }

    /// The rows of the context.
    #[verifier::opaque]
    pub open spec fn context(self) -> Seq<Seq<SpanView>> {
        seq![
            single_row("SYSTEM"@, Tone::Accent),
            Seq::empty(),
            metric_row("library"@, album_tracks(self.albums, self.library.len())),
            metric_row("queue"@, self.queue.len()),
            metric_row("active jobs"@, active_jobs(self.jobs)),
            metric_row("audio underruns"@, self.underruns() as nat),
            Seq::empty(),
            single_row("CONTROL SURFACE"@, Tone::Accent),
            Seq::empty(),
            control_row("SPACE/P"@, "pause / resume"@),
            control_row("Z"@, "stop"@),
            control_row("B/N"@, "previous / next"@),
            control_row("←/→"@, "seek 5 seconds"@),
            control_row("+/-"@, "volume"@),
            control_row("?"@, "command map"@),
            control_row("ESC"@, "back from collection"@),
            control_row("A"@, "full album"@),
        ]
    }

    /// The track that is played or paused.
    pub open spec fn current_track(self) -> Option<TrackView> {
        match self.current_index {
            Some(index) => if 0 <= index < self.queue.len() {
                Some(self.queue[index])
            } else {
                None
            },
            None => None,
        }
    }

    /// How far the track has been played, in seconds.
    pub open spec fn seconds_played(self) -> u64 {
        match self.playback {
            None => 0,
            Some(playback) => (player::frames_to_millis(
                playback.position_frames,
                playback.sample_rate,
            ) / 1000) as u64,
        }
    }

    /// How long the track at hand is.
    pub open spec fn track_length(self) -> Option<u64> {
        match self.current_track() {
            Some(track) => track.duration_seconds,
            None => None,
        }
    }

    /// The line with the track at hand.
    #[verifier::opaque]
    pub open spec fn track_line(self) -> Seq<SpanView> {
        match self.current_track() {
            Some(track) => seq![
                state_span(self.playback_state()),
                screens::span(track.title, Tone::TextBold),
                screens::span(
                    if track.artist.len() == 0 {
                        ""@
                    } else {
                        "  /  "@ + track.artist
                    },
                    Tone::Muted,
                ),
            ],
            None => seq![
                state_span(self.playback_state()),
                screens::span("No active track"@, Tone::TextBold),
                screens::span(""@, Tone::Muted),
            ],
        }
    }

    /// The line with the volume and the modes.
    #[verifier::opaque]
    pub open spec fn sound_line(self) -> Seq<char> {
        " volume "@ + screens::right_aligned(
            text::decimal_text(
                match self.playback {
                    None => player::DEFAULT_VOLUME as nat,
                    Some(playback) => playback.volume as nat,
                },
            ),
            3,
        ) + "%   shuffle "@ + screens::left_aligned(
            if self.shuffle {
                "on"@
            } else {
                "off"@
            },
            3,
        ) + "   repeat "@ + screens::left_aligned(self.repeat.word(), 5) + "   underruns "@
            + text::decimal_text(self.underruns() as nat)
    }

    /// The line with the keys of the player.
    #[verifier::opaque]
    pub open spec fn player_keys(self) -> Seq<SpanView> {
        seq![
            screens::span("[SPACE/P]"@, Tone::Key),
            screens::span(
                if self.playback_state() == PlaybackState::Paused {
                    " RESUME   "@
                } else {
                    " PAUSE   "@
                },
                Tone::Text,
            ),
            screens::span("[Z]"@, Tone::Key),
            screens::span(" STOP   "@, Tone::Text),
            screens::span("[B/N]"@, Tone::Key),
            screens::span(" PREV/NEXT   "@, Tone::Text),
            screens::span("[←/→]"@, Tone::Key),
            screens::span(" SEEK"@, Tone::Text),
        ]
    }

    /// The player.
    #[verifier::opaque]
    pub open spec fn player_panel(self) -> PlayerPanelView {
        let position = self.seconds_played();
        let whole = match self.track_length() {
            Some(length) => length,
            None => 0,
        };
        PlayerPanelView {
            title: " NOW PLAYING / "@ + state_word(self.playback_state()) + " "@,
            track: self.track_line(),
            time: tui::clock(Some(position)) + " / "@ + tui::clock(self.track_length()),
            elapsed: if position < whole {
                position
            } else {
                whole
            },
            whole,
            sound: self.sound_line(),
            controls: self.player_keys(),
        }
    }

    /// The status line.
    #[verifier::opaque]
    pub open spec fn status_line(self) -> Seq<SpanView> {
        let mode = match self.input_mode {
            InputMode::Idle => if self.busy {
                screens::span(" WORKING "@, Tone::CautionBold)
            } else {
                screens::span(" READY "@, Tone::AccentBold)
            },
            InputMode::Search => screens::span(" QUERY "@, Tone::AccentBold),
            InputMode::LibraryFilter => screens::span(" FILTER "@, Tone::AccentBold),
            InputMode::Import => screens::span(" IMPORT "@, Tone::AccentBold),
            InputMode::Playlist { .. } => screens::span(" PLAYLIST "@, Tone::AccentBold),
        };
        seq![
            mode,
            screens::span(
                " "@ + if self.input_mode == InputMode::Idle {
                    self.status
                } else {
                    self.input + "█"@
                },
                Tone::Text,
            ),
            screens::span("   [?] commands"@, Tone::Muted),
        ]
    }
}

/// The rows of the help.
pub open spec fn help_shown() -> Seq<Seq<SpanView>> {
    seq![
        single_row("COMMAND MAP"@, Tone::AccentBold),
        Seq::empty(),
        help_row("SPACE / p"@, "pause or resume the active track"@),
        help_row("z"@, "stop playback and release the audio stream"@),
        help_row("Enter"@, "open album/playlist or play selected track"@),
        help_row("A"@, "play an opened album or playlist from the beginning"@),
        help_row("P"@, "add a library/album track to a playlist"@),
        help_row("x / Delete"@, "remove selected queue/playlist entry"@),
        help_row("b / n"@, "previous / next track"@),
        help_row("← / →"@, "seek backward / forward 5 seconds"@),
        help_row("+ / -"@, "change volume by 5%"@),
        help_row("s / r"@, "cycle shuffle / repeat"@),
        Seq::empty(),
        help_row("1 ... 6"@, "switch workspace"@),
        help_row("j / k"@, "move selection"@),
        help_row("/"@, "search online; in Library, filter collections"@),
        help_row("Esc / Backspace"@, "return from an opened album or playlist"@),
        help_row("A"@, "download the complete album or playlist"@),
        help_row("R"@, "refresh the suggestions"@),
        help_row("I"@, "import a local audio directory"@),
        help_row("q / Ctrl-C"@, "quit EzMusic"@),
        Seq::empty(),
        single_row("Press ?, Esc or Enter to close"@, Tone::Muted),
    ]
}

/// The rows of the notice.
pub open spec fn notice_shown() -> Seq<Seq<SpanView>> {
    seq![
        single_row("RESPONSIBLE DOWNLOAD NOTICE"@, Tone::AccentBold),
        Seq::empty(),
        single_row("Download only content you are authorized to obtain."@, Tone::Plain),
        single_row("EzMusic does not bypass DRM and accesses public content only."@, Tone::Plain),
        single_row("yt-dlp and FFmpeg are provisioned only on first online use."@, Tone::Plain),
        Seq::empty(),
        seq![
            screens::span("[ENTER]"@, Tone::Key),
            screens::span(" ACCEPT    "@, Tone::Text),
            screens::span("[Q / ESC]"@, Tone::Key),
            screens::span(" EXIT"@, Tone::Text),
        ],
    ]
}

fn blank() -> (result: Row)
    ensures
        result@ == Seq::<SpanView>::empty(),
{
    Row::new()
}

fn line(words: &str, tone: Tone) -> (result: Row)
    ensures
        result@ == single_row(words@, tone),
{
    let mut row = Row::new();
    row.say(words, tone);
    assert(row@ =~= single_row(words@, tone));
    row
}

fn metric(label: &str, value: u64) -> (result: Row)
    ensures
        result@ == metric_row(label@, value as nat),
{
    let mut row = Row::new();
    row.put(screens::align_left(label, 17), Tone::Muted);
    row.put(text::decimal(value), Tone::TextBold);
    assert(row@ =~= metric_row(label@, value as nat));
    row
}

fn control(key: &str, action: &str) -> (result: Row)
    ensures
        result@ == control_row(key@, action@),
{
    let mut row = Row::new();
    row.put(screens::wrapped("[", key, "]"), Tone::Key);
    row.put(screens::joined(" ", action), Tone::Muted);
    assert(row@ =~= control_row(key@, action@));
    row
}

fn command(key: &str, action: &str) -> (result: Row)
    ensures
        result@ == help_row(key@, action@),
{
    let mut row = Row::new();
    row.put(screens::joined("  ", screens::align_left(key, 13).as_str()), Tone::Accent);
    row.say(action, Tone::Text);
    assert(row@ =~= help_row(key@, action@));
    row
}

fn add_row(rows: &mut Vec<Row>, row: Row)
    ensures
        text::views(final(rows)@) == text::views(old(rows)@).push(row@),
{
    rows.push(row);
    assert(text::views(rows@) =~= text::views(old(rows)@).push(row@));
}

fn add_tab(row: &mut Row, key: &str, label: &str, active: bool)
    ensures
        final(row)@ == old(row)@ + tab(key@, label@, active),
{
    let name = screens::joined(screens::wrapped(" ", key, " ").as_str(), label);
    row.put(
        screens::joined(name.as_str(), " "),
        if active {
            Tone::Key
        } else {
            Tone::Muted
        },
    );
    row.say(" ", Tone::Plain);
    assert(row@ =~= old(row)@ + tab(key@, label@, active));
}

fn no_rows() -> (result: Vec<Row>)
    ensures
        text::views(result@) == Seq::<Seq<SpanView>>::empty(),
{
    let rows: Vec<Row> = Vec::new();
    assert(text::views(rows@) =~= Seq::<Seq<SpanView>>::empty());
    rows
}

fn count_active(list: &Vec<JobEntry>) -> (result: usize)
    ensures
        result == active_jobs(text::views(list@)),
{
    let ghost all = text::views(list@);
    let mut count: usize = 0;
    let mut i: usize = 0;
    while i < list.len()
        invariant
            all == text::views(list@),
            i <= list@.len(),
            count <= i,
            count == active_jobs(all.take(i as int)),
        decreases list@.len() - i,
    {
        proof {
            assert(all.take(i + 1).drop_last() =~= all.take(i as int));
            assert(all[i as int] == list@[i as int]@);
        }
        if jobs::is_under_way(list[i].state.as_str()) {
            count += 1;
        }
        i += 1;
    }
    assert(all.take(all.len() as int) =~= all);
    count
}

fn count_tracks(albums: &Vec<Album>, start: u64) -> (result: u64)
    ensures
        result == album_tracks(text::views(albums@), start as nat),
{
    let ghost all = text::views(albums@);
    let mut count: u64 = start;
    let mut i: usize = 0;
    while i < albums.len()
        invariant
            all == text::views(albums@),
            i <= albums@.len(),
            count == album_tracks(all.take(i as int), start as nat),
        decreases albums@.len() - i,
    {
        proof {
            assert(all.take(i + 1).drop_last() =~= all.take(i as int));
            assert(all[i as int] == albums@[i as int]@);
        }
        let more: u64 = albums[i].track_count;
        count = if count > u64::MAX - more {
            u64::MAX
        } else {
            count + more
        };
        i += 1;
    }
    assert(all.take(all.len() as int) =~= all);
    count
}

/// The rows of the help.
pub fn help_rows() -> (result: Vec<Row>)
    ensures
        text::views(result@) == help_shown(),
{
    let mut rows = no_rows();
    add_row(&mut rows, line("COMMAND MAP", Tone::AccentBold));
    add_row(&mut rows, blank());
    add_row(&mut rows, command("SPACE / p", "pause or resume the active track"));
    add_row(&mut rows, command("z", "stop playback and release the audio stream"));
    add_row(&mut rows, command("Enter", "open album/playlist or play selected track"));
    add_row(&mut rows, command("A", "play an opened album or playlist from the beginning"));
    add_row(&mut rows, command("P", "add a library/album track to a playlist"));
    add_row(&mut rows, command("x / Delete", "remove selected queue/playlist entry"));
    add_row(&mut rows, command("b / n", "previous / next track"));
    add_row(&mut rows, command("← / →", "seek backward / forward 5 seconds"));
    add_row(&mut rows, command("+ / -", "change volume by 5%"));
    add_row(&mut rows, command("s / r", "cycle shuffle / repeat"));
    add_row(&mut rows, blank());
    add_row(&mut rows, command("1 ... 6", "switch workspace"));
    add_row(&mut rows, command("j / k", "move selection"));
    add_row(&mut rows, command("/", "search online; in Library, filter collections"));
    add_row(&mut rows, command("Esc / Backspace", "return from an opened album or playlist"));
    add_row(&mut rows, command("A", "download the complete album or playlist"));
    add_row(&mut rows, command("R", "refresh the suggestions"));
    add_row(&mut rows, command("I", "import a local audio directory"));
    add_row(&mut rows, command("q / Ctrl-C", "quit EzMusic"));
    add_row(&mut rows, blank());
    add_row(&mut rows, line("Press ?, Esc or Enter to close", Tone::Muted));
    assert(text::views(rows@) =~= help_shown());
    rows
}

/// The rows of the notice.
pub fn notice_rows() -> (result: Vec<Row>)
    ensures
        text::views(result@) == notice_shown(),
{
    let mut rows = no_rows();
    add_row(&mut rows, line("RESPONSIBLE DOWNLOAD NOTICE", Tone::AccentBold));
    add_row(&mut rows, blank());
    add_row(&mut rows, line("Download only content you are authorized to obtain.", Tone::Plain));
    add_row(
        &mut rows,
        line("EzMusic does not bypass DRM and accesses public content only.", Tone::Plain),
    );
    add_row(
        &mut rows,
        line("yt-dlp and FFmpeg are provisioned only on first online use.", Tone::Plain),
    );
    add_row(&mut rows, blank());
    let mut keys = Row::new();
    keys.say("[ENTER]", Tone::Key);
    keys.say(" ACCEPT    ", Tone::Text);
    keys.say("[Q / ESC]", Tone::Key);
    keys.say(" EXIT", Tone::Text);
    assert(keys@ =~= notice_shown()[6]);
    add_row(&mut rows, keys);
    assert(text::views(rows@) =~= notice_shown());
    rows
}

impl App {
    /// The line with the name of the program.
    pub fn banner(&self) -> (result: Row)
        ensures
            result@ == self@.banner(),
    {
        let mut row = Row::new();
        row.say(" EZMUSIC // ", Tone::AccentBold);
        row.say("LOCAL AUDIO RESEARCH CONSOLE", Tone::Muted);
        assert(row@ =~= self@.banner());
        row
    }

    /// The tabs.
    pub fn navigation(&self) -> (result: Row)
        ensures
            result@ == self@.navigation(),
    {
        reveal(AppView::navigation);
        let mut row = Row::new();
        add_tab(&mut row, "1", "SEARCH", self.screen == Screen::Search);
        add_tab(&mut row, "2", "LIBRARY", self.screen == Screen::Library);
        add_tab(&mut row, "3", "QUEUE", self.screen == Screen::Queue);
        add_tab(&mut row, "4", "TRANSFERS", self.screen == Screen::Downloads);
        add_tab(&mut row, "5", "PLAYLISTS", self.screen == Screen::Playlists);
        add_tab(&mut row, "6", "SUGGESTIONS", self.screen == Screen::Suggestions);
        if (self.screen == Screen::Search && self.search_history.len() > 0) || (self.screen
            == Screen::Library && self.album_detail.is_some()) || (self.screen
            == Screen::Playlists && self.playlist_detail.is_some()) {
            row.say(" ← ESC BACK ", Tone::AccentBold);
        }
        assert(row@ =~= self@.navigation());
        row
    }

    /// The rows of the context.
    pub fn context(&self) -> (result: Vec<Row>)
        ensures
            text::views(result@) == self@.context(),
    {
        reveal(AppView::context);
        let tracks: u64 = count_tracks(&self.albums, self.library.len() as u64);
        let mut rows = no_rows();
        add_row(&mut rows, line("SYSTEM", Tone::Accent));
        add_row(&mut rows, blank());
        add_row(&mut rows, metric("library", tracks));
        add_row(&mut rows, metric("queue", self.queue.len() as u64));
        add_row(&mut rows, metric("active jobs", count_active(&self.jobs) as u64));
        add_row(&mut rows, metric("audio underruns", self.player.underflows()));
        add_row(&mut rows, blank());
        add_row(&mut rows, line("CONTROL SURFACE", Tone::Accent));
        add_row(&mut rows, blank());
        add_row(&mut rows, control("SPACE/P", "pause / resume"));
        add_row(&mut rows, control("Z", "stop"));
        add_row(&mut rows, control("B/N", "previous / next"));
        add_row(&mut rows, control("←/→", "seek 5 seconds"));
        add_row(&mut rows, control("+/-", "volume"));
        add_row(&mut rows, control("?", "command map"));
        add_row(&mut rows, control("ESC", "back from collection"));
        add_row(&mut rows, control("A", "full album"));
        assert(text::views(rows@) =~= self@.context());
        rows
    }

    fn played(&self) -> (result: u64)
        requires
            self@.well_formed(),
        ensures
            result == self@.seconds_played(),
    {
        match self.player.current {
            None => 0,
            Some(playback) => {
                let frames: u64 = playback.position_frames;
                let rate: u32 = playback.sample_rate;
                let millis: u128 = frames as u128 * 1000 / rate as u128;
                proof {
                    vstd::arithmetic::div_mod::lemma_div_is_ordered_by_denominator(
                        frames as int * 1000,
                        1,
                        rate as int,
                    );
                }
                (millis / 1000) as u64
            },
        }
    }

    fn track_row(&self) -> (result: Row)
        requires
            self@.well_formed(),
        ensures
            result@ == self@.track_line(),
    {
        reveal(AppView::track_line);
        let mut row = Row::new();
        match self.player.state() {
            PlaybackState::Playing => {
                row.say(" ▶ ", Tone::AccentBold);
            },
            PlaybackState::Paused => {
                row.say(" Ⅱ ", Tone::CautionBold);
            },
            PlaybackState::Stopped => {
                row.say(" ■ ", Tone::MutedBold);
            },
        }
        match self.current_index {
            Some(index) => {
                assert(self@.queue[index as int] == self.queue@[index as int]@);
                row.say(self.queue[index].title.as_str(), Tone::TextBold);
                if self.queue[index].artist.as_str().is_empty() {
                    row.say("", Tone::Muted);
                } else {
                    row.put(
                        screens::joined("  /  ", self.queue[index].artist.as_str()),
                        Tone::Muted,
                    );
                }
            },
            None => {
                row.say("No active track", Tone::TextBold);
                row.say("", Tone::Muted);
            },
        }
        assert(row@ =~= self@.track_line());
        row
    }

    fn sound_text(&self) -> (result: String)
        ensures
            result@ == self@.sound_line(),
    {
        reveal(AppView::sound_line);
        let volume = text::decimal(self.player.volume() as u64);
        let mut words = screens::wrapped(
            " volume ",
            screens::align_right(volume.as_str(), 3).as_str(),
            "%   shuffle ",
        );
        words.push_str(
            screens::align_left(
                if self.shuffle {
                    "on"
                } else {
                    "off"
                },
                3,
            ).as_str(),
        );
        words.push_str("   repeat ");
        words.push_str(screens::align_left(self.repeat.label(), 5).as_str());
        words.push_str("   underruns ");
        words.push_str(text::decimal(self.player.underflows()).as_str());
        words
    }

    fn key_row(&self) -> (result: Row)
        ensures
            result@ == self@.player_keys(),
    {
        reveal(AppView::player_keys);
        let mut row = Row::new();
        row.say("[SPACE/P]", Tone::Key);
        if self.player.state() == PlaybackState::Paused {
            row.say(" RESUME   ", Tone::Text);
        } else {
            row.say(" PAUSE   ", Tone::Text);
        }
        row.say("[Z]", Tone::Key);
        row.say(" STOP   ", Tone::Text);
        row.say("[B/N]", Tone::Key);
        row.say(" PREV/NEXT   ", Tone::Text);
        row.say("[←/→]", Tone::Key);
        row.say(" SEEK", Tone::Text);
        assert(row@ =~= self@.player_keys());
        row
    }

    /// The player.
    pub fn player_panel(&self) -> (result: PlayerPanel)
        requires
            self@.well_formed(),
        ensures
            result@ == self@.player_panel(),
    {
        reveal(AppView::player_panel);
        let word = match self.player.state() {
            PlaybackState::Playing => "PLAYING",
            PlaybackState::Paused => "PAUSED",
            PlaybackState::Stopped => "STOPPED",
        };
        let length = match self.current_index {
            Some(index) => {
                assert(self@.queue[index as int] == self.queue@[index as int]@);
                self.queue[index].duration_seconds
            },
            None => None,
        };
        let position: u64 = self.played();
        let whole: u64 = match length {
            Some(seconds) => seconds,
            None => 0,
        };
        PlayerPanel {
            title: screens::wrapped(" NOW PLAYING / ", word, " "),
            track: self.track_row(),
            time: screens::wrapped(
                tui::duration_label(Some(position)).as_str(),
                " / ",
                tui::duration_label(length).as_str(),
            ),
            elapsed: if position < whole {
                position
            } else {
                whole
            },
            whole,
            sound: self.sound_text(),
            controls: self.key_row(),
        }
    }

    /// The status line.
    pub fn status_row(&self) -> (result: Row)
        ensures
            result@ == self@.status_line(),
    {
        reveal(AppView::status_line);
        let mut row = Row::new();
        match self.input_mode {
            InputMode::Idle => {
                if self.busy {
                    row.say(" WORKING ", Tone::CautionBold);
                } else {
                    row.say(" READY ", Tone::AccentBold);
                }
            },
            InputMode::Search => {
                row.say(" QUERY ", Tone::AccentBold);
            },
            InputMode::LibraryFilter => {
                row.say(" FILTER ", Tone::AccentBold);
            },
            InputMode::Import => {
                row.say(" IMPORT ", Tone::AccentBold);
            },
            InputMode::Playlist { .. } => {
                row.say(" PLAYLIST ", Tone::AccentBold);
            },
        }
        if self.input_mode == InputMode::Idle {
            row.put(screens::joined(" ", self.status.as_str()), Tone::Text);
        } else {
            let typed = screens::joined(self.input.as_str(), "█");
            row.put(screens::joined(" ", typed.as_str()), Tone::Text);
        }
        row.say("   [?] commands", Tone::Muted);
        assert(row@ =~= self@.status_line());
        row
    }
}

/// The jobs under way are counted one by one, wherever they stand in the list.
pub proof fn lemma_jobs_counted(a: Seq<JobEntryView>, b: Seq<JobEntryView>, job: JobEntryView)
    ensures
        active_jobs(Seq::<JobEntryView>::empty()) == 0,
        active_jobs(a + b) == active_jobs(a) + active_jobs(b),
        jobs::under_way(job.state) ==> active_jobs(seq![job]) == 1,
        !jobs::under_way(job.state) ==> active_jobs(seq![job]) == 0,
    decreases b.len(),
{
    reveal_with_fuel(active_jobs, 2);
    assert(seq![job].drop_last() =~= Seq::<JobEntryView>::empty());
    if b.len() > 0 {
        lemma_jobs_counted(a, b.drop_last(), job);
        assert((a + b).drop_last() =~= a + b.drop_last());
    } else {
        assert(a + b =~= a);
    }
}

/// The tracks of the library are those without an album and those of every album.
pub proof fn lemma_tracks_counted(albums: Seq<AlbumView>, album: AlbumView, start: nat)
    requires
        album_tracks(albums, start) + album.track_count <= u64::MAX,
    ensures
        album_tracks(Seq::empty(), start) == start,
        album_tracks(albums.push(album), start) == album_tracks(albums, start) + album.track_count,
{
    assert(albums.push(album).drop_last() =~= albums);
}

/// The tab of the screen that is shown is the one that stands out.
pub proof fn lemma_open_tab(app: AppView)
    ensures
        ({
            let tabs = app.navigation();
            &&& tabs.len() >= 12
            &&& (tabs[0].tone == Tone::Key <==> app.screen == Screen::Search)
            &&& (tabs[2].tone == Tone::Key <==> app.screen == Screen::Library)
            &&& (tabs[4].tone == Tone::Key <==> app.screen == Screen::Queue)
            &&& (tabs[6].tone == Tone::Key <==> app.screen == Screen::Downloads)
            &&& (tabs[8].tone == Tone::Key <==> app.screen == Screen::Playlists)
            &&& (tabs[10].tone == Tone::Key <==> app.screen == Screen::Suggestions)
            &&& (tabs.len() > 12 <==> app.can_go_back())
        }),
        app.can_go_back() <==> match app.screen {
            Screen::Search => app.search_history.len() > 0,
            Screen::Library => app.album_detail is Some,
            Screen::Playlists => app.playlist_detail is Some,
            _ => false,
        },
{
    reveal(AppView::navigation);
}

/// The player shows the track at hand with its title and who it is by, the time that was played and
/// how long it takes, the part never being more than the whole.
pub proof fn lemma_player_shown(app: AppView, track: TrackView)
    requires
        app.current_index is Some,
        0 <= app.current_index->0 < app.queue.len(),
        app.queue[app.current_index->0] == track,
    ensures
        ({
            let panel = app.player_panel();
            &&& screens::shows(panel.track, track.title)
            &&& track.artist.len() > 0 ==> screens::shows(panel.track, "  /  "@ + track.artist)
            &&& panel.time == tui::clock(Some(app.seconds_played())) + " / "@ + tui::clock(
                track.duration_seconds,
            )
            &&& panel.elapsed <= panel.whole
            &&& track.duration_seconds matches Some(length) ==> panel.whole == length && (
            app.seconds_played() <= length ==> panel.elapsed == app.seconds_played())
            &&& panel.track[0] == state_span(app.playback_state())
            &&& panel.title == " NOW PLAYING / "@ + state_word(app.playback_state()) + " "@
        }),
{
    reveal(AppView::player_panel);
    reveal(AppView::track_line);
    let line = app.track_line();
    assert(line[1].text == track.title);
    if track.artist.len() > 0 {
        assert(line[2].text == "  /  "@ + track.artist);
    }
}

/// The time that was played is that of the frames that were played.
pub proof fn lemma_time_played(app: AppView, seconds: nat)
    requires
        app.playback is Some,
        app.playback->0.sample_rate > 0,
        1000 * seconds * app.playback->0.sample_rate <= u64::MAX,
        1000 * seconds <= u64::MAX,
        app.playback->0.position_frames == seconds * app.playback->0.sample_rate,
    ensures
        app.seconds_played() == seconds,
{
    player::lemma_time_of_frames(seconds, app.playback->0.sample_rate);
}

/// The line on the sound tells the volume, and whether tracks are shuffled and repeated.
pub proof fn lemma_sound_told(app: AppView)
    ensures
        ({
            let volume = match app.playback {
                None => 80nat,
                Some(playback) => playback.volume as nat,
            };
            let shuffled = if app.shuffle {
                "on"@
            } else {
                "off"@
            };
            app.sound_line() == " volume "@ + screens::right_aligned(text::decimal_text(volume), 3)
                + "%   shuffle "@ + screens::left_aligned(shuffled, 3) + "   repeat "@
                + screens::left_aligned(app.repeat.word(), 5) + "   underruns "@
                + text::decimal_text(
                match app.playback {
                    None => 0nat,
                    Some(playback) => playback.underflows as nat,
                },
            )
        }),
{
    reveal(AppView::sound_line);
}

/// The status line shows what was said last, and what is typed while something is; it tells whether
/// work goes on in the background.
pub proof fn lemma_status_shown(app: AppView)
    ensures
        ({
            let line = app.status_line();
            &&& app.input_mode == InputMode::Idle ==> line[1].text == " "@ + app.status
            &&& app.input_mode != InputMode::Idle ==> line[1].text == " "@ + (app.input + "█"@)
            &&& app.input_mode == InputMode::Idle ==> (line[0].text == " WORKING "@ <==> app.busy)
            &&& app.input_mode == InputMode::Search ==> line[0].text == " QUERY "@
            &&& app.input_mode == InputMode::LibraryFilter ==> line[0].text == " FILTER "@
            &&& app.input_mode == InputMode::Import ==> line[0].text == " IMPORT "@
            &&& app.input_mode is Playlist ==> line[0].text == " PLAYLIST "@
        }),
{
    reveal(AppView::status_line);
    reveal_strlit(" WORKING ");
    reveal_strlit(" READY ");
    assert(" WORKING "@.len() != " READY "@.len());
}

/// The context tells how many tracks the library and the queue hold, and how many jobs are under way.
pub proof fn lemma_context_shown(app: AppView)
    ensures
        ({
            let rows = app.context();
            &&& rows[2] == metric_row("library"@, album_tracks(app.albums, app.library.len()))
            &&& rows[3] == metric_row("queue"@, app.queue.len())
            &&& rows[4] == metric_row("active jobs"@, active_jobs(app.jobs))
            &&& rows[5] == metric_row("audio underruns"@, app.underruns() as nat)
        }),
        forall|label: Seq<char>, value: nat|
            (#[trigger] metric_row(label, value))[1].text == text::decimal_text(value),
        forall|label: Seq<char>, value: nat|
            text::begins_with((#[trigger] metric_row(label, value))[0].text, label),
{
    reveal(AppView::context);
    assert forall|label: Seq<char>, value: nat| text::begins_with(
        (#[trigger] metric_row(label, value))[0].text,
        label,
    ) by {
        text::lemma_occurs_between(Seq::empty(), label, screens::blanks(17 - label.len()));
    }
}

} // verus!
