//! What a key does.

use vstd::prelude::*;

use crate::selection;
use crate::selection::Selection;
use crate::text;
use crate::tui;
use crate::tui::Action;
use crate::tui::ActionView;
use crate::tui::AlbumDetailView;
use crate::tui::App;
use crate::tui::AppView;
use crate::tui::InputMode;
use crate::tui::PlaylistDetailView;
use crate::tui::Screen;
use crate::tui::MAX_PATH_INPUT_CHARS;
use crate::tui::MAX_PLAYLIST_NAME_CHARS;
use crate::tui::MAX_SEARCH_INPUT_CHARS;

verus! {

/// A key of the keyboard.
#[derive(Clone, Copy, PartialEq, Eq, Structural, Debug)]
pub enum KeyCode {
    Char(char),
    Enter,
    Esc,
    Backspace,
    Delete,
    Up,
    Down,
    Left,
    Right,
    /// Any other key.
    Other,
}

/// A key with the keys that are held with it.
#[derive(Clone, Copy, PartialEq, Eq, Structural, Debug)]
pub struct KeyEvent {
    pub code: KeyCode,
    pub control: bool,
    pub alt: bool,
}

impl KeyEvent {
    /// A key that is pressed alone.
    pub fn plain(code: KeyCode) -> (result: Self)
        ensures
            result == (KeyEvent { code, control: false, alt: false }),
    {
        KeyEvent { code, control: false, alt: false }
    }
}

/// What a terminal reports.
#[derive(Clone, Copy, PartialEq, Eq, Structural, Debug)]
pub enum TerminalEvent {
    /// A key goes down, or is held.
    Press(KeyEvent),
    /// A key comes up.
    Release(KeyEvent),
    /// Anything else.
    Other,
}

impl AppView {
    /// Starting to type.
    #[verifier::opaque]
    pub open spec fn typing(self, mode: InputMode) -> AppView {
        AppView { input_mode: mode, input: Seq::empty(), ..self }
    }

    /// The same on another screen.
    #[verifier::opaque]
    pub open spec fn on_screen(self, screen: Screen) -> AppView {
        AppView { screen, ..self }
    }

    /// The end of the session.
    #[verifier::opaque]
    pub open spec fn quitting(self) -> AppView {
        AppView { should_quit: true, ..self }
    }

    /// The help shown, or not.
    #[verifier::opaque]
    pub open spec fn helping(self, shown: bool) -> AppView {
        AppView { show_help: shown, ..self }
    }

    /// What a key does while the notice is shown.
    #[verifier::opaque]
    pub open spec fn notice_key(self, code: KeyCode) -> AppView {
        if code == KeyCode::Enter {
            self.asked(ActionView::AcceptNotice)
        } else if code == KeyCode::Char('q') || code == KeyCode::Esc {
            self.quitting()
        } else {
            self
        }
    }

    /// What came of keeping that the notice was accepted.
    #[verifier::opaque]
    pub open spec fn notice_answered(self, result: Result<(), Seq<char>>) -> AppView {
        match result {
            Ok(()) => AppView { show_notice: false, ..self },
            Err(message) => self.said("Falha ao salvar aceite: "@ + message),
        }
    }

    /// What a key does while the help is shown.
    #[verifier::opaque]
    pub open spec fn help_key(self, code: KeyCode) -> AppView {
        if code == KeyCode::Char('?') || code == KeyCode::Esc || code == KeyCode::Enter {
            self.helping(false)
        } else if code == KeyCode::Char('q') {
            self.quitting()
        } else {
            self
        }
    }

    /// What was typed is used.
    #[verifier::opaque]
    pub open spec fn submitted(self) -> AppView {
        match self.input_mode {
            InputMode::Search => self.search_submitted(),
            InputMode::LibraryFilter => self.filtered(),
            InputMode::Import => self.import_submitted(),
            InputMode::Playlist { track_id } => self.playlist_submitted(track_id),
            InputMode::Idle => self,
        }
    }

    /// One more character.
    #[verifier::opaque]
    pub open spec fn typed(self, c: char) -> AppView {
        if self.input.len() < self.input_mode.limit() {
            AppView { input: self.input.push(c), ..self }
        } else {
            self
        }
    }

    /// One character less.
    #[verifier::opaque]
    pub open spec fn erased(self) -> AppView {
        if self.input.len() > 0 {
            AppView { input: self.input.drop_last(), ..self }
        } else {
            self
        }
    }

    /// What a key does while something is typed.
    #[verifier::opaque]
    pub open spec fn input_key(self, key: KeyEvent) -> AppView {
        match key.code {
            KeyCode::Esc => self.untyped(),
            KeyCode::Backspace => self.erased(),
            KeyCode::Enter => self.submitted(),
            KeyCode::Char(c) => if key.control || key.alt {
                self
            } else {
                self.typed(c)
            },
            _ => self,
        }
    }

    /// Shuffling, or not any more.
    #[verifier::opaque]
    pub open spec fn shuffle_switched(self) -> AppView {
        (AppView { shuffle: !self.shuffle, ..self }).said(
            "Shuffle: "@ + (if self.shuffle {
                "off"@
            } else {
                "on"@
            }) + "."@,
        )
    }

    /// Another repeat mode.
    #[verifier::opaque]
    pub open spec fn repeat_switched(self) -> AppView {
        (AppView { repeat: self.repeat.after(), ..self }).said(
            "Repeat: "@ + self.repeat.after().word() + "."@,
        )
    }

    /// The suggestions; they are asked for when they are opened for the first time.
    #[verifier::opaque]
    pub open spec fn suggestions_opened(self) -> AppView {
        let opened = self.on_screen(Screen::Suggestions);
        if self.suggestions_loaded {
            opened
        } else {
            opened.suggestions_asked()
        }
    }

    /// Going back.
    #[verifier::opaque]
    pub open spec fn gone_back(self) -> AppView {
        match self.screen {
            Screen::Search => self.page_restored(),
            Screen::Library => self.album_closed(),
            Screen::Playlists => self.playlist_closed(),
            _ => self,
        }
    }

    /// What the key for a character does on every screen.
    #[verifier::opaque]
    pub open spec fn global_char(self, c: char, roll: int) -> AppView {
        if c == 'q' {
            self.quitting()
        } else if c == '1' {
            self.on_screen(Screen::Search)
        } else if c == '2' {
            self.on_screen(Screen::Library)
        } else if c == '3' {
            self.on_screen(Screen::Queue)
        } else if c == '4' {
            self.on_screen(Screen::Downloads)
        } else if c == '5' {
            self.on_screen(Screen::Playlists)
        } else if c == '6' {
            self.suggestions_opened()
        } else if c == '/' {
            self.typing(
                if self.screen == Screen::Library {
                    InputMode::LibraryFilter
                } else {
                    InputMode::Search
                },
            )
        } else if c == 'I' {
            self.typing(InputMode::Import)
        } else if c == 'p' || (c == ' ' && self.screen != Screen::Search && self.screen
            != Screen::Suggestions) {
            self.toggled_playback()
        } else if c == 'z' {
            self.stopped_playback()
        } else if c == 'n' {
            self.advanced(roll)
        } else if c == 'b' {
            self.retreated()
        } else if c == '+' || c == '=' {
            self.louder(true)
        } else if c == '-' {
            self.louder(false)
        } else if c == 's' {
            self.shuffle_switched()
        } else if c == 'r' {
            self.repeat_switched()
        } else if c == '?' {
            self.helping(true)
        } else {
            self.screen_key(KeyCode::Char(c))
        }
    }

    /// What a key does on every screen.
    #[verifier::opaque]
    pub open spec fn global_key(self, code: KeyCode, roll: int) -> AppView {
        match code {
            KeyCode::Char(c) => self.global_char(c, roll),
            KeyCode::Left => self.sought(-5),
            KeyCode::Right => self.sought(5),
            KeyCode::Esc | KeyCode::Backspace => self.gone_back(),
            _ => self.screen_key(code),
        }
    }

    /// The cursor one row up.
    #[verifier::opaque]
    pub open spec fn moved_up(self) -> AppView {
        match self.screen {
            Screen::Search => AppView {
                search_index: tui::previous_row(self.search_index),
                ..self
            },
            Screen::Library => match self.album_detail {
                Some(detail) => AppView {
                    album_detail: Some(
                        AlbumDetailView { index: tui::previous_row(detail.index), ..detail },
                    ),
                    ..self
                },
                None => AppView { library_index: tui::previous_row(self.library_index), ..self },
            },
            Screen::Queue => AppView { queue_index: tui::previous_row(self.queue_index), ..self },
            Screen::Downloads => AppView { job_index: tui::previous_row(self.job_index), ..self },
            Screen::Playlists => match self.playlist_detail {
                Some(detail) => AppView {
                    playlist_detail: Some(
                        PlaylistDetailView { index: tui::previous_row(detail.index), ..detail },
                    ),
                    ..self
                },
                None => AppView { playlist_index: tui::previous_row(self.playlist_index), ..self },
            },
            Screen::Suggestions => AppView {
                suggestion_index: tui::previous_row(self.suggestion_index),
                ..self
            },
        }
    }

    /// The cursor one row down.
    #[verifier::opaque]
    pub open spec fn moved_down(self) -> AppView {
        match self.screen {
            Screen::Search => AppView {
                search_index: tui::next_row(self.search_index, self.search_results.len() as int),
                ..self
            },
            Screen::Library => match self.album_detail {
                Some(detail) => AppView {
                    album_detail: Some(
                        AlbumDetailView {
                            index: tui::next_row(detail.index, detail.tracks.len() as int),
                            ..detail
                        },
                    ),
                    ..self
                },
                None => AppView {
                    library_index: tui::next_row(
                        self.library_index,
                        (self.albums.len() + self.library.len()) as int,
                    ),
                    ..self
                },
            },
            Screen::Queue => AppView {
                queue_index: tui::next_row(self.queue_index, self.queue.len() as int),
                ..self
            },
            Screen::Downloads => AppView {
                job_index: tui::next_row(self.job_index, self.jobs.len() as int),
                ..self
            },
            Screen::Playlists => match self.playlist_detail {
                Some(detail) => AppView {
                    playlist_detail: Some(
                        PlaylistDetailView {
                            index: tui::next_row(detail.index, detail.tracks.len() as int),
                            ..detail
                        },
                    ),
                    ..self
                },
                None => AppView {
                    playlist_index: tui::next_row(
                        self.playlist_index,
                        self.playlists.len() as int,
                    ),
                    ..self
                },
            },
            Screen::Suggestions => AppView {
                suggestion_index: tui::next_row(
                    self.suggestion_index,
                    self.suggestions.len() as int,
                ),
                ..self
            },
        }
    }

    /// The result under the cursor marked, or not any more.
    #[verifier::opaque]
    pub open spec fn result_marked(self) -> AppView {
        AppView {
            selected_results: selection::toggled(self.selected_results, self.search_index),
            ..self
        }
    }

    /// Every result marked.
    #[verifier::opaque]
    pub open spec fn results_marked(self) -> AppView {
        AppView {
            selected_results: selection::rows_below(self.search_results.len() as int),
            ..self
        }
    }

    /// The suggestion under the cursor marked, or not any more.
    #[verifier::opaque]
    pub open spec fn suggestion_marked(self) -> AppView {
        AppView {
            selected_suggestions: selection::toggled(
                self.selected_suggestions,
                self.suggestion_index,
            ),
            ..self
        }
    }

    /// Every suggestion marked.
    #[verifier::opaque]
    pub open spec fn suggestions_marked(self) -> AppView {
        AppView {
            selected_suggestions: selection::rows_below(self.suggestions.len() as int),
            ..self
        }
    }

    /// The track of the library under the cursor.
    #[verifier::opaque]
    pub open spec fn library_track(self) -> Option<i64> {
        if self.album_detail matches Some(detail) && detail.index < detail.tracks.len() {
            Some(self.album_detail->0.tracks[self.album_detail->0.index].id)
        } else {
            match self.selected_track() {
                Some(track) => Some(track.id),
                None => None,
            }
        }
    }

    /// Starting to type the playlist for the track under the cursor.
    #[verifier::opaque]
    pub open spec fn playlist_asked(self) -> AppView {
        match self.library_track() {
            Some(track_id) => self.typing(InputMode::Playlist { track_id }),
            None => self,
        }
    }

    /// What a key does among the results.
    #[verifier::opaque]
    pub open spec fn search_key(self, code: KeyCode) -> AppView {
        if code == KeyCode::Char('x') || code == KeyCode::Char(' ') {
            self.result_marked()
        } else if code == KeyCode::Char('a') {
            self.results_marked()
        } else if code == KeyCode::Char('A') {
            self.collection_wanted()
        } else if code == KeyCode::Enter {
            self.result_opened()
        } else if code == KeyCode::Char('d') {
            self.results_wanted()
        } else {
            self
        }
    }

    /// What a key does in the library.
    #[verifier::opaque]
    pub open spec fn library_key(self, code: KeyCode) -> AppView {
        if code == KeyCode::Enter {
            if self.album_detail is Some {
                self.album_played(true)
            } else {
                self.selection_opened()
            }
        } else if code == KeyCode::Char('A') {
            self.album_played(false)
        } else if code == KeyCode::Char('P') {
            self.playlist_asked()
        } else {
            self
        }
    }

    /// What a key does in the queue.
    #[verifier::opaque]
    pub open spec fn queue_key(self, code: KeyCode) -> AppView {
        if code == KeyCode::Enter {
            self.activated(self.queue_index)
        } else if code == KeyCode::Delete || code == KeyCode::Char('x') {
            self.unqueued()
        } else {
            self
        }
    }

    /// What a key does among the transfers.
    #[verifier::opaque]
    pub open spec fn jobs_key(self, code: KeyCode) -> AppView {
        if code == KeyCode::Char('c') {
            self.cancel_asked()
        } else {
            self
        }
    }

    /// What a key does among the playlists.
    #[verifier::opaque]
    pub open spec fn playlists_key(self, code: KeyCode) -> AppView {
        if code == KeyCode::Enter {
            if self.playlist_detail is Some {
                self.playlist_played(true)
            } else {
                self.playlist_opened()
            }
        } else if code == KeyCode::Char('A') {
            self.playlist_played(false)
        } else if code == KeyCode::Delete || code == KeyCode::Char('x') {
            self.entry_removed()
        } else {
            self
        }
    }

    /// What a key does among the suggestions.
    #[verifier::opaque]
    pub open spec fn suggestions_key(self, code: KeyCode) -> AppView {
        if code == KeyCode::Char('x') || code == KeyCode::Char(' ') {
            self.suggestion_marked()
        } else if code == KeyCode::Char('a') {
            self.suggestions_marked()
        } else if code == KeyCode::Char('d') {
            self.suggestions_wanted()
        } else if code == KeyCode::Char('R') {
            self.suggestions_asked()
        } else {
            self
        }
    }

    /// What a key does on the screen that is shown.
    #[verifier::opaque]
    pub open spec fn screen_key(self, code: KeyCode) -> AppView {
        if code == KeyCode::Up || code == KeyCode::Char('k') {
            self.moved_up()
        } else if code == KeyCode::Down || code == KeyCode::Char('j') {
            self.moved_down()
        } else {
            match self.screen {
                Screen::Search => self.search_key(code),
                Screen::Library => self.library_key(code),
                Screen::Queue => self.queue_key(code),
                Screen::Downloads => self.jobs_key(code),
                Screen::Playlists => self.playlists_key(code),
                Screen::Suggestions => self.suggestions_key(code),
            }
        }
    }

    /// What a key does; `roll` is the place that chance gives while shuffling.
    #[verifier::opaque]
    pub open spec fn pressed(self, key: KeyEvent, roll: int) -> AppView {
        if key.control && key.code == KeyCode::Char('c') {
            self.quitting()
        } else if self.show_notice {
            self.notice_key(key.code)
        } else if self.show_help {
            self.help_key(key.code)
        } else if self.input_mode != InputMode::Idle {
            self.input_key(key)
        } else {
            self.global_key(key.code, roll)
        }
    }

    /// What a report of the terminal leads to: a key acts when it goes down and never when it comes
    /// up.
    #[verifier::opaque]
    pub open spec fn dispatched(self, event: TerminalEvent, roll: int) -> AppView {
        match event {
            TerminalEvent::Press(key) => self.pressed(key, roll),
            TerminalEvent::Release(_) => self,
            TerminalEvent::Other => self,
        }
    }
}

impl App {
    /// How many characters may be typed.
    pub fn input_limit(&self) -> (result: usize)
        ensures
            result == self@.input_mode.limit(),
    {
        match self.input_mode {
            InputMode::Search | InputMode::LibraryFilter => MAX_SEARCH_INPUT_CHARS,
            InputMode::Import => MAX_PATH_INPUT_CHARS,
            InputMode::Playlist { .. } => MAX_PLAYLIST_NAME_CHARS,
            InputMode::Idle => 0,
        }
    }

    fn type_into(&mut self, mode: InputMode)
        requires
            old(self)@.well_formed(),
        ensures
            final(self)@ == old(self)@.typing(mode),
            final(self)@.well_formed(),
    {
        reveal(AppView::typing);
        self.input_mode = mode;
        self.input = String::new();
        proof {
            reveal_strlit("");
            assert(self.input@ =~= Seq::<char>::empty());
        }
        assert(self@ =~= old(self)@.typing(mode));
    }

    fn show_screen(&mut self, screen: Screen)
        requires
            old(self)@.well_formed(),
        ensures
            final(self)@ == old(self)@.on_screen(screen),
            final(self)@.well_formed(),
    {
        reveal(AppView::on_screen);
        self.screen = screen;
        assert(self@ =~= old(self)@.on_screen(screen));
    }

    fn quit(&mut self)
        requires
            old(self)@.well_formed(),
        ensures
            final(self)@ == old(self)@.quitting(),
            final(self)@.well_formed(),
    {
        reveal(AppView::quitting);
        self.should_quit = true;
        assert(self@ =~= old(self)@.quitting());
    }

    fn set_help(&mut self, shown: bool)
        requires
            old(self)@.well_formed(),
        ensures
            final(self)@ == old(self)@.helping(shown),
            final(self)@.well_formed(),
    {
        reveal(AppView::helping);
        self.show_help = shown;
        assert(self@ =~= old(self)@.helping(shown));
    }

    fn type_char(&mut self, c: char)
        requires
            old(self)@.well_formed(),
        ensures
            final(self)@ == old(self)@.typed(c),
            final(self)@.well_formed(),
    {
        reveal(AppView::typed);
        let limit: usize = self.input_limit();
        if text::chars_of(self.input.as_str()).len() < limit {
            self.input.push(c);
        }
        assert(self@ =~= old(self)@.typed(c));
    }

    fn erase_char(&mut self)
        requires
            old(self)@.well_formed(),
        ensures
            final(self)@ == old(self)@.erased(),
            final(self)@.well_formed(),
    {
        reveal(AppView::erased);
        let chars = text::chars_of(self.input.as_str());
        let count: usize = chars.len();
        if count > 0 {
            self.input = text::text_of(&chars, 0, count - 1);
            assert(self.input@ =~= old(self)@.input.drop_last());
        }
        assert(self@ =~= old(self)@.erased());
    }

    fn mark_result(&mut self)
        requires
            old(self)@.well_formed(),
        ensures
            final(self)@ == old(self)@.result_marked(),
            final(self)@.well_formed(),
    {
        reveal(AppView::result_marked);
        self.selected_results.toggle(self.search_index);
        assert(self@ =~= old(self)@.result_marked());
    }

    fn mark_results(&mut self)
        requires
            old(self)@.well_formed(),
        ensures
            final(self)@ == old(self)@.results_marked(),
            final(self)@.well_formed(),
    {
        reveal(AppView::results_marked);
        self.selected_results = Selection::all(self.search_results.len());
        assert(self@ =~= old(self)@.results_marked());
    }

    fn mark_suggestion(&mut self)
        requires
            old(self)@.well_formed(),
        ensures
            final(self)@ == old(self)@.suggestion_marked(),
            final(self)@.well_formed(),
    {
        reveal(AppView::suggestion_marked);
        self.selected_suggestions.toggle(self.suggestion_index);
        assert(self@ =~= old(self)@.suggestion_marked());
    }

    fn mark_suggestions(&mut self)
        requires
            old(self)@.well_formed(),
        ensures
            final(self)@ == old(self)@.suggestions_marked(),
            final(self)@.well_formed(),
    {
        reveal(AppView::suggestions_marked);
        self.selected_suggestions = Selection::all(self.suggestions.len());
        assert(self@ =~= old(self)@.suggestions_marked());
    }

    fn move_album_cursor(&mut self, down: bool)
        requires
            old(self)@.well_formed(),
            old(self)@.screen == Screen::Library,
        ensures
            final(self)@ == if down {
                old(self)@.moved_down()
            } else {
                old(self)@.moved_up()
            },
            final(self)@.well_formed(),
    {
        reveal(AppView::moved_up);
        reveal(AppView::moved_down);
        match self.album_detail.take() {
            Some(mut detail) => {
                detail.index = if down {
                    tui::next_index(detail.index, detail.tracks.len())
                } else {
                    tui::previous_index(detail.index)
                };
                self.album_detail = Some(detail);
            },
            None => {
                let rows: usize = self.library_len();
                self.library_index = if down {
                    tui::next_index(self.library_index, rows)
                } else {
                    tui::previous_index(self.library_index)
                };
            },
        }
        assert(self@ =~= if down {
            old(self)@.moved_down()
        } else {
            old(self)@.moved_up()
        });
    }

    fn move_playlist_cursor(&mut self, down: bool)
        requires
            old(self)@.well_formed(),
            old(self)@.screen == Screen::Playlists,
        ensures
            final(self)@ == if down {
                old(self)@.moved_down()
            } else {
                old(self)@.moved_up()
            },
            final(self)@.well_formed(),
    {
        reveal(AppView::moved_up);
        reveal(AppView::moved_down);
        match self.playlist_detail.take() {
            Some(mut detail) => {
                detail.index = if down {
                    tui::next_index(detail.index, detail.tracks.len())
                } else {
                    tui::previous_index(detail.index)
                };
                self.playlist_detail = Some(detail);
            },
            None => {
                self.playlist_index = if down {
                    tui::next_index(self.playlist_index, self.playlists.len())
                } else {
                    tui::previous_index(self.playlist_index)
                };
            },
        }
        assert(self@ =~= if down {
            old(self)@.moved_down()
        } else {
            old(self)@.moved_up()
        });
    }

    /// Moves the cursor one row up.
    fn move_up(&mut self)
        requires
            old(self)@.well_formed(),
        ensures
            final(self)@ == old(self)@.moved_up(),
            final(self)@.well_formed(),
    {
        reveal(AppView::moved_up);
        match self.screen {
            Screen::Search => {
                self.search_index = tui::previous_index(self.search_index);
            },
            Screen::Library => {
                self.move_album_cursor(false);
            },
            Screen::Queue => {
                self.queue_index = tui::previous_index(self.queue_index);
            },
            Screen::Downloads => {
                self.job_index = tui::previous_index(self.job_index);
            },
            Screen::Playlists => {
                self.move_playlist_cursor(false);
            },
            Screen::Suggestions => {
                self.suggestion_index = tui::previous_index(self.suggestion_index);
            },
        }
        assert(self@ =~= old(self)@.moved_up());
    }

    /// Moves the cursor one row down.
    fn move_down(&mut self)
        requires
            old(self)@.well_formed(),
        ensures
            final(self)@ == old(self)@.moved_down(),
            final(self)@.well_formed(),
    {
        reveal(AppView::moved_down);
        match self.screen {
            Screen::Search => {
                self.search_index = tui::next_index(self.search_index, self.search_results.len());
            },
            Screen::Library => {
                self.move_album_cursor(true);
            },
            Screen::Queue => {
                self.queue_index = tui::next_index(self.queue_index, self.queue.len());
            },
            Screen::Downloads => {
                self.job_index = tui::next_index(self.job_index, self.jobs.len());
            },
            Screen::Playlists => {
                self.move_playlist_cursor(true);
            },
            Screen::Suggestions => {
                self.suggestion_index = tui::next_index(self.suggestion_index, self.suggestions.len());
            },
        }
        assert(self@ =~= old(self)@.moved_down());
    }

    /// Takes note of what came of keeping that the notice was accepted.
    pub fn notice_finished(&mut self, result: Result<(), String>)
        requires
            old(self)@.well_formed(),
        ensures
            final(self)@ == old(self)@.notice_answered(
                match result {
                    Ok(()) => Ok(()),
                    Err(message) => Err(message@),
                },
            ),
            final(self)@.well_formed(),
    {
        reveal(AppView::notice_answered);
        match result {
            Ok(()) => {
                self.show_notice = false;
                assert(self@ =~= (AppView { show_notice: false, ..old(self)@ }));
            },
            Err(message) => {
                self.say_with("Falha ao salvar aceite: ", message.as_str());
            },
        }
    }

    /// What a key does while the notice is shown.
    fn press_notice(&mut self, code: KeyCode)
        requires
            old(self)@.well_formed(),
        ensures
            final(self)@ == old(self)@.notice_key(code),
            final(self)@.well_formed(),
    {
        reveal(AppView::notice_key);
        if code == KeyCode::Enter {
            self.ask(Action::AcceptNotice);
        } else if code == KeyCode::Char('q') || code == KeyCode::Esc {
            self.quit();
        }
    }

    /// What a key does while the help is shown.
    fn press_help(&mut self, code: KeyCode)
        requires
            old(self)@.well_formed(),
        ensures
            final(self)@ == old(self)@.help_key(code),
            final(self)@.well_formed(),
    {
        reveal(AppView::help_key);
        if code == KeyCode::Char('?') || code == KeyCode::Esc || code == KeyCode::Enter {
            self.set_help(false);
        } else if code == KeyCode::Char('q') {
            self.quit();
        }
    }

    /// Uses what was typed.
    fn submit(&mut self)
        requires
            old(self)@.well_formed(),
        ensures
            final(self)@ == old(self)@.submitted(),
            final(self)@.well_formed(),
    {
        reveal(AppView::submitted);
        match self.input_mode {
            InputMode::Search => {
                self.submit_search();
            },
            InputMode::LibraryFilter => {
                self.apply_library_filter();
            },
            InputMode::Import => {
                self.submit_import();
            },
            InputMode::Playlist { track_id } => {
                self.submit_playlist(track_id);
            },
            InputMode::Idle => {},
        }
    }

    /// What a key does while something is typed.
    pub fn input_key(&mut self, key: KeyEvent)
        requires
            old(self)@.well_formed(),
        ensures
            final(self)@ == old(self)@.input_key(key),
            final(self)@.well_formed(),
    {
        reveal(AppView::input_key);
        match key.code {
            KeyCode::Esc => {
                self.stop_typing();
            },
            KeyCode::Backspace => {
                self.erase_char();
            },
            KeyCode::Enter => {
                self.submit();
            },
            KeyCode::Char(c) => {
                if !key.control && !key.alt {
                    self.type_char(c);
                }
            },
            _ => {},
        }
    }

    /// Shuffles, or stops doing so.
    fn switch_shuffle(&mut self)
        requires
            old(self)@.well_formed(),
        ensures
            final(self)@ == old(self)@.shuffle_switched(),
            final(self)@.well_formed(),
    {
        reveal(AppView::shuffle_switched);
        self.shuffle = !self.shuffle;
        assert(self@ =~= (AppView { shuffle: !old(self)@.shuffle, ..old(self)@ }));
        if self.shuffle {
            self.say_of("Shuffle: ", "on", ".");
        } else {
            self.say_of("Shuffle: ", "off", ".");
        }
    }

    /// Changes the repeat mode.
    fn switch_repeat(&mut self)
        requires
            old(self)@.well_formed(),
        ensures
            final(self)@ == old(self)@.repeat_switched(),
            final(self)@.well_formed(),
    {
        reveal(AppView::repeat_switched);
        self.repeat = self.repeat.cycle();
        assert(self@ =~= (AppView { repeat: old(self)@.repeat.after(), ..old(self)@ }));
        let word = self.repeat.label();
        self.say_of("Repeat: ", word, ".");
    }

    /// Shows the suggestions.
    fn open_suggestions(&mut self)
        requires
            old(self)@.well_formed(),
        ensures
            final(self)@ == old(self)@.suggestions_opened(),
            final(self)@.well_formed(),
    {
        reveal(AppView::suggestions_opened);
        let loaded = self.suggestions_loaded;
        self.show_screen(Screen::Suggestions);
        if !loaded {
            self.ask_suggestions();
        }
    }

    /// Goes back.
    fn go_back(&mut self)
        requires
            old(self)@.well_formed(),
        ensures
            final(self)@ == old(self)@.gone_back(),
            final(self)@.well_formed(),
    {
        reveal(AppView::gone_back);
        match self.screen {
            Screen::Search => {
                self.back_search();
            },
            Screen::Library => {
                self.close_album();
            },
            Screen::Playlists => {
                self.close_playlist();
            },
            _ => {},
        }
    }

    fn library_track(&self) -> (result: Option<i64>)
        requires
            self@.well_formed(),
        ensures
            result == self@.library_track(),
    {
        reveal(AppView::library_track);
        match &self.album_detail {
            Some(detail) => {
                if detail.index < detail.tracks.len() {
                    assert(detail@.tracks[detail.index as int] == detail.tracks@[detail.index as int]@);
                    return Some(detail.tracks[detail.index].id);
                }
            },
            None => {},
        }
        match self.selected_library_track() {
            Some(track) => Some(track.id),
            None => None,
        }
    }

    /// Starts to type the playlist for the track under the cursor.
    fn ask_playlist(&mut self)
        requires
            old(self)@.well_formed(),
        ensures
            final(self)@ == old(self)@.playlist_asked(),
            final(self)@.well_formed(),
    {
        reveal(AppView::playlist_asked);
        match self.library_track() {
            Some(track_id) => {
                self.type_into(InputMode::Playlist { track_id });
            },
            None => {},
        }
    }

    /// What a key does among the results.
    fn press_search(&mut self, code: KeyCode)
        requires
            old(self)@.well_formed(),
        ensures
            final(self)@ == old(self)@.search_key(code),
            final(self)@.well_formed(),
    {
        reveal(AppView::search_key);
        if code == KeyCode::Char('x') || code == KeyCode::Char(' ') {
            self.mark_result();
        } else if code == KeyCode::Char('a') {
            self.mark_results();
        } else if code == KeyCode::Char('A') {
            self.download_full_collection();
        } else if code == KeyCode::Enter {
            self.resolve_current();
        } else if code == KeyCode::Char('d') {
            self.start_selected_downloads();
        }
    }

    /// What a key does in the library.
    fn press_library(&mut self, code: KeyCode)
        requires
            old(self)@.well_formed(),
        ensures
            final(self)@ == old(self)@.library_key(code),
            final(self)@.well_formed(),
    {
        reveal(AppView::library_key);
        if code == KeyCode::Enter {
            if self.album_detail.is_some() {
                self.play_album(true);
            } else {
                self.open_library_selection();
            }
        } else if code == KeyCode::Char('A') {
            self.play_album(false);
        } else if code == KeyCode::Char('P') {
            self.ask_playlist();
        }
    }

    /// What a key does in the queue.
    fn press_queue(&mut self, code: KeyCode)
        requires
            old(self)@.well_formed(),
        ensures
            final(self)@ == old(self)@.queue_key(code),
            final(self)@.well_formed(),
    {
        reveal(AppView::queue_key);
        if code == KeyCode::Enter {
            let index: usize = self.queue_index;
            self.activate_queue_track(index);
        } else if code == KeyCode::Delete || code == KeyCode::Char('x') {
            self.remove_from_queue();
        }
    }

    /// What a key does among the transfers.
    fn press_jobs(&mut self, code: KeyCode)
        requires
            old(self)@.well_formed(),
        ensures
            final(self)@ == old(self)@.jobs_key(code),
            final(self)@.well_formed(),
    {
        reveal(AppView::jobs_key);
        if code == KeyCode::Char('c') {
            self.cancel_selected();
        }
    }

    /// What a key does among the playlists.
    fn press_playlists(&mut self, code: KeyCode)
        requires
            old(self)@.well_formed(),
        ensures
            final(self)@ == old(self)@.playlists_key(code),
            final(self)@.well_formed(),
    {
        reveal(AppView::playlists_key);
        if code == KeyCode::Enter {
            if self.playlist_detail.is_some() {
                self.play_playlist(true);
            } else {
                self.open_playlist();
            }
        } else if code == KeyCode::Char('A') {
            self.play_playlist(false);
        } else if code == KeyCode::Delete || code == KeyCode::Char('x') {
            self.remove_playlist_track();
        }
    }

    /// What a key does among the suggestions.
    fn press_suggestions(&mut self, code: KeyCode)
        requires
            old(self)@.well_formed(),
        ensures
            final(self)@ == old(self)@.suggestions_key(code),
            final(self)@.well_formed(),
    {
        reveal(AppView::suggestions_key);
        if code == KeyCode::Char('x') || code == KeyCode::Char(' ') {
            self.mark_suggestion();
        } else if code == KeyCode::Char('a') {
            self.mark_suggestions();
        } else if code == KeyCode::Char('d') {
            self.download_suggestions();
        } else if code == KeyCode::Char('R') {
            self.ask_suggestions();
        }
    }

    /// What a key does on the screen that is shown.
    pub fn screen_key(&mut self, code: KeyCode)
        requires
            old(self)@.well_formed(),
        ensures
            final(self)@ == old(self)@.screen_key(code),
            final(self)@.well_formed(),
    {
        reveal(AppView::screen_key);
        if code == KeyCode::Up || code == KeyCode::Char('k') {
            self.move_up();
            return;
        }
        if code == KeyCode::Down || code == KeyCode::Char('j') {
            self.move_down();
            return;
        }
        match self.screen {
            Screen::Search => {
                self.press_search(code);
            },
            Screen::Library => {
                self.press_library(code);
            },
            Screen::Queue => {
                self.press_queue(code);
            },
            Screen::Downloads => {
                self.press_jobs(code);
            },
            Screen::Playlists => {
                self.press_playlists(code);
            },
            Screen::Suggestions => {
                self.press_suggestions(code);
            },
        }
    }

    /// What the key for a character does on every screen.
    fn press_char(&mut self, c: char, roll: usize)
        requires
            old(self)@.well_formed(),
            roll < old(self)@.queue.len() || roll == 0,
        ensures
            final(self)@ == old(self)@.global_char(c, roll as int),
            final(self)@.well_formed(),
    {
        reveal(AppView::global_char);
        if c == 'q' {
            self.quit();
        } else if c == '1' {
            self.show_screen(Screen::Search);
        } else if c == '2' {
            self.show_screen(Screen::Library);
        } else if c == '3' {
            self.show_screen(Screen::Queue);
        } else if c == '4' {
            self.show_screen(Screen::Downloads);
        } else if c == '5' {
            self.show_screen(Screen::Playlists);
        } else if c == '6' {
            self.open_suggestions();
        } else if c == '/' {
            let mode = if self.screen == Screen::Library {
                InputMode::LibraryFilter
            } else {
                InputMode::Search
            };
            self.type_into(mode);
        } else if c == 'I' {
            self.type_into(InputMode::Import);
        } else if c == 'p' || (c == ' ' && self.screen != Screen::Search && self.screen != Screen::Suggestions) {
            self.toggle_playback();
        } else if c == 'z' {
            self.stop_playback();
        } else if c == 'n' {
            self.advance(roll);
        } else if c == 'b' {
            self.previous_track();
        } else if c == '+' || c == '=' {
            self.change_volume(true);
        } else if c == '-' {
            self.change_volume(false);
        } else if c == 's' {
            self.switch_shuffle();
        } else if c == 'r' {
            self.switch_repeat();
        } else if c == '?' {
            self.set_help(true);
        } else {
            self.screen_key(KeyCode::Char(c));
        }
    }

    /// What a key does on every screen.
    fn press_global(&mut self, code: KeyCode, roll: usize)
        requires
            old(self)@.well_formed(),
            roll < old(self)@.queue.len() || roll == 0,
        ensures
            final(self)@ == old(self)@.global_key(code, roll as int),
            final(self)@.well_formed(),
    {
        reveal(AppView::global_key);
        match code {
            KeyCode::Char(c) => {
                self.press_char(c, roll);
            },
            KeyCode::Left => {
                self.seek(-5);
            },
            KeyCode::Right => {
                self.seek(5);
            },
            KeyCode::Esc | KeyCode::Backspace => {
                self.go_back();
            },
            _ => {
                self.screen_key(code);
            },
        }
    }

    /// What a key does; `roll` is the place that chance gives while shuffling.
    pub fn press(&mut self, key: KeyEvent, roll: usize)
        requires
            old(self)@.well_formed(),
            roll < old(self)@.queue.len() || roll == 0,
        ensures
            final(self)@ == old(self)@.pressed(key, roll as int),
            final(self)@.well_formed(),
    {
        reveal(AppView::pressed);
        if key.control && key.code == KeyCode::Char('c') {
            self.quit();
            return;
        }
        if self.show_notice {
            self.press_notice(key.code);
            return;
        }
        if self.show_help {
            self.press_help(key.code);
            return;
        }
        if self.input_mode != InputMode::Idle {
            self.input_key(key);
            return;
        }
        self.press_global(key.code, roll);
    }

    /// What a key does.
    pub fn key(&mut self, key: KeyEvent)
        requires
            old(self)@.well_formed(),
        ensures
            exists|roll: int|
                (0 <= roll < old(self)@.queue.len() || roll == 0) && final(self)@
                    == #[trigger] old(self)@.pressed(key, roll),
            final(self)@.well_formed(),
    {
        let roll: usize = self.roll();
        self.press(key, roll);
        assert(self@ == old(self)@.pressed(key, roll as int));
    }
}

/// What a report of the terminal leads to; the result says whether it was a key that acts.
pub fn dispatch_terminal_event(app: &mut App, event: TerminalEvent, roll: usize) -> (result: bool)
    requires
        old(app)@.well_formed(),
        roll < old(app)@.queue.len() || roll == 0,
    ensures
        final(app)@ == old(app)@.dispatched(event, roll as int),
        result == (event is Press),
        final(app)@.well_formed(),
{
    reveal(AppView::dispatched);
    match event {
        TerminalEvent::Press(key) => {
            app.press(key, roll);
            true
        },
        TerminalEvent::Release(_) => false,
        TerminalEvent::Other => false,
    }
}

/// While the notice is shown nothing is searched, downloaded or played: a key accepts it, ends the
/// session or does nothing.
pub proof fn lemma_notice_first(app: AppView, key: KeyEvent, roll: int)
    requires
        app.show_notice,
    ensures
        app.pressed(key, roll) == app.quitting() || app.pressed(key, roll) == app || app.pressed(
            key,
            roll,
        ) == app.asked(ActionView::AcceptNotice),
        app.pressed(key, roll).show_notice,
{
    reveal(AppView::pressed);
    reveal(AppView::notice_key);
    reveal(AppView::quitting);
    reveal(AppView::asked);
}

/// The help is an overlay: the key that opens it closes it again, and nothing else has changed.
pub proof fn lemma_help_toggles(app: AppView, roll: int)
    requires
        !app.show_notice,
        !app.show_help,
        app.input_mode == InputMode::Idle,
    ensures
        ({
            let key = KeyEvent { code: KeyCode::Char('?'), control: false, alt: false };
            app.pressed(key, roll).show_help && app.pressed(key, roll).pressed(key, roll) == app
        }),
{
    reveal(AppView::pressed);
    reveal(AppView::global_key);
    reveal(AppView::global_char);
    reveal(AppView::help_key);
    reveal(AppView::helping);
}

/// What is typed never grows past what the input takes, and a key that types starts nothing.
pub proof fn lemma_typing_bounded(app: AppView, c: char, control: bool, alt: bool)
    requires
        app.input.len() <= app.input_mode.limit(),
    ensures
        ({
            let key = KeyEvent { code: KeyCode::Char(c), control, alt };
            app.input_key(key).input.len() <= app.input_mode.limit() && app.input_key(key).actions
                == app.actions && app.input_key(key).input_mode == app.input_mode
        }),
{
    reveal(AppView::input_key);
    reveal(AppView::typed);
}

/// The tab with the suggestions goes to the network when it is opened for the first time, and not
/// again.
pub proof fn lemma_suggestions_asked_once(app: AppView)
    requires
        app.suggestions_loaded,
    ensures
        app.suggestions_opened() == app.on_screen(Screen::Suggestions),
        app.suggestions_opened().actions == app.actions,
{
    reveal(AppView::suggestions_opened);
    reveal(AppView::on_screen);
}

/// Control and C end the session whatever is shown or typed, and a key that comes up does nothing:
/// each stroke acts once.
pub proof fn lemma_strokes(app: AppView, key: KeyEvent, alt: bool, roll: int)
    ensures
        app.pressed(KeyEvent { code: KeyCode::Char('c'), control: true, alt }, roll)
            == app.quitting(),
        app.dispatched(TerminalEvent::Press(key), roll) == app.pressed(key, roll),
        app.dispatched(TerminalEvent::Release(key), roll) == app,
{
    reveal(AppView::pressed);
    reveal(AppView::dispatched);
}

/// Whether keys go to what is shown: no notice, no help, and nothing being typed.
pub open spec fn listening(app: AppView) -> bool {
    !app.show_notice && !app.show_help && app.input_mode == InputMode::Idle
}

/// A key without another one held.
pub open spec fn stroke(code: KeyCode) -> KeyEvent {
    KeyEvent { code, control: false, alt: false }
}

/// A letter without another key held.
pub open spec fn letter(c: char) -> KeyEvent {
    stroke(KeyCode::Char(c))
}

/// On every screen the digits open the workspaces, and leave everything else as it is.
pub proof fn lemma_digits_open_workspaces(app: AppView, roll: int)
    requires
        listening(app),
    ensures
        app.pressed(letter('1'), roll) == (AppView { screen: Screen::Search, ..app }),
        app.pressed(letter('2'), roll) == (AppView { screen: Screen::Library, ..app }),
        app.pressed(letter('3'), roll) == (AppView { screen: Screen::Queue, ..app }),
        app.pressed(letter('4'), roll) == (AppView { screen: Screen::Downloads, ..app }),
        app.pressed(letter('5'), roll) == (AppView { screen: Screen::Playlists, ..app }),
        app.pressed(letter('6'), roll).screen == Screen::Suggestions,
        app.suggestions_loaded ==> app.pressed(letter('6'), roll) == (AppView {
            screen: Screen::Suggestions,
            ..app
        }),
        !app.suggestions_loaded ==> app.pressed(letter('6'), roll) == (AppView {
            screen: Screen::Suggestions,
            ..app
        }).suggestions_asked(),
{
    reveal(AppView::pressed);
    reveal(AppView::global_key);
    reveal(AppView::global_char);
    reveal(AppView::on_screen);
    reveal(AppView::suggestions_opened);
    reveal(AppView::suggestions_asked);
    reveal(AppView::said);
    reveal(AppView::asked);
}

/// On every screen the keys of the player do what they are for: `p` pauses or goes on, and so does
/// the space bar where nothing is marked with it; `z` stops; `n` goes on and `b` back; the arrows
/// jump five seconds; `+` and `-` change the volume; `s` shuffles and `r` repeats.
pub proof fn lemma_player_keys(app: AppView, roll: int)
    requires
        listening(app),
    ensures
        app.pressed(letter('p'), roll) == app.toggled_playback(),
        app.screen != Screen::Search && app.screen != Screen::Suggestions ==> app.pressed(
            letter(' '),
            roll,
        ) == app.toggled_playback(),
        app.pressed(letter('z'), roll) == app.stopped_playback(),
        app.pressed(letter('n'), roll) == app.advanced(roll),
        app.pressed(letter('b'), roll) == app.retreated(),
        app.pressed(stroke(KeyCode::Left), roll) == app.sought(-5),
        app.pressed(stroke(KeyCode::Right), roll) == app.sought(5),
        app.pressed(letter('+'), roll) == app.louder(true),
        app.pressed(letter('='), roll) == app.louder(true),
        app.pressed(letter('-'), roll) == app.louder(false),
        app.pressed(letter('s'), roll).shuffle == !app.shuffle,
        app.pressed(letter('s'), roll).queue == app.queue,
        app.pressed(letter('s'), roll).current_index == app.current_index,
        app.pressed(letter('s'), roll).actions == app.actions,
        app.pressed(letter('r'), roll).repeat == app.repeat.after(),
        app.pressed(letter('r'), roll).queue == app.queue,
        app.pressed(letter('r'), roll).current_index == app.current_index,
        app.pressed(letter('r'), roll).actions == app.actions,
{
    reveal(AppView::pressed);
    reveal(AppView::global_key);
    reveal(AppView::global_char);
    reveal(AppView::shuffle_switched);
    reveal(AppView::repeat_switched);
    reveal(AppView::said);
}

/// `/` starts typing a filter in the library and a search anywhere else, `I` starts typing a folder,
/// `?` shows the help and `q` ends the session.
pub proof fn lemma_typing_keys(app: AppView, roll: int)
    requires
        listening(app),
    ensures
        app.pressed(letter('/'), roll) == (AppView {
            input: Seq::empty(),
            input_mode: if app.screen == Screen::Library {
                InputMode::LibraryFilter
            } else {
                InputMode::Search
            },
            ..app
        }),
        app.pressed(letter('I'), roll) == (AppView {
            input: Seq::empty(),
            input_mode: InputMode::Import,
            ..app
        }),
        app.pressed(letter('?'), roll) == (AppView { show_help: true, ..app }),
        app.pressed(letter('q'), roll) == (AppView { should_quit: true, ..app }),
{
    reveal(AppView::pressed);
    reveal(AppView::global_key);
    reveal(AppView::global_char);
    reveal(AppView::typing);
    reveal(AppView::helping);
    reveal(AppView::quitting);
}

/// While something is typed, a letter is added at the end, backspace takes the last one away, escape
/// gives up, and enter uses what was typed for what it is for.
pub proof fn lemma_typed_keys(app: AppView, c: char, roll: int)
    requires
        !app.show_notice,
        !app.show_help,
        app.input_mode != InputMode::Idle,
    ensures
        app.input.len() < app.input_mode.limit() ==> app.pressed(letter(c), roll) == (AppView {
            input: app.input.push(c),
            ..app
        }),
        app.input.len() > 0 ==> app.pressed(stroke(KeyCode::Backspace), roll) == (AppView {
            input: app.input.drop_last(),
            ..app
        }),
        app.pressed(stroke(KeyCode::Esc), roll) == (AppView {
            input: Seq::empty(),
            input_mode: InputMode::Idle,
            ..app
        }),
        app.input_mode == InputMode::Search ==> app.pressed(stroke(KeyCode::Enter), roll)
            == app.search_submitted(),
        app.input_mode == InputMode::LibraryFilter ==> app.pressed(stroke(KeyCode::Enter), roll)
            == app.filtered(),
        app.input_mode == InputMode::Import ==> app.pressed(stroke(KeyCode::Enter), roll)
            == app.import_submitted(),
        app.input_mode matches InputMode::Playlist { track_id } ==> app.pressed(
            stroke(KeyCode::Enter),
            roll,
        ) == app.playlist_submitted(track_id),
{
    reveal(AppView::pressed);
    reveal(AppView::input_key);
    reveal(AppView::typed);
    reveal(AppView::erased);
    reveal(AppView::untyped);
    reveal(AppView::submitted);
}

/// How much may be typed: five hundred and twelve characters of a query or a filter, four thousand
/// and ninety-six of a path, and a hundred and twenty-eight of a name.
pub proof fn lemma_input_limits(track_id: i64)
    ensures
        InputMode::Search.limit() == 512,
        InputMode::LibraryFilter.limit() == 512,
        InputMode::Import.limit() == 4096,
        (InputMode::Playlist { track_id }).limit() == 128,
{
}

/// Escape and backspace go back: to the page of results before, out of an album, or out of a
/// playlist.
pub proof fn lemma_back_keys(app: AppView, roll: int)
    requires
        listening(app),
    ensures
        app.pressed(stroke(KeyCode::Esc), roll) == app.pressed(stroke(KeyCode::Backspace), roll),
        app.screen == Screen::Search ==> app.pressed(stroke(KeyCode::Esc), roll)
            == app.page_restored(),
        app.screen == Screen::Library ==> app.pressed(stroke(KeyCode::Esc), roll)
            == app.album_closed(),
        app.screen == Screen::Playlists ==> app.pressed(stroke(KeyCode::Esc), roll)
            == app.playlist_closed(),
{
    reveal(AppView::pressed);
    reveal(AppView::global_key);
    reveal(AppView::gone_back);
}

/// Among the results `x` and the space bar mark the one under the cursor or take the mark away, `a`
/// marks all, enter opens, `d` downloads what is chosen, and `A` the whole collection.
pub proof fn lemma_search_keys(app: AppView, roll: int)
    requires
        listening(app),
        app.screen == Screen::Search,
    ensures
        app.pressed(letter('x'), roll) == app.pressed(letter(' '), roll),
        forall|i: int|
            i != app.search_index ==> (#[trigger] app.pressed(
                letter('x'),
                roll,
            ).selected_results.contains(i) <==> app.selected_results.contains(i)),
        app.pressed(letter('x'), roll).selected_results.contains(app.search_index)
            <==> !app.selected_results.contains(app.search_index),
        forall|i: int|
            #[trigger] app.pressed(letter('a'), roll).selected_results.contains(i) <==> 0 <= i
                < app.search_results.len(),
        app.pressed(stroke(KeyCode::Enter), roll) == app.result_opened(),
        app.pressed(letter('d'), roll) == app.results_wanted(),
        app.pressed(letter('A'), roll) == app.collection_wanted(),
{
    reveal(AppView::pressed);
    reveal(AppView::global_key);
    reveal(AppView::global_char);
    reveal(AppView::screen_key);
    reveal(AppView::search_key);
    reveal(AppView::result_marked);
    reveal(AppView::results_marked);
}

/// In the library enter opens the selected album or plays the selected track; in an album it plays
/// from the selected track, and `A` from the first; `P` asks for a playlist for the track under the
/// cursor.
pub proof fn lemma_library_keys(app: AppView, roll: int)
    requires
        listening(app),
        app.screen == Screen::Library,
    ensures
        app.album_detail is None ==> app.pressed(stroke(KeyCode::Enter), roll)
            == app.selection_opened(),
        app.album_detail is Some ==> app.pressed(stroke(KeyCode::Enter), roll) == app.album_played(
            true,
        ),
        app.pressed(letter('A'), roll) == app.album_played(false),
        app.album_detail matches Some(detail) ==> (0 <= detail.index < detail.tracks.len()
            ==> app.pressed(letter('P'), roll).input_mode == (InputMode::Playlist {
            track_id: detail.tracks[detail.index].id,
        })),
        app.album_detail is None ==> (app.selected_track() matches Some(track) ==> app.pressed(
            letter('P'),
            roll,
        ).input_mode == (InputMode::Playlist { track_id: track.id })),
{
    reveal(AppView::pressed);
    reveal(AppView::global_key);
    reveal(AppView::global_char);
    reveal(AppView::screen_key);
    reveal(AppView::library_key);
    reveal(AppView::playlist_asked);
    reveal(AppView::library_track);
    reveal(AppView::typing);
}

/// In the queue enter plays the selected place, and delete or `x` takes it out; among the transfers
/// `c` cancels the selected one; among the playlists enter opens one, or plays from the selected
/// track of an open one, `A` plays it from its first track, and delete or `x` takes a track out of
/// it.
pub proof fn lemma_list_keys(app: AppView, roll: int)
    requires
        listening(app),
    ensures
        app.screen == Screen::Queue ==> app.pressed(stroke(KeyCode::Enter), roll) == app.activated(
            app.queue_index,
        ),
        app.screen == Screen::Queue ==> app.pressed(stroke(KeyCode::Delete), roll)
            == app.unqueued(),
        app.screen == Screen::Queue ==> app.pressed(letter('x'), roll) == app.unqueued(),
        app.screen == Screen::Downloads ==> app.pressed(letter('c'), roll) == app.cancel_asked(),
        app.screen == Screen::Playlists && app.playlist_detail is None ==> app.pressed(
            stroke(KeyCode::Enter),
            roll,
        ) == app.playlist_opened(),
        app.screen == Screen::Playlists && app.playlist_detail is Some ==> app.pressed(
            stroke(KeyCode::Enter),
            roll,
        ) == app.playlist_played(true),
        app.screen == Screen::Playlists ==> app.pressed(letter('A'), roll) == app.playlist_played(
            false,
        ),
        app.screen == Screen::Playlists ==> app.pressed(letter('x'), roll) == app.entry_removed(),
        app.screen == Screen::Playlists ==> app.pressed(stroke(KeyCode::Delete), roll)
            == app.entry_removed(),
{
    reveal(AppView::pressed);
    reveal(AppView::global_key);
    reveal(AppView::global_char);
    reveal(AppView::screen_key);
    reveal(AppView::queue_key);
    reveal(AppView::jobs_key);
    reveal(AppView::playlists_key);
}

/// Among the suggestions `x` and the space bar mark, `a` marks all, `d` downloads what is chosen, and
/// `R` asks again.
pub proof fn lemma_suggestion_keys(app: AppView, roll: int)
    requires
        listening(app),
        app.screen == Screen::Suggestions,
    ensures
        app.pressed(letter('x'), roll) == app.pressed(letter(' '), roll),
        forall|i: int|
            i != app.suggestion_index ==> (#[trigger] app.pressed(
                letter('x'),
                roll,
            ).selected_suggestions.contains(i) <==> app.selected_suggestions.contains(i)),
        app.pressed(letter('x'), roll).selected_suggestions.contains(app.suggestion_index)
            <==> !app.selected_suggestions.contains(app.suggestion_index),
        forall|i: int|
            #[trigger] app.pressed(letter('a'), roll).selected_suggestions.contains(i) <==> 0 <= i
                < app.suggestions.len(),
        app.pressed(letter('d'), roll) == app.suggestions_wanted(),
        app.pressed(letter('R'), roll) == app.suggestions_asked(),
{
    reveal(AppView::pressed);
    reveal(AppView::global_key);
    reveal(AppView::global_char);
    reveal(AppView::screen_key);
    reveal(AppView::suggestions_key);
    reveal(AppView::suggestion_marked);
    reveal(AppView::suggestions_marked);
}

/// The cursor of the list that is shown goes one row down or up, and stays on the last or the first;
/// `j` and `k` do the same as the arrows.
pub proof fn lemma_cursor_keys(app: AppView, roll: int)
    requires
        listening(app),
    ensures
        app.pressed(letter('j'), roll) == app.pressed(stroke(KeyCode::Down), roll),
        app.pressed(letter('k'), roll) == app.pressed(stroke(KeyCode::Up), roll),
        ({
            let down = app.pressed(letter('j'), roll);
            let up = app.pressed(letter('k'), roll);
            &&& app.screen == Screen::Search ==> stepped(
                app.search_index,
                down.search_index,
                up.search_index,
                app.search_results.len() as int,
            )
            &&& app.screen == Screen::Library && app.album_detail is None ==> stepped(
                app.library_index,
                down.library_index,
                up.library_index,
                (app.albums.len() + app.library.len()) as int,
            )
            &&& app.screen == Screen::Library ==> (app.album_detail matches Some(detail)
                ==> down.album_detail is Some && up.album_detail is Some && stepped(
                detail.index,
                down.album_detail->0.index,
                up.album_detail->0.index,
                detail.tracks.len() as int,
            ) && down.album_detail->0.tracks == detail.tracks)
            &&& app.screen == Screen::Queue ==> stepped(
                app.queue_index,
                down.queue_index,
                up.queue_index,
                app.queue.len() as int,
            )
            &&& app.screen == Screen::Downloads ==> stepped(
                app.job_index,
                down.job_index,
                up.job_index,
                app.jobs.len() as int,
            )
            &&& app.screen == Screen::Playlists && app.playlist_detail is None ==> stepped(
                app.playlist_index,
                down.playlist_index,
                up.playlist_index,
                app.playlists.len() as int,
            )
            &&& app.screen == Screen::Playlists ==> (app.playlist_detail matches Some(detail)
                ==> down.playlist_detail is Some && up.playlist_detail is Some && stepped(
                detail.index,
                down.playlist_detail->0.index,
                up.playlist_detail->0.index,
                detail.tracks.len() as int,
            ))
            &&& app.screen == Screen::Suggestions ==> stepped(
                app.suggestion_index,
                down.suggestion_index,
                up.suggestion_index,
                app.suggestions.len() as int,
            )
            &&& down.actions == app.actions
            &&& up.actions == app.actions
        }),
{
    reveal(AppView::pressed);
    reveal(AppView::global_key);
    reveal(AppView::global_char);
    reveal(AppView::screen_key);
    reveal(AppView::moved_up);
    reveal(AppView::moved_down);
}

/// Whether a cursor went one row down and one row up, and no further than the rows go.
pub open spec fn stepped(at: int, down: int, up: int, count: int) -> bool {
    &&& 0 <= at < count - 1 ==> down == at + 1
    &&& 0 <= at && at == count - 1 ==> down == at
    &&& at > 0 ==> up == at - 1
    &&& at == 0 ==> up == 0
}

/// The notice is accepted by enter and kept before it goes; `q` and escape end the session instead,
/// and where it could not be kept it stays.
pub proof fn lemma_notice_keys(app: AppView, roll: int, message: Seq<char>)
    requires
        app.show_notice,
    ensures
        app.pressed(stroke(KeyCode::Enter), roll).actions == app.actions.push(
            ActionView::AcceptNotice,
        ),
        app.pressed(letter('q'), roll).should_quit,
        app.pressed(stroke(KeyCode::Esc), roll).should_quit,
        !app.notice_answered(Ok(())).show_notice,
        app.notice_answered(Err(message)).show_notice,
        text::ends_with(app.notice_answered(Err(message)).status, message),
{
    reveal(AppView::pressed);
    reveal(AppView::notice_key);
    reveal(AppView::notice_answered);
    reveal(AppView::quitting);
    reveal(AppView::said);
    reveal(AppView::asked);
    text::lemma_occurs_between("Falha ao salvar aceite: "@, message, Seq::empty());
}

/// Ctrl-C ends the session whatever is shown or typed.
pub proof fn lemma_control_c(app: AppView, alt: bool, roll: int)
    ensures
        app.pressed(KeyEvent { code: KeyCode::Char('c'), control: true, alt }, roll) == (AppView {
            should_quit: true,
            ..app
        }),
{
    reveal(AppView::pressed);
    reveal(AppView::quitting);
}

/// The help goes with the keys that it names and with no other, and `q` ends the session there too.
pub proof fn lemma_help_keys(app: AppView, c: char, roll: int)
    requires
        app.show_help,
        !app.show_notice,
    ensures
        app.pressed(letter('?'), roll) == (AppView { show_help: false, ..app }),
        app.pressed(stroke(KeyCode::Esc), roll) == (AppView { show_help: false, ..app }),
        app.pressed(stroke(KeyCode::Enter), roll) == (AppView { show_help: false, ..app }),
        app.pressed(letter('q'), roll) == (AppView { should_quit: true, ..app }),
        c != '?' && c != 'q' ==> app.pressed(letter(c), roll) == app,
{
    reveal(AppView::pressed);
    reveal(AppView::help_key);
    reveal(AppView::helping);
    reveal(AppView::quitting);
}

/// A letter that stands for nothing does nothing, and while something is typed neither does a letter
/// with another key held or one more than may be typed.
pub proof fn lemma_other_keys(app: AppView, c: char, alt: bool, roll: int)
    ensures
        listening(app) && !seq![
            'q', '1', '2', '3', '4', '5', '6', '/', 'I', 'p', ' ', 'z', 'n', 'b', '+', '=', '-', 's',
            'r', '?', 'j', 'k', 'x', 'a', 'd', 'A', 'P', 'c', 'R',
        ].contains(c) ==> app.pressed(letter(c), roll) == app,
        app.show_notice && c != 'q' ==> app.pressed(letter(c), roll) == app,
        !app.show_notice && !app.show_help && app.input_mode != InputMode::Idle ==> (c != 'c'
            ==> app.pressed(KeyEvent { code: KeyCode::Char(c), control: true, alt }, roll) == app)
            && app.pressed(KeyEvent { code: KeyCode::Char(c), control: false, alt: true }, roll)
            == app && (app.input.len() >= app.input_mode.limit() ==> app.pressed(letter(c), roll)
            == app),
{
    reveal(AppView::pressed);
    reveal(AppView::global_key);
    reveal(AppView::global_char);
    reveal(AppView::screen_key);
    reveal(AppView::search_key);
    reveal(AppView::library_key);
    reveal(AppView::queue_key);
    reveal(AppView::jobs_key);
    reveal(AppView::playlists_key);
    reveal(AppView::suggestions_key);
    reveal(AppView::notice_key);
    reveal(AppView::input_key);
    reveal(AppView::typed);
    let bound = seq![
        'q', '1', '2', '3', '4', '5', '6', '/', 'I', 'p', ' ', 'z', 'n', 'b', '+', '=', '-', 's',
        'r', '?', 'j', 'k', 'x', 'a', 'd', 'A', 'P', 'c', 'R',
    ];
    if !bound.contains(c) {
        assert forall|k: int| 0 <= k < bound.len() implies bound[k] != c by {
            assert(bound.contains(bound[k]));
        }
        assert(bound[0] == 'q' && bound[1] == '1' && bound[2] == '2' && bound[3] == '3' && bound[4]
            == '4' && bound[5] == '5' && bound[6] == '6' && bound[7] == '/' && bound[8] == 'I'
            && bound[9] == 'p' && bound[10] == ' ' && bound[11] == 'z' && bound[12] == 'n'
            && bound[13] == 'b' && bound[14] == '+' && bound[15] == '=' && bound[16] == '-'
            && bound[17] == 's' && bound[18] == 'r' && bound[19] == '?' && bound[20] == 'j'
            && bound[21] == 'k' && bound[22] == 'x' && bound[23] == 'a' && bound[24] == 'd'
            && bound[25] == 'A' && bound[26] == 'P' && bound[27] == 'c' && bound[28] == 'R');
    }
}

} // verus!
