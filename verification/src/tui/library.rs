//! The library workspace: albums, tracks without an album, and an album that is open.

use vstd::prelude::*;

use crate::db;
use crate::db::albums;
use crate::db::playlists;
use crate::db::LibraryDb;
use crate::db::LibraryView;
use crate::model::Album;
use crate::model::AlbumView;
use crate::model::Track;
use crate::model::TrackView;
use crate::order;
use crate::player::AudioPlayer;
use crate::selection::Selection;
use crate::text;
use crate::tui;
use crate::tui::AlbumDetail;
use crate::tui::AlbumDetailView;
use crate::tui::App;
use crate::tui::AppView;
use crate::tui::InputMode;
use crate::tui::RepeatMode;
use crate::tui::Screen;

verus! {

/// The albums that are shown for a filter.
#[verifier::opaque]
pub open spec fn albums_shown(view: LibraryView, filter: Option<Seq<char>>) -> Seq<AlbumView> {
    db::listed(
        albums::album_lines(view),
        albums::album_keys(view.albums),
        albums::kept_albums(view, db::sought(filter)),
        db::query_limit(500),
        0,
    )
}

/// The tracks without an album that are shown for a filter.
#[verifier::opaque]
pub open spec fn tracks_shown(view: LibraryView, filter: Option<Seq<char>>) -> Seq<TrackView> {
    db::listed(
        view.tracks,
        db::track_keys(view.tracks),
        db::kept_standalone(view, db::sought(filter)),
        db::query_limit(500),
        0,
    )
}

/// The playlists that are shown.
#[verifier::opaque]
pub open spec fn playlists_shown(view: LibraryView) -> Seq<(i64, Seq<char>, u64)> {
    db::picked(
        playlists::playlist_lines(view.playlists),
        order::listing_of(
            playlists::playlist_keys(view.playlists),
            db::everything(view.playlists.len()),
        ),
    )
}

/// The tracks of an album.
#[verifier::opaque]
pub open spec fn tracks_of_album(view: LibraryView, id: i64) -> Seq<TrackView> {
    if albums::album_known(view.albums, id) {
        db::named(view.tracks, view.albums[albums::album_row(view.albums, id)].tracks)
    } else {
        Seq::empty()
    }
}

/// The filter of the library, where one is set.
pub open spec fn filter_set(filter: Seq<char>) -> Option<Seq<char>> {
    if filter.len() == 0 {
        None
    } else {
        Some(filter)
    }
}

impl AppView {
    /// What the interface knows at its start.
    pub open spec fn initial(
        view: LibraryView,
        preferred_device: Option<Seq<char>>,
        show_notice: bool,
        workers: usize,
    ) -> AppView {
        AppView {
            db: view,
            playback: None,
            preferred_device,
            service: false,
            waiting: Seq::empty(),
            max_parallel_downloads: workers,
            screen: Screen::Library,
            input_mode: InputMode::Idle,
            input: Seq::empty(),
            status: "Pronto. / busca musica, ? mostra ajuda."@,
            busy: false,
            show_notice,
            search_title: "RESULTADOS"@,
            search_is_collection: false,
            search_history: Seq::empty(),
            search_results: Seq::empty(),
            selected_results: Set::empty(),
            search_index: 0,
            albums: albums_shown(view, None),
            library: tracks_shown(view, None),
            library_index: 0,
            library_filter: Seq::empty(),
            album_detail: None,
            queue: db::named(view.tracks, view.queue),
            queue_index: 0,
            current_index: None,
            jobs: Seq::empty(),
            job_index: 0,
            playlists: playlists_shown(view),
            playlist_index: 0,
            playlist_detail: None,
            suggestions: Seq::empty(),
            suggestions_loaded: false,
            selected_suggestions: Set::empty(),
            suggestion_index: 0,
            shuffle: false,
            repeat: RepeatMode::Off,
            show_help: false,
            should_quit: false,
            actions: Seq::empty(),
        }
    }

    /// An open album with its tracks as the library has them now.
    #[verifier::opaque]
    pub open spec fn album_reread(self) -> Option<AlbumDetailView> {
        match self.album_detail {
            Some(detail) => {
                let tracks = tracks_of_album(self.db, detail.album.id);
                Some(
                    AlbumDetailView {
                        tracks,
                        index: tui::clamped(detail.index, tracks.len() as int),
                        ..detail
                    },
                )
            },
            None => None,
        }
    }

    /// Everything that is shown of the library as it is now.
    #[verifier::opaque]
    pub open spec fn refreshed(self) -> AppView {
        let albums = albums_shown(self.db, filter_set(self.library_filter));
        let library = tracks_shown(self.db, filter_set(self.library_filter));
        let playlists = playlists_shown(self.db);
        AppView {
            albums,
            library,
            library_index: tui::clamped(
                self.library_index,
                (albums.len() + library.len()) as int,
            ),
            album_detail: self.album_reread(),
            playlists,
            playlist_index: tui::clamped(self.playlist_index, playlists.len() as int),
            ..self
        }
    }

    /// What was typed becomes the filter of the library.
    #[verifier::opaque]
    pub open spec fn filtered(self) -> AppView {
        let filter = text::trimmed(self.input);
        (AppView {
            library_filter: filter,
            library_index: 0,
            album_detail: None,
            ..self
        }).untyped().refreshed().said(
            if filter.len() == 0 {
                "Filtro da biblioteca removido."@
            } else {
                "Biblioteca filtrada por: "@ + filter
            },
        )
    }

    /// The selected track without an album.
    #[verifier::opaque]
    pub open spec fn selected_track(self) -> Option<TrackView> {
        let row = self.library_index - self.albums.len();
        if 0 <= row < self.library.len() {
            Some(self.library[row])
        } else {
            None
        }
    }

    /// Opening the selected album, or playing the selected track.
    #[verifier::opaque]
    pub open spec fn selection_opened(self) -> AppView {
        if self.library_index < self.albums.len() {
            let album = self.albums[self.library_index];
            (AppView {
                album_detail: Some(
                    AlbumDetailView {
                        album,
                        tracks: tracks_of_album(self.db, album.id),
                        index: 0,
                        parent_index: self.library_index,
                    },
                ),
                ..self
            }).said("Album aberto. Enter toca a faixa; A toca o album."@)
        } else {
            self.library_played()
        }
    }

    /// Going back from an album to the library, with the album selected.
    #[verifier::opaque]
    pub open spec fn album_closed(self) -> AppView {
        match self.album_detail {
            Some(detail) => (AppView {
                album_detail: None,
                library_index: tui::clamped(
                    detail.parent_index,
                    (self.albums.len() + self.library.len()) as int,
                ),
                ..self
            }).said("Biblioteca restaurada."@),
            None => self,
        }
    }

    /// Playing the open album, from the selected track or from the first one on.
    #[verifier::opaque]
    pub open spec fn album_played(self, from_selection: bool) -> AppView {
        match self.album_detail {
            Some(detail) => self.list_played(detail.tracks, detail.index, from_selection),
            None => self,
        }
    }

    /// Playing a list of tracks, from the selected one or from the first one on.
    #[verifier::opaque]
    pub open spec fn list_played(
        self,
        tracks: Seq<TrackView>,
        index: int,
        from_selection: bool,
    ) -> AppView {
        if from_selection && index < tracks.len() {
            if tracks[index].available {
                self.started_queue(tracks, Some(tracks[index].id))
            } else {
                self.said("Arquivo indisponivel. Restaure o caminho para tocar esta faixa."@)
            }
        } else {
            self.started_queue(tracks, None)
        }
    }

    /// Playing the selected track without an album; the one at hand is paused or goes on.
    #[verifier::opaque]
    pub open spec fn library_played(self) -> AppView {
        match self.selected_track() {
            Some(track) => if !track.available {
                self.said("Arquivo indisponivel. Importe novamente ou restaure o caminho."@)
            } else if self.playback is Some && self.current_id() == Some(track.id) {
                self.toggled_playback()
            } else {
                self.started_queue(self.library, Some(track.id))
            },
            None => self,
        }
    }
}

pub(crate) fn clamp_row(index: usize, count: usize) -> (result: usize)
    ensures
        result == tui::clamped(index as int, count as int),
{
    if index < count {
        index
    } else if count > 0 {
        count - 1
    } else {
        0
    }
}

/// The albums that are shown for a filter.
fn read_albums(db: &LibraryDb, filter: Option<&str>) -> (result: Vec<Album>)
    requires
        tui::sound(db@),
    ensures
        text::views(result@) == albums_shown(db@, text::seen(filter)),
        result@.len() <= 500,
{
    reveal(tui::sound);
    reveal(albums_shown);
    let found = db.albums(filter, 500);
    assert(text::views(found@).len() <= 500);
    found
}

/// The tracks without an album that are shown for a filter.
fn read_tracks(db: &LibraryDb, filter: Option<&str>) -> (result: Vec<Track>)
    ensures
        text::views(result@) == tracks_shown(db@, text::seen(filter)),
        result@.len() <= 500,
{
    reveal(tracks_shown);
    let found = db.standalone_tracks(filter, 500, 0);
    assert(text::views(found@).len() <= 500);
    found
}

/// The playlists that are shown.
pub(crate) fn read_playlists(db: &LibraryDb) -> (result: Vec<(i64, String, u64)>)
    ensures
        text::views(result@) == playlists_shown(db@),
{
    reveal(playlists_shown);
    db.playlists()
}

/// The tracks of an album.
fn read_album(db: &LibraryDb, id: i64) -> (result: Vec<Track>)
    requires
        tui::sound(db@),
    ensures
        text::views(result@) == tracks_of_album(db@, id),
{
    reveal(tui::sound);
    reveal(tracks_of_album);
    db.album_tracks(id)
}

impl App {
    /// The interface at its start.
    pub fn new(
        preferred_device: Option<String>,
        show_notice: bool,
        max_parallel_downloads: usize,
        db: LibraryDb,
    ) -> (result: Self)
        requires
            db@.well_formed(),
        ensures
            result@ == AppView::initial(
                db@,
                text::shown(preferred_device),
                show_notice,
                max_parallel_downloads,
            ),
            result@.well_formed(),
    {
        reveal(tui::sound);
        let albums = read_albums(&db, None);
        let library = read_tracks(&db, None);
        let queue = db.load_queue();
        let playlists = read_playlists(&db);
        let app = App {
            player: AudioPlayer::new(preferred_device),
            service: false,
            waiting: Vec::new(),
            max_parallel_downloads,
            screen: Screen::Library,
            input_mode: InputMode::Idle,
            input: String::new(),
            status: "Pronto. / busca musica, ? mostra ajuda.".to_owned(),
            busy: false,
            show_notice,
            search_title: "RESULTADOS".to_owned(),
            search_is_collection: false,
            search_history: Vec::new(),
            search_results: Vec::new(),
            selected_results: Selection::new(),
            search_index: 0,
            albums,
            library,
            library_index: 0,
            library_filter: String::new(),
            album_detail: None,
            queue,
            queue_index: 0,
            current_index: None,
            jobs: Vec::new(),
            job_index: 0,
            playlists,
            playlist_index: 0,
            playlist_detail: None,
            suggestions: Vec::new(),
            suggestions_loaded: false,
            selected_suggestions: Selection::new(),
            suggestion_index: 0,
            shuffle: false,
            repeat: RepeatMode::Off,
            show_help: false,
            should_quit: false,
            actions: Vec::new(),
            db,
        };
        proof {
            reveal_strlit("");
            assert(""@ =~= Seq::<char>::empty());
            assert(app@ =~= AppView::initial(
                db@,
                text::shown(preferred_device),
                show_notice,
                max_parallel_downloads,
            ));
        }
        app
    }

    /// How many rows the library shows.
    pub fn library_len(&self) -> (result: usize)
        requires
            self@.well_formed(),
        ensures
            result == self@.albums.len() + self@.library.len(),
    {
        self.albums.len() + self.library.len()
    }

    fn reread_album(&self) -> (result: Option<AlbumDetail>)
        requires
            self@.well_formed(),
        ensures
            tui::album_shown(result) == self@.album_reread(),
    {
        reveal(AppView::album_reread);
        match &self.album_detail {
            Some(detail) => {
                let tracks = read_album(&self.db, detail.album.id);
                let index: usize = clamp_row(detail.index, tracks.len());
                let fresh = AlbumDetail {
                    album: detail.album.clone(),
                    tracks,
                    index,
                    parent_index: detail.parent_index,
                };
                assert(fresh@ =~= self@.album_reread()->0);
                Some(fresh)
            },
            None => None,
        }
    }

    /// Shows the library as it is now.
    pub fn refresh_library(&mut self)
        requires
            old(self)@.well_formed(),
        ensures
            final(self)@ == old(self)@.refreshed(),
            final(self)@.well_formed(),
    {
        reveal(AppView::refreshed);
        reveal(AppView::album_reread);
        let filter = if self.library_filter.as_str().is_empty() {
            None
        } else {
            Some(self.library_filter.as_str())
        };
        assert(text::seen(filter) == filter_set(self@.library_filter));
        let albums = read_albums(&self.db, filter);
        let library = read_tracks(&self.db, filter);
        let playlists = read_playlists(&self.db);
        let detail = self.reread_album();
        self.show_lists(albums, library, playlists, detail);
    }

    fn show_lists(
        &mut self,
        albums: Vec<Album>,
        library: Vec<Track>,
        playlists: Vec<(i64, String, u64)>,
        detail: Option<AlbumDetail>,
    )
        requires
            albums@.len() <= 500,
            library@.len() <= 500,
        ensures
            final(self)@ == (AppView {
                albums: text::views(albums@),
                library: text::views(library@),
                library_index: tui::clamped(
                    old(self)@.library_index,
                    (albums@.len() + library@.len()) as int,
                ),
                album_detail: tui::album_shown(detail),
                playlists: text::views(playlists@),
                playlist_index: tui::clamped(
                    old(self)@.playlist_index,
                    playlists@.len() as int,
                ),
                ..old(self)@
            }),
    {
        let rows: usize = albums.len() + library.len();
        self.library_index = clamp_row(self.library_index, rows);
        self.playlist_index = clamp_row(self.playlist_index, playlists.len());
        self.albums = albums;
        self.library = library;
        self.album_detail = detail;
        self.playlists = playlists;
    }

    /// Makes what was typed the filter of the library.
    pub fn apply_library_filter(&mut self)
        requires
            old(self)@.well_formed(),
        ensures
            final(self)@ == old(self)@.filtered(),
            final(self)@.well_formed(),
    {
        reveal(AppView::untyped);
        reveal(AppView::filtered);
        reveal(AppView::refreshed);
        self.library_filter = text::trim(self.input.as_str()).to_owned();
        self.library_index = 0;
        self.album_detail = None;
        assert(self@ =~= (AppView {
            library_filter: text::trimmed(old(self)@.input),
            library_index: 0,
            album_detail: None,
            ..old(self)@
        }));
        self.stop_typing();
        self.refresh_library();
        if self.library_filter.as_str().is_empty() {
            self.say("Filtro da biblioteca removido.");
        } else {
            let filter = self.library_filter.clone();
            self.say_with("Biblioteca filtrada por: ", filter.as_str());
        }
    }

    /// The selected track without an album.
    pub fn selected_library_track(&self) -> (result: Option<&Track>)
        requires
            self@.well_formed(),
        ensures
            match result {
                Some(track) => self@.selected_track() == Some(track@),
                None => self@.selected_track() is None,
            },
    {
        reveal(AppView::selected_track);
        if self.library_index < self.albums.len() {
            return None;
        }
        let row: usize = self.library_index - self.albums.len();
        if row < self.library.len() {
            assert(self@.library[row as int] == self.library@[row as int]@);
            Some(&self.library[row])
        } else {
            None
        }
    }

    /// Opens the selected album, or plays the selected track.
    pub fn open_library_selection(&mut self)
        requires
            old(self)@.well_formed(),
        ensures
            final(self)@ == old(self)@.selection_opened(),
            final(self)@.well_formed(),
    {
        reveal(AppView::selection_opened);
        if self.library_index < self.albums.len() {
            let row: usize = self.library_index;
            assert(self@.albums[row as int] == self.albums@[row as int]@);
            let album = self.albums[row].clone();
            let tracks = read_album(&self.db, album.id);
            self.album_detail = Some(AlbumDetail { album, tracks, index: 0, parent_index: row });
            assert(self@ =~= (AppView {
                album_detail: Some(
                    AlbumDetailView {
                        album: old(self)@.albums[row as int],
                        tracks: tracks_of_album(
                            old(self)@.db,
                            old(self)@.albums[row as int].id,
                        ),
                        index: 0,
                        parent_index: row as int,
                    },
                ),
                ..old(self)@
            }));
            self.say("Album aberto. Enter toca a faixa; A toca o album.");
        } else {
            self.play_library();
        }
    }

    /// Goes back from an album to the library.
    pub fn close_album(&mut self)
        requires
            old(self)@.well_formed(),
        ensures
            final(self)@ == old(self)@.album_closed(),
            final(self)@.well_formed(),
    {
        reveal(AppView::album_closed);
        match self.album_detail.take() {
            Some(detail) => {
                self.library_index = clamp_row(
                    detail.parent_index,
                    self.albums.len() + self.library.len(),
                );
                assert(self@ =~= (AppView {
                    album_detail: None,
                    library_index: self@.library_index,
                    ..old(self)@
                }));
                self.say("Biblioteca restaurada.");
            },
            None => {
                assert(self@ =~= old(self)@);
            },
        }
    }

    pub(crate) fn play_list(&mut self, tracks: &Vec<Track>, index: usize, from_selection: bool)
        requires
            old(self)@.well_formed(),
        ensures
            final(self)@ == old(self)@.list_played(
                text::views(tracks@),
                index as int,
                from_selection,
            ),
            final(self)@.well_formed(),
    {
        reveal(AppView::list_played);
        if from_selection && index < tracks.len() {
            assert(text::views(tracks@)[index as int] == tracks@[index as int]@);
            if tracks[index].available {
                let id: i64 = tracks[index].id;
                self.start_queue(tracks, Some(id));
            } else {
                self.say("Arquivo indisponivel. Restaure o caminho para tocar esta faixa.");
            }
        } else {
            self.start_queue(tracks, None);
        }
    }

    /// Plays the open album, from the selected track or from the first one on.
    pub fn play_album(&mut self, from_selection: bool)
        requires
            old(self)@.well_formed(),
        ensures
            final(self)@ == old(self)@.album_played(from_selection),
            final(self)@.well_formed(),
    {
        reveal(AppView::album_played);
        let (tracks, index) = match &self.album_detail {
            Some(detail) => (db::copied_tracks(&detail.tracks), detail.index),
            None => {
                return;
            },
        };
        self.play_list(&tracks, index, from_selection);
    }

    /// Plays the selected track without an album.
    pub fn play_library(&mut self)
        requires
            old(self)@.well_formed(),
        ensures
            final(self)@ == old(self)@.library_played(),
            final(self)@.well_formed(),
    {
        reveal(AppView::library_played);
        let (id, available) = match self.selected_library_track() {
            Some(track) => (track.id, track.available),
            None => {
                return;
            },
        };
        if !available {
            self.say("Arquivo indisponivel. Importe novamente ou restaure o caminho.");
            return;
        }
        let current = match self.current_index {
            Some(index) => {
                assert(self@.queue[index as int] == self.queue@[index as int]@);
                Some(self.queue[index].id)
            },
            None => None,
        };
        assert(current == self@.current_id());
        if self.player.is_active() && current == Some(id) {
            self.toggle_playback();
            return;
        }
        let tracks = db::copied_tracks(&self.library);
        self.start_queue(&tracks, Some(id));
    }
}

/// Opening an album plays nothing, and going back restores the selection.
pub proof fn lemma_album_round_trip(app: AppView)
    requires
        app.well_formed(),
        app.library_index < app.albums.len(),
    ensures
        app.selection_opened().queue == app.queue,
        app.selection_opened().playback == app.playback,
        app.selection_opened().actions == app.actions,
        app.selection_opened().album_closed().library_index == app.library_index,
        app.selection_opened().album_closed().album_detail is None,
{
    reveal(AppView::said);
    reveal(AppView::selection_opened);
    reveal(AppView::album_closed);
}

/// Opening the interface asks for nothing: no search, no download and no update.
pub proof fn lemma_silent_start(
    view: LibraryView,
    preferred_device: Option<Seq<char>>,
    show_notice: bool,
    workers: usize,
)
    ensures
        AppView::initial(view, preferred_device, show_notice, workers).actions.len() == 0,
        !AppView::initial(view, preferred_device, show_notice, workers).busy,
        AppView::initial(view, preferred_device, show_notice, workers).waiting.len() == 0,
        AppView::initial(view, preferred_device, show_notice, workers).playback is None,
{
}

/// What is shown of the library is what fits the filter that is set: albums with all that fits them,
/// and tracks that belong to none, five hundred of each at most.
pub proof fn lemma_library_shown(app: AppView)
    ensures
        ({
            let filter = if app.library_filter.len() == 0 {
                None
            } else {
                Some(app.library_filter)
            };
            let after = app.refreshed();
            &&& after.albums == db::listed(
                albums::album_lines(app.db),
                albums::album_keys(app.db.albums),
                albums::kept_albums(app.db, db::sought(filter)),
                500,
                0,
            )
            &&& after.library == db::listed(
                app.db.tracks,
                db::track_keys(app.db.tracks),
                db::kept_standalone(app.db, db::sought(filter)),
                500,
                0,
            )
            &&& after.playlists == playlists_shown(app.db)
            &&& after.db == app.db
            &&& after.queue == app.queue
            &&& after.actions == app.actions
            &&& app.album_detail matches Some(detail) ==> after.album_detail is Some
                && after.album_detail->0.album == detail.album && after.album_detail->0.tracks
                == tracks_of_album(app.db, detail.album.id)
        }),
{
    reveal(AppView::refreshed);
    reveal(AppView::album_reread);
    reveal(albums_shown);
    reveal(tracks_shown);
}

/// What was typed becomes the filter, but for the whitespace around it, and the library is shown by
/// it from the top; an empty one shows everything again.
pub proof fn lemma_filter_set(app: AppView)
    ensures
        ({
            let (words, after) = (text::trimmed(app.input), app.filtered());
            &&& after.library_filter == words
            &&& after.albums == albums_shown(app.db, if words.len() == 0 {
                None
            } else {
                Some(words)
            })
            &&& after.library == tracks_shown(app.db, if words.len() == 0 {
                None
            } else {
                Some(words)
            })
            &&& after.library_index == 0
            &&& after.album_detail is None
            &&& after.input.len() == 0
            &&& after.input_mode == tui::InputMode::Idle
            &&& after.db == app.db
            &&& after.actions == app.actions
        }),
{
    reveal(AppView::filtered);
    reveal(AppView::untyped);
    reveal(AppView::refreshed);
    reveal(AppView::album_reread);
    reveal(AppView::said);
}

/// An album that is opened shows its own tracks in its own order, from the first on.
pub proof fn lemma_album_opened(app: AppView)
    requires
        0 <= app.library_index < app.albums.len(),
    ensures
        ({
            let (album, after) = (app.albums[app.library_index], app.selection_opened());
            &&& after.album_detail is Some
            &&& after.album_detail->0.album == album
            &&& after.album_detail->0.index == 0
            &&& albums::album_known(app.db.albums, album.id) ==> after.album_detail->0.tracks
                == db::named(
                app.db.tracks,
                app.db.albums[albums::album_row(app.db.albums, album.id)].tracks,
            )
        }),
{
    reveal(AppView::selection_opened);
    reveal(AppView::said);
    reveal(tracks_of_album);
}

/// The rows of the library are its albums and, below them, the tracks without one: a row past the
/// albums selects the track that stands there.
pub proof fn lemma_selected_row(app: AppView, i: int)
    ensures
        0 <= i < app.library.len() && app.library_index == app.albums.len() + i
            ==> app.selected_track() == Some(app.library[i]),
        0 <= app.library_index < app.albums.len() ==> app.selected_track() is None,
{
    reveal(AppView::selected_track);
}

/// Playing from a list begins with its selected track, or with its first where the whole list is
/// played; a selected track whose file is gone is not played, and nothing changes.
pub proof fn lemma_list_played(app: AppView, tracks: Seq<TrackView>, index: int)
    requires
        0 <= index < tracks.len(),
    ensures
        tracks[index].available ==> app.list_played(tracks, index, true) == app.started_queue(
            tracks,
            Some(tracks[index].id),
        ),
        !tracks[index].available ==> app.list_played(tracks, index, true).queue == app.queue
            && app.list_played(tracks, index, true).actions == app.actions && app.list_played(
            tracks,
            index,
            true,
        ).playback == app.playback,
        app.list_played(tracks, index, false) == app.started_queue(tracks, None),
{
    reveal(AppView::list_played);
    reveal(AppView::said);
}

/// The open album is played by its own tracks, from the selected one or from the first.
pub proof fn lemma_album_played(app: AppView, from_selection: bool)
    requires
        app.album_detail is Some,
    ensures
        app.album_played(from_selection) == app.list_played(
            app.album_detail->0.tracks,
            app.album_detail->0.index,
            from_selection,
        ),
{
    reveal(AppView::album_played);
}

/// A track of the library is played with all that is shown beside it as the queue; the one that is
/// being played is paused or goes on, and one whose file is gone is not played.
pub proof fn lemma_library_played(app: AppView, track: TrackView)
    requires
        app.selected_track() == Some(track),
    ensures
        !track.available ==> app.library_played().queue == app.queue && app.library_played().actions
            == app.actions && app.library_played().playback == app.playback,
        track.available && app.playback is Some && app.current_id() == Some(track.id)
            ==> app.library_played() == app.toggled_playback(),
        track.available && !(app.playback is Some && app.current_id() == Some(track.id))
            ==> app.library_played() == app.started_queue(app.library, Some(track.id)),
        app.library_index >= app.albums.len() ==> app.selection_opened() == app.library_played(),
{
    reveal(AppView::library_played);
    reveal(AppView::selection_opened);
    reveal(AppView::said);
}

/// The interface begins with the library and the queue as they were kept, without shuffling or
/// repeating, on the library and with nothing being typed.
pub proof fn lemma_start_as_kept(
    view: LibraryView,
    device: Option<Seq<char>>,
    show_notice: bool,
    workers: usize,
)
    ensures
        ({
            let app = AppView::initial(view, device, show_notice, workers);
            &&& app.db == view
            &&& app.queue == db::named(view.tracks, view.queue)
            &&& app.current_index is None
            &&& app.albums == albums_shown(view, None)
            &&& app.library == tracks_shown(view, None)
            &&& app.playlists == playlists_shown(view)
            &&& app.screen == Screen::Library
            &&& app.show_notice == show_notice
            &&& app.preferred_device == device
            &&& app.max_parallel_downloads == workers
            &&& !app.shuffle
            &&& app.repeat == RepeatMode::Off
            &&& app.input_mode == InputMode::Idle
            &&& !app.show_help
            &&& !app.should_quit
            &&& !app.suggestions_loaded
        }),
{
}

} // verus!
