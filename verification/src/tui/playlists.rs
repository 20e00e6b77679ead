//! The playlists workspace: all playlists, and one that is open.

use vstd::prelude::*;

use crate::db;
use crate::db::playlists;
use crate::db::LibraryDb;
use crate::db::LibraryView;
use crate::model::Track;
use crate::model::TrackView;
use crate::text;
use crate::tui;
use crate::tui::library;
use crate::tui::Action;
use crate::tui::ActionView;
use crate::tui::App;
use crate::tui::AppView;
use crate::tui::PlaylistDetail;
use crate::tui::PlaylistDetailView;

verus! {

/// What comes of putting a track into a playlist.
pub struct Gain {
    pub db: LibraryView,
    /// The playlist, where there is one.
    pub id: Option<i64>,
    /// Why the track is not in it.
    pub fault: Option<Seq<char>>,
}

/// What comes of putting a track at the end of the playlist with a name, which is made where there
/// is none.
#[verifier::opaque]
pub open spec fn gained(view: LibraryView, name: Seq<char>, track_id: i64) -> Gain {
    match playlists::playlist_fault(view.playlists, name) {
        Some(message) => Gain { db: view, id: None, fault: Some(message) },
        None => {
            let made = LibraryView {
                playlists: playlists::with_playlist(view.playlists, name),
                ..view
            };
            let row = playlists::name_row(made.playlists, name);
            let id = made.playlists[row].id;
            if db::known(view.tracks, track_id) {
                Gain {
                    db: LibraryView {
                        playlists: playlists::with_playlist_tracks(
                            made.playlists,
                            row,
                            made.playlists[row].tracks.push(track_id),
                        ),
                        ..made
                    },
                    id: Some(id),
                    fault: None,
                }
            } else {
                Gain { db: made, id: Some(id), fault: Some("FOREIGN KEY constraint failed: Error code 787: Foreign key constraint failed"@) }
            }
        },
    }
}

/// The library without the track at a position of a playlist, where there is one.
#[verifier::opaque]
pub open spec fn without_entry(view: LibraryView, id: i64, position: int) -> Option<LibraryView> {
    let row = playlists::playlist_row(view.playlists, id);
    if playlists::playlist_known(view.playlists, id) && 0 <= position
        < view.playlists[row].tracks.len() {
        Some(
            LibraryView {
                playlists: playlists::with_playlist_tracks(
                    view.playlists,
                    row,
                    view.playlists[row].tracks.remove(position),
                ),
                ..view
            },
        )
    } else {
        None
    }
}

/// The tracks of a playlist.
#[verifier::opaque]
pub open spec fn tracks_of_playlist(view: LibraryView, id: i64) -> Seq<TrackView> {
    if playlists::playlist_known(view.playlists, id) {
        db::named(
            view.tracks,
            view.playlists[playlists::playlist_row(view.playlists, id)].tracks,
        )
    } else {
        Seq::empty()
    }
}

impl AppView {
    /// The same with the playlists as the library has them now.
    #[verifier::opaque]
    pub open spec fn playlists_reread(self) -> AppView {
        let shown = library::playlists_shown(self.db);
        AppView {
            playlists: shown,
            playlist_index: tui::clamped(self.playlist_index, shown.len() as int),
            ..self
        }
    }

    /// A track put into the playlist whose name was typed.
    #[verifier::opaque]
    pub open spec fn playlist_submitted(self, track_id: i64) -> AppView {
        let name = text::trimmed(self.input);
        if name.len() == 0 {
            self.untyped()
        } else {
            let gain = gained(self.db, name, track_id);
            let changed = AppView { db: gain.db, ..self.untyped() };
            let kept = match gain.id {
                Some(id) => changed.asked(ActionView::StorePlaylist { id }),
                None => changed,
            };
            match gain.fault {
                None => kept.playlists_reread().said("Adicionada a playlist "@ + name + "."@),
                Some(message) => kept.said("Falha na playlist: "@ + message),
            }
        }
    }

    /// Opening the selected playlist.
    #[verifier::opaque]
    pub open spec fn playlist_opened(self) -> AppView {
        if self.playlist_index < self.playlists.len() {
            let line = self.playlists[self.playlist_index];
            (AppView {
                playlist_detail: Some(
                    PlaylistDetailView {
                        id: line.0,
                        name: line.1,
                        tracks: tracks_of_playlist(self.db, line.0),
                        index: 0,
                        parent_index: self.playlist_index,
                    },
                ),
                ..self
            }).said("Playlist aberta. Enter toca a faixa; A toca desde o inicio."@)
        } else {
            self
        }
    }

    /// Going back from a playlist to all of them, with that one selected.
    #[verifier::opaque]
    pub open spec fn playlist_closed(self) -> AppView {
        match self.playlist_detail {
            Some(detail) => (AppView {
                playlist_detail: None,
                playlist_index: tui::clamped(detail.parent_index, self.playlists.len() as int),
                ..self
            }).said("Lista de playlists restaurada."@),
            None => self,
        }
    }

    /// Playing the open playlist, from the selected track or from the first one on.
    #[verifier::opaque]
    pub open spec fn playlist_played(self, from_selection: bool) -> AppView {
        match self.playlist_detail {
            Some(detail) => self.list_played(detail.tracks, detail.index, from_selection),
            None => self,
        }
    }

    /// Taking the selected track out of the open playlist.
    #[verifier::opaque]
    pub open spec fn entry_removed(self) -> AppView {
        match self.playlist_detail {
            Some(detail) => match without_entry(self.db, detail.id, detail.index) {
                Some(view) => {
                    let tracks = tracks_of_playlist(view, detail.id);
                    (AppView {
                        db: view,
                        playlist_detail: Some(
                            PlaylistDetailView {
                                tracks,
                                index: tui::clamped(detail.index, tracks.len() as int),
                                ..detail
                            },
                        ),
                        ..self
                    }).playlists_reread().asked(ActionView::StorePlaylist { id: detail.id }).said(
                        "Faixa removida da playlist; biblioteca e fila preservadas."@,
                    )
                },
                None => self.said("A faixa selecionada nao existe mais na playlist."@),
            },
            None => self,
        }
    }
}

fn gain_track(db: &mut LibraryDb, name: &str, track_id: i64) -> (result: (
    Option<i64>,
    Option<String>,
))
    requires
        tui::sound(old(db)@),
        text::trimmed(name@) == name@,
    ensures
        tui::sound(final(db)@),
        gained(old(db)@, name@, track_id) == (Gain {
            db: final(db)@,
            id: result.0,
            fault: text::shown(result.1),
        }),
{
    reveal(tui::sound);
    reveal(gained);
    let id: i64 = match db.create_playlist(name) {
        Ok(id) => id,
        Err(message) => {
            return (None, Some(message));
        },
    };
    proof {
        let row = playlists::playlist_row(db@.playlists, id);
        assert(db@.playlists[row].id == id);
    }
    match db.add_to_playlist(id, track_id) {
        Ok(()) => (Some(id), None),
        Err(message) => (Some(id), Some(message)),
    }
}

fn take_entry(db: &mut LibraryDb, id: i64, position: usize) -> (result: bool)
    requires
        tui::sound(old(db)@),
    ensures
        tui::sound(final(db)@),
        result == (without_entry(old(db)@, id, position as int) is Some),
        final(db)@ == match without_entry(old(db)@, id, position as int) {
            Some(view) => view,
            None => old(db)@,
        },
{
    reveal(tui::sound);
    reveal(without_entry);
    db.remove_from_playlist(id, position)
}

fn read_playlist(db: &LibraryDb, id: i64) -> (result: Vec<Track>)
    requires
        tui::sound(db@),
    ensures
        text::views(result@) == tracks_of_playlist(db@, id),
{
    reveal(tui::sound);
    reveal(tracks_of_playlist);
    db.playlist_tracks(id)
}

impl App {
    fn reread_playlists(&mut self)
        requires
            old(self)@.well_formed(),
        ensures
            final(self)@ == old(self)@.playlists_reread(),
            final(self)@.well_formed(),
    {
        reveal(AppView::playlists_reread);
        let shown = library::read_playlists(&self.db);
        self.playlist_index = library::clamp_row(self.playlist_index, shown.len());
        self.playlists = shown;
        assert(self@ =~= old(self)@.playlists_reread());
    }

    /// Puts a track into the playlist whose name was typed.
    pub fn submit_playlist(&mut self, track_id: i64)
        requires
            old(self)@.well_formed(),
        ensures
            final(self)@ == old(self)@.playlist_submitted(track_id),
            final(self)@.well_formed(),
    {
        reveal(AppView::playlist_submitted);
        reveal(AppView::untyped);
        let name = text::trim(self.input.as_str()).to_owned();
        proof {
            text::lemma_trimmed_twice(self.input@);
        }
        self.stop_typing();
        if name.as_str().is_empty() {
            return;
        }
        let ghost typed = self@;
        let (id, fault) = gain_track(&mut self.db, name.as_str(), track_id);
        assert(self@ =~= (AppView { db: self@.db, ..typed }));
        match id {
            Some(id) => {
                self.ask(Action::StorePlaylist { id });
            },
            None => {},
        }
        match fault {
            None => {
                self.reread_playlists();
                self.say_of("Adicionada a playlist ", name.as_str(), ".");
            },
            Some(message) => {
                self.say_with("Falha na playlist: ", message.as_str());
            },
        }
    }

    /// Opens the selected playlist.
    pub fn open_playlist(&mut self)
        requires
            old(self)@.well_formed(),
        ensures
            final(self)@ == old(self)@.playlist_opened(),
            final(self)@.well_formed(),
    {
        reveal(AppView::playlist_opened);
        let row: usize = self.playlist_index;
        if row >= self.playlists.len() {
            return;
        }
        assert(self@.playlists[row as int] == self.playlists@[row as int]@);
        let id: i64 = self.playlists[row].0;
        let name = self.playlists[row].1.clone();
        let tracks = read_playlist(&self.db, id);
        self.show_playlist(PlaylistDetail { id, name, tracks, index: 0, parent_index: row });
        self.say("Playlist aberta. Enter toca a faixa; A toca desde o inicio.");
    }

    fn show_playlist(&mut self, detail: PlaylistDetail)
        ensures
            final(self)@ == (AppView { playlist_detail: Some(detail@), ..old(self)@ }),
            old(self)@.well_formed() && tui::on_row(detail@.index, detail@.tracks.len() as int)
                ==> final(self)@.well_formed(),
    {
        self.playlist_detail = Some(detail);
        assert(self@ =~= (AppView { playlist_detail: Some(detail@), ..old(self)@ }));
    }

    /// Goes back from a playlist to all of them.
    pub fn close_playlist(&mut self)
        requires
            old(self)@.well_formed(),
        ensures
            final(self)@ == old(self)@.playlist_closed(),
            final(self)@.well_formed(),
    {
        reveal(AppView::playlist_closed);
        match self.playlist_detail.take() {
            Some(detail) => {
                self.playlist_index = library::clamp_row(
                    detail.parent_index,
                    self.playlists.len(),
                );
                assert(self@ =~= (AppView {
                    playlist_detail: None,
                    playlist_index: self@.playlist_index,
                    ..old(self)@
                }));
                self.say("Lista de playlists restaurada.");
            },
            None => {
                assert(self@ =~= old(self)@);
            },
        }
    }

    /// Plays the open playlist, from the selected track or from the first one on.
    pub fn play_playlist(&mut self, from_selection: bool)
        requires
            old(self)@.well_formed(),
        ensures
            final(self)@ == old(self)@.playlist_played(from_selection),
            final(self)@.well_formed(),
    {
        reveal(AppView::playlist_played);
        let (tracks, index) = match &self.playlist_detail {
            Some(detail) => (db::copied_tracks(&detail.tracks), detail.index),
            None => {
                return;
            },
        };
        self.play_list(&tracks, index, from_selection);
    }

    /// Takes the selected track out of the open playlist.
    pub fn remove_playlist_track(&mut self)
        requires
            old(self)@.well_formed(),
        ensures
            final(self)@ == old(self)@.entry_removed(),
            final(self)@.well_formed(),
    {
        reveal(AppView::entry_removed);
        let detail = match self.playlist_detail.take() {
            Some(detail) => detail,
            None => {
                assert(self@ =~= old(self)@);
                return;
            },
        };
        let id: i64 = detail.id;
        if take_entry(&mut self.db, id, detail.index) {
            let ghost view = self@.db;
            let tracks = read_playlist(&self.db, id);
            let index: usize = library::clamp_row(detail.index, tracks.len());
            self.show_playlist(PlaylistDetail { tracks, index, ..detail });
            assert(self@ =~= (AppView {
                db: view,
                playlist_detail: self@.playlist_detail,
                ..old(self)@
            }));
            self.reread_playlists();
            self.ask(Action::StorePlaylist { id });
            self.say("Faixa removida da playlist; biblioteca e fila preservadas.");
        } else {
            self.show_playlist(detail);
            assert(self@ =~= old(self)@);
            self.say("A faixa selecionada nao existe mais na playlist.");
        }
    }
}

/// Opening a playlist plays nothing, and going back restores the selection.
pub proof fn lemma_playlist_round_trip(app: AppView)
    requires
        app.well_formed(),
        app.playlist_index < app.playlists.len(),
    ensures
        app.playlist_opened().queue == app.queue,
        app.playlist_opened().playback == app.playback,
        app.playlist_opened().actions == app.actions,
        app.playlist_opened().playlist_closed().playlist_index == app.playlist_index,
        app.playlist_opened().playlist_closed().playlist_detail is None,
{
    reveal(AppView::said);
    reveal(AppView::playlist_opened);
    reveal(AppView::playlist_closed);
}

/// Taking a track out of a playlist leaves the tracks of the library, its files and the queue as
/// they were; of the playlist, the tracks before it keep their places and those after it move up.
pub proof fn lemma_removal_spares_the_rest(app: AppView)
    requires
        app.well_formed(),
    ensures
        app.entry_removed().db.tracks == app.db.tracks,
        app.entry_removed().db.queue == app.db.queue,
        app.entry_removed().queue == app.queue,
        app.entry_removed().current_index == app.current_index,
        app.entry_removed().playback == app.playback,
        app.playlist_detail matches Some(detail) ==> {
            let row = playlists::playlist_row(app.db.playlists, detail.id);
            let before = app.db.playlists[row].tracks;
            playlists::playlist_known(app.db.playlists, detail.id) && detail.index < before.len()
                ==> app.entry_removed().db.playlists[row].tracks == before.take(detail.index)
                + before.skip(detail.index + 1)
        },
{
    reveal(AppView::said);
    reveal(AppView::asked);
    reveal(AppView::playlists_reread);
    reveal(AppView::entry_removed);
    reveal(without_entry);
    match app.playlist_detail {
        Some(detail) => {
            let row = playlists::playlist_row(app.db.playlists, detail.id);
            let before = app.db.playlists[row].tracks;
            if playlists::playlist_known(app.db.playlists, detail.id) && detail.index
                < before.len() {
                assert(before.remove(detail.index) =~= before.take(detail.index) + before.skip(
                    detail.index + 1,
                ));
                assert(0 <= row < app.db.playlists.len());
            }
        },
        None => {},
    }
}

/// A track goes to the end of the playlist that bears the name, which is made where there is none;
/// every other playlist, and everything else in the library, stays as it was.
pub proof fn lemma_track_gained(view: LibraryView, name: Seq<char>, track_id: i64)
    requires
        view.well_formed(),
        playlists::playlist_fault(view.playlists, name) is None,
        db::known(view.tracks, track_id),
    ensures
        ({
            let gain = gained(view, name, track_id);
            let after = gain.db.playlists;
            let row = playlists::name_row(after, name);
            let before = playlists::name_row(view.playlists, name);
            &&& gain.fault is None
            &&& 0 <= row < after.len()
            &&& after[row].name == name
            &&& gain.id == Some(after[row].id)
            &&& after[row].tracks.last() == track_id
            &&& before < view.playlists.len() ==> row == before && after.len()
                == view.playlists.len() && after[row].tracks.drop_last()
                == view.playlists[row].tracks && after[row].id == view.playlists[row].id
            &&& before >= view.playlists.len() ==> after.len() == view.playlists.len() + 1
                && after[row].tracks.len() == 1
            &&& forall|i: int|
                0 <= i < view.playlists.len() && (#[trigger] view.playlists[i]).name != name
                    ==> after[i] == view.playlists[i]
            &&& gain.db.tracks == view.tracks
            &&& gain.db.albums == view.albums
            &&& gain.db.queue == view.queue
            &&& gain.db.jobs == view.jobs
        }),
{
    reveal(gained);
    playlists::lemma_one_playlist_of_a_name(view, name);
    let made = playlists::with_playlist(view.playlists, name);
    let at = playlists::name_row(made, name);
    let after = gained(view, name, track_id).db.playlists;
    assert(after[at].name == name);
    lemma_same_name_row(made, after, name);
    if playlists::name_row(view.playlists, name) < view.playlists.len() {
        assert(made == view.playlists);
        assert(after[at].tracks.drop_last() =~= view.playlists[at].tracks);
    }
    assert forall|i: int| 0 <= i < view.playlists.len() && (#[trigger] view.playlists[i]).name
        != name implies after[i] == view.playlists[i] by {
        assert(made.take(view.playlists.len() as int)[i] == view.playlists[i]);
        assert(made[i] == view.playlists[i]);
        assert(i != at);
    }
    if playlists::name_row(view.playlists, name) >= view.playlists.len() {
        assert(made.len() == view.playlists.len() + 1);
        assert(made.last().tracks.len() == 0);
        assert(made[at].name == name);
        assert(at == view.playlists.len()) by {
            if at < view.playlists.len() {
                assert(made.take(view.playlists.len() as int)[at] == view.playlists[at]);
                assert(made == view.playlists);
            }
        }
    }
}

proof fn lemma_same_name_row(
    before: Seq<db::PlaylistRowView>,
    after: Seq<db::PlaylistRowView>,
    name: Seq<char>,
)
    requires
        before.len() == after.len(),
        forall|i: int| 0 <= i < before.len() ==> (#[trigger] after[i]).name == before[i].name,
    ensures
        playlists::name_row(after, name) == playlists::name_row(before, name),
    decreases before.len(),
{
    if before.len() > 0 && before[0].name != name {
        assert(after[0].name == before[0].name);
        let (x, y) = (before.skip(1), after.skip(1));
        assert forall|i: int| 0 <= i < x.len() implies (#[trigger] y[i]).name == x[i].name by {
            assert(y[i] == after[i + 1]);
        }
        lemma_same_name_row(x, y, name);
    } else if before.len() > 0 {
        assert(after[0].name == before[0].name);
    }
}

/// The playlist whose name was typed gets the track and is kept; nothing is done where no name was
/// typed.
pub proof fn lemma_playlist_typed(app: AppView, track_id: i64)
    ensures
        ({
            let (name, after) = (text::trimmed(app.input), app.playlist_submitted(track_id));
            let gain = gained(app.db, name, track_id);
            &&& after.input.len() == 0
            &&& after.input_mode == tui::InputMode::Idle
            &&& name.len() == 0 ==> after.db == app.db && after.actions == app.actions
            &&& name.len() > 0 ==> after.db == gain.db
            &&& name.len() > 0 ==> (gain.id matches Some(id) ==> after.actions == app.actions.push(
                ActionView::StorePlaylist { id },
            ))
            &&& name.len() > 0 && gain.fault is None ==> after.playlists
                == library::playlists_shown(gain.db)
            &&& name.len() > 0 ==> (gain.fault matches Some(message) ==> text::ends_with(
                after.status,
                message,
            ))
            &&& after.queue == app.queue
        }),
{
    reveal(AppView::playlist_submitted);
    reveal(AppView::untyped);
    reveal(AppView::playlists_reread);
    reveal(AppView::said);
    reveal(AppView::asked);
    let gain = gained(app.db, text::trimmed(app.input), track_id);
    if gain.fault is Some {
        text::lemma_occurs_between("Falha na playlist: "@, gain.fault->0, Seq::empty());
    }
}

/// A playlist that is opened shows its own tracks in its own order, from the first on, and is played
/// by them.
pub proof fn lemma_playlist_opened(app: AppView, from_selection: bool)
    requires
        0 <= app.playlist_index < app.playlists.len(),
    ensures
        ({
            let (line, after) = (app.playlists[app.playlist_index], app.playlist_opened());
            &&& after.playlist_detail is Some
            &&& after.playlist_detail->0.id == line.0
            &&& after.playlist_detail->0.name == line.1
            &&& after.playlist_detail->0.index == 0
            &&& playlists::playlist_known(app.db.playlists, line.0)
                ==> after.playlist_detail->0.tracks == db::named(
                app.db.tracks,
                app.db.playlists[playlists::playlist_row(app.db.playlists, line.0)].tracks,
            )
            &&& after.playlist_played(from_selection) == after.list_played(
                after.playlist_detail->0.tracks,
                0,
                from_selection,
            )
        }),
{
    reveal(AppView::playlist_opened);
    reveal(AppView::playlist_played);
    reveal(AppView::said);
    reveal(tracks_of_playlist);
}

/// Taking the selected track out of the open playlist keeps the playlist, shows what is left of it
/// and is kept; a place that is not there any more changes nothing.
pub proof fn lemma_entry_removed(app: AppView)
    requires
        app.playlist_detail is Some,
        0 <= app.playlist_detail->0.index,
    ensures
        ({
            let (detail, after) = (app.playlist_detail->0, app.entry_removed());
            let row = playlists::playlist_row(app.db.playlists, detail.id);
            let there = playlists::playlist_known(app.db.playlists, detail.id) && detail.index
                < app.db.playlists[row].tracks.len();
            &&& !there ==> after.db == app.db && after.actions == app.actions
            &&& there ==> {
                &&& after.db == playlists::with_removed(app.db, detail.id, detail.index)
                &&& after.playlist_detail is Some
                &&& after.playlist_detail->0.id == detail.id
                &&& after.playlist_detail->0.tracks == tracks_of_playlist(after.db, detail.id)
                &&& after.actions == app.actions.push(ActionView::StorePlaylist { id: detail.id })
                &&& after.playlists == library::playlists_shown(after.db)
            }
        }),
{
    reveal(AppView::entry_removed);
    reveal(AppView::playlists_reread);
    reveal(AppView::said);
    reveal(AppView::asked);
    reveal(without_entry);
}

} // verus!
