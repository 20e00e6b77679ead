//! Playing from the queue.

use vstd::prelude::*;

use crate::db;
use crate::db::LibraryDb;
use crate::model::Track;
use crate::model::TrackView;
use crate::player;
use crate::player::PlaybackState;
use crate::player::Playback;
use crate::player::MAX_SAMPLE_RATE;
use crate::player::MIN_SAMPLE_RATE;
use crate::text;
use crate::tui;
use crate::tui::Action;
use crate::tui::ActionView;
use crate::tui::App;
use crate::tui::AppView;
use crate::tui::RepeatMode;

verus! {

/// The tracks whose files are there, in order.
pub open spec fn available_tracks(tracks: Seq<TrackView>) -> Seq<TrackView> {
    tracks.filter(|track: TrackView| track.available)
}

/// The position of the first track with this identifier.
pub open spec fn id_position(tracks: Seq<TrackView>, id: i64) -> Option<int>
    decreases tracks.len(),
{
    if tracks.len() == 0 {
        None
    } else if tracks[0].id == id {
        Some(0)
    } else {
        match id_position(tracks.skip(1), id) {
            Some(i) => Some(i + 1),
            None => None,
        }
    }
}

/// Where playing begins: at the track that is wanted, and else at the first one.
pub open spec fn first_played(tracks: Seq<TrackView>, wanted: Option<i64>) -> int {
    match wanted {
        Some(id) => match id_position(tracks, id) {
            Some(i) => i,
            None => 0,
        },
        None => 0,
    }
}

impl AppView {
    /// Pausing, or going on.
    #[verifier::opaque]
    pub open spec fn toggled_playback(self) -> AppView {
        match self.playback {
            Some(playback) => (AppView {
                playback: Some(Playback { paused: !playback.paused, ..playback }),
                ..self
            }).asked(ActionView::Pause { paused: !playback.paused }).said(
                if playback.paused {
                    "Reproducao retomada."@
                } else {
                    "Reproducao pausada."@
                },
            ),
            None => self.said("Nenhuma musica esta tocando."@),
        }
    }

    /// Stopping.
    #[verifier::opaque]
    pub open spec fn stopped_playback(self) -> AppView {
        if self.playback is Some {
            (AppView { playback: None, current_index: None, ..self }).asked(ActionView::Stop).said(
                "Reproducao parada."@,
            )
        } else {
            self.said("Nenhuma musica esta tocando."@)
        }
    }

    /// Asking for the track at hand to be played.
    #[verifier::opaque]
    pub open spec fn played_current(self) -> AppView {
        match self.current_index {
            Some(index) => (AppView { playback: None, ..self }).asked(
                ActionView::Play { path: self.queue[index].path },
            ),
            None => self,
        }
    }

    /// Going to a place of the queue.
    #[verifier::opaque]
    pub open spec fn jumped(self, index: int) -> AppView {
        (AppView { current_index: Some(index), queue_index: index, ..self }).played_current()
    }

    /// Going to the next track; `roll` is the place that chance gives while shuffling.
    #[verifier::opaque]
    pub open spec fn advanced(self, roll: int) -> AppView {
        if self.queue.len() == 0 {
            self
        } else if self.shuffle && self.queue.len() > 1 {
            self.jumped(roll)
        } else {
            match self.current_index {
                Some(index) => if index + 1 < self.queue.len() {
                    self.jumped(index + 1)
                } else if self.repeat == RepeatMode::All {
                    self.jumped(0)
                } else {
                    self.stopped_playback()
                },
                None => self.jumped(0),
            }
        }
    }

    /// Going to the track before.
    #[verifier::opaque]
    pub open spec fn retreated(self) -> AppView {
        if self.queue.len() == 0 {
            self
        } else {
            self.jumped(
                match self.current_index {
                    Some(index) => tui::previous_row(index),
                    None => 0,
                },
            )
        }
    }

    /// What the end of a track leads to.
    #[verifier::opaque]
    pub open spec fn ended(self, roll: int) -> AppView {
        if self.repeat == RepeatMode::One {
            self.played_current()
        } else {
            self.advanced(roll)
        }
    }

    /// Keeping the queue.
    #[verifier::opaque]
    pub open spec fn queue_saved(self) -> AppView {
        match with_queue(self.db, self.queue) {
            Some(view) => (AppView { db: view, ..self }).asked(ActionView::StoreQueue),
            None => self.said("Falha ao salvar fila: "@ + "FOREIGN KEY constraint failed: Error code 787: Foreign key constraint failed"@),
        }
    }

    /// Making a queue of the tracks of a list that are there, and playing it.
    #[verifier::opaque]
    pub open spec fn started_queue(self, tracks: Seq<TrackView>, wanted: Option<i64>) -> AppView {
        let available = available_tracks(tracks);
        if available.len() == 0 {
            self.said("Nenhuma faixa disponivel nesta colecao."@)
        } else {
            let first = first_played(available, wanted);
            (AppView {
                queue: available,
                current_index: Some(first),
                queue_index: first,
                ..self
            }).queue_saved().played_current()
        }
    }

    /// Choosing a place of the queue: the track at hand is paused or goes on.
    #[verifier::opaque]
    pub open spec fn activated(self, index: int) -> AppView {
        if index >= self.queue.len() {
            self
        } else if self.playback is Some && self.current_index == Some(index) {
            self.toggled_playback()
        } else {
            self.jumped(index)
        }
    }

    /// Taking the selected track out of the queue.
    #[verifier::opaque]
    pub open spec fn unqueued(self) -> AppView {
        let removed = self.queue_index;
        if removed >= self.queue.len() {
            self
        } else {
            let silent = if self.current_index == Some(removed) {
                self.stopped_playback()
            } else {
                self
            };
            silent.cut(removed).queue_saved()
        }
    }

    /// The queue without one of its rows.
    #[verifier::opaque]
    pub open spec fn cut(self, removed: int) -> AppView {
        AppView {
            queue: self.queue.remove(removed),
            current_index: match self.current_index {
                Some(current) => if current == removed {
                    None
                } else if current > removed {
                    Some(current - 1)
                } else {
                    Some(current)
                },
                None => None,
            },
            queue_index: tui::clamped(removed, self.queue.len() - 1),
            ..self
        }
    }

    /// What playing the track at hand led to: the rate of the device, or what went wrong.
    #[verifier::opaque]
    pub open spec fn play_answered(self, result: Result<u32, Seq<char>>) -> AppView {
        match result {
            Ok(sample_rate) => {
                let playing = AppView {
                    playback: Some(
                        Playback {
                            paused: false,
                            volume: player::DEFAULT_VOLUME,
                            seek_millis: player::NO_SEEK,
                            position_frames: 0,
                            underflows: 0,
                            sample_rate,
                        },
                    ),
                    ..self
                };
                match self.current_index {
                    Some(index) => playing.said(
                        "Tocando: "@ + self.queue[index].artist + " - "@
                            + self.queue[index].title,
                    ),
                    None => playing,
                }
            },
            Err(error) => (AppView { playback: None, current_index: None, ..self }).said(
                "Nao foi possivel tocar: "@ + error,
            ),
        }
    }

    /// What a fault of the player leads to.
    #[verifier::opaque]
    pub open spec fn player_failed(self, error: Seq<char>) -> AppView {
        (AppView { playback: None, current_index: None, ..self }).asked(ActionView::Stop).said(
            error,
        )
    }

    /// Going on some seconds later or earlier.
    #[verifier::opaque]
    pub open spec fn sought(self, seconds: int) -> AppView {
        match self.playback {
            Some(playback) => {
                let millis = player::seek_target(
                    player::frames_to_millis(playback.position_frames, playback.sample_rate),
                    seconds,
                );
                (AppView {
                    playback: Some(Playback { seek_millis: millis, ..playback }),
                    ..self
                }).asked(ActionView::Seek { millis })
            },
            None => self,
        }
    }

    /// Changing the volume by five per cent.
    #[verifier::opaque]
    pub open spec fn louder(self, up: bool) -> AppView {
        match self.playback {
            Some(playback) => {
                let percent: u8 = if up {
                    if playback.volume > 95 {
                        100
                    } else {
                        (playback.volume + 5) as u8
                    }
                } else if playback.volume < 5 {
                    0
                } else {
                    (playback.volume - 5) as u8
                };
                (AppView {
                    playback: Some(Playback { volume: percent, ..playback }),
                    ..self
                }).asked(ActionView::Volume { percent })
            },
            None => self,
        }
    }
}

proof fn lemma_id_position(tracks: Seq<TrackView>, id: i64)
    ensures
        match id_position(tracks, id) {
            Some(i) => 0 <= i < tracks.len() && tracks[i].id == id,
            None => true,
        },
    decreases tracks.len(),
{
    if tracks.len() > 0 && tracks[0].id != id {
        lemma_id_position(tracks.skip(1), id);
    }
}

fn find_id(tracks: &Vec<Track>, id: i64) -> (result: Option<usize>)
    ensures
        tui::place(result) == id_position(text::views(tracks@), id),
        result matches Some(i) ==> i < tracks@.len(),
{
    let ghost list = text::views(tracks@);
    let mut i: usize = 0;
    assert(list.skip(0) =~= list);
    while i < tracks.len()
        invariant
            list == text::views(tracks@),
            i <= tracks@.len(),
            id_position(list, id) == match id_position(list.skip(i as int), id) {
                Some(k) => Some(k + i),
                None => None,
            },
        decreases tracks@.len() - i,
    {
        assert(list[i as int] == tracks@[i as int]@);
        if tracks[i].id == id {
            return Some(i);
        }
        assert(list.skip(i as int).skip(1) =~= list.skip(i + 1));
        i += 1;
    }
    None
}

fn keep_available(tracks: &Vec<Track>) -> (result: Vec<Track>)
    ensures
        text::views(result@) == available_tracks(text::views(tracks@)),
{
    let ghost all = text::views(tracks@);
    let ghost there = |track: TrackView| track.available;
    let mut result: Vec<Track> = Vec::new();
    let mut i: usize = 0;
    proof {
        reveal(Seq::filter);
        assert(text::views(result@) =~= all.take(0).filter(there));
    }
    while i < tracks.len()
        invariant
            all == text::views(tracks@),
            there == (|track: TrackView| track.available),
            i <= tracks@.len(),
            text::views(result@) == all.take(i as int).filter(there),
        decreases tracks@.len() - i,
    {
        let ghost before = result@;
        proof {
            reveal(Seq::filter);
            assert(all.take(i + 1).drop_last() =~= all.take(i as int));
            assert(all[i as int] == tracks@[i as int]@);
        }
        if tracks[i].available {
            let track = tracks[i].clone();
            result.push(track);
            assert(text::views(result@) =~= text::views(before).push(track@));
        }
        i += 1;
    }
    assert(all.take(all.len() as int) =~= all);
    result
}

/// The library with a queue of these tracks; none where one of them is unknown.
#[verifier::opaque]
pub open spec fn with_queue(view: db::LibraryView, queue: Seq<TrackView>) -> Option<
    db::LibraryView,
> {
    if db::all_known(view.tracks, db::track_ids(queue)) {
        Some(db::LibraryView { queue: db::track_ids(queue), ..view })
    } else {
        None
    }
}

fn write_queue(db: &mut LibraryDb, queue: &Vec<Track>) -> (result: Result<(), String>)
    requires
        tui::sound(old(db)@),
    ensures
        tui::sound(final(db)@),
        match result {
            Ok(()) => with_queue(old(db)@, text::views(queue@)) == Some(final(db)@),
            Err(message) => with_queue(old(db)@, text::views(queue@)) is None && final(db)@ == old(db)@ && message@ == "FOREIGN KEY constraint failed: Error code 787: Foreign key constraint failed"@,
        },
{
    reveal(tui::sound);
    reveal(with_queue);
    db.save_queue(queue)
}

/// `rand::Rng::random_range` on the range below `bound`: any number of that range may come.
#[verifier::external_body]
fn random_below(bound: usize) -> (result: usize)
    requires
        bound > 0,
    ensures
        result < bound,
{
    rand::Rng::random_range(&mut rand::rng(), 0..bound)
}

impl App {
    /// Pauses, or goes on.
    pub fn toggle_playback(&mut self)
        requires
            old(self)@.well_formed(),
        ensures
            final(self)@ == old(self)@.toggled_playback(),
            final(self)@.well_formed(),
    {
        reveal(AppView::toggled_playback);
        if self.player.is_active() {
            let paused = self.flip_pause();
            self.ask(Action::Pause { paused });
            if paused {
                self.say("Reproducao pausada.");
            } else {
                self.say("Reproducao retomada.");
            }
        } else {
            self.say("Nenhuma musica esta tocando.");
        }
    }

    fn flip_pause(&mut self) -> (result: bool)
        requires
            old(self)@.well_formed(),
            old(self)@.playback is Some,
        ensures
            result == !old(self)@.playback->0.paused,
            final(self)@ == (AppView {
                playback: Some(Playback { paused: result, ..old(self)@.playback->0 }),
                ..old(self)@
            }),
            final(self)@.well_formed(),
    {
        match self.player.toggle_pause() {
            Some(PlaybackState::Paused) => true,
            _ => false,
        }
    }

    /// Stops playing.
    pub fn stop_playback(&mut self)
        requires
            old(self)@.well_formed(),
        ensures
            final(self)@ == old(self)@.stopped_playback(),
            final(self)@.well_formed(),
    {
        reveal(AppView::stopped_playback);
        if self.player.is_active() {
            self.player.stop();
            self.current_index = None;
            assert(self@ =~= (AppView { playback: None, current_index: None, ..old(self)@ }));
            self.ask(Action::Stop);
            self.say("Reproducao parada.");
        } else {
            self.say("Nenhuma musica esta tocando.");
        }
    }

    /// Asks for the track at hand to be played.
    pub fn play_current(&mut self)
        requires
            old(self)@.well_formed(),
        ensures
            final(self)@ == old(self)@.played_current(),
            final(self)@.well_formed(),
    {
        reveal(AppView::played_current);
        match self.current_index {
            Some(index) => {
                assert(self@.queue[index as int] == self.queue@[index as int]@);
                let path = self.queue[index].path.clone();
                self.player.stop();
                assert(self@ =~= (AppView { playback: None, ..old(self)@ }));
                self.ask(Action::Play { path });
            },
            None => {},
        }
    }

    /// Goes to a place of the queue.
    pub fn jump(&mut self, index: usize)
        requires
            old(self)@.well_formed(),
            index < old(self)@.queue.len(),
        ensures
            final(self)@ == old(self)@.jumped(index as int),
            final(self)@.well_formed(),
    {
        reveal(AppView::jumped);
        self.current_index = Some(index);
        self.queue_index = index;
        assert(self@ =~= (AppView {
            current_index: Some(index as int),
            queue_index: index as int,
            ..old(self)@
        }));
        self.play_current();
    }

    /// How many places chance chooses from: every one of the queue.
    pub fn roll_choices(&self) -> (result: usize)
        ensures
            result == self@.queue.len(),
    {
        self.queue.len()
    }

    /// A place of the queue by chance, drawn below [`App::roll_choices`]; the first where there is
    /// nothing to draw from.
    pub fn roll(&self) -> (result: usize)
        ensures
            result < self@.queue.len() || (result == 0 && self@.queue.len() == 0),
    {
        let choices: usize = self.roll_choices();
        if choices == 0 {
            0
        } else {
            random_below(choices)
        }
    }

    /// Goes to the next track; `roll` is the place that chance gives while shuffling.
    pub fn advance(&mut self, roll: usize)
        requires
            old(self)@.well_formed(),
            roll < old(self)@.queue.len() || roll == 0,
        ensures
            final(self)@ == old(self)@.advanced(roll as int),
            final(self)@.well_formed(),
    {
        reveal(AppView::advanced);
        let count: usize = self.queue.len();
        if count == 0 {
            return;
        }
        if self.shuffle && count > 1 {
            self.jump(roll);
            return;
        }
        match self.current_index {
            Some(index) => {
                if index < count - 1 {
                    self.jump(index + 1);
                } else if self.repeat == RepeatMode::All {
                    self.jump(0);
                } else {
                    self.stop_playback();
                }
            },
            None => self.jump(0),
        }
    }

    /// Goes to the next track.
    pub fn next_track(&mut self)
        requires
            old(self)@.well_formed(),
        ensures
            exists|roll: int|
                (0 <= roll < old(self)@.queue.len() || roll == 0) && final(self)@
                    == #[trigger] old(self)@.advanced(roll),
            final(self)@.well_formed(),
    {
        let roll: usize = self.roll();
        self.advance(roll);
        assert(self@ == old(self)@.advanced(roll as int));
    }

    /// Goes to the track before.
    pub fn previous_track(&mut self)
        requires
            old(self)@.well_formed(),
        ensures
            final(self)@ == old(self)@.retreated(),
            final(self)@.well_formed(),
    {
        reveal(AppView::retreated);
        if self.queue.len() == 0 {
            return;
        }
        let previous: usize = match self.current_index {
            Some(index) => tui::previous_index(index),
            None => 0,
        };
        self.jump(previous);
    }

    /// Goes on after the end of a track.
    pub fn on_track_ended(&mut self, roll: usize)
        requires
            old(self)@.well_formed(),
            roll < old(self)@.queue.len() || roll == 0,
        ensures
            final(self)@ == old(self)@.ended(roll as int),
            final(self)@.well_formed(),
    {
        reveal(AppView::ended);
        if self.repeat == RepeatMode::One {
            self.play_current();
        } else {
            self.advance(roll);
        }
    }

    /// Keeps the queue.
    pub fn persist_queue(&mut self)
        requires
            old(self)@.well_formed(),
        ensures
            final(self)@ == old(self)@.queue_saved(),
            final(self)@.well_formed(),
    {
        reveal(AppView::queue_saved);
        match write_queue(&mut self.db, &self.queue) {
            Ok(()) => {
                assert(self@ =~= (AppView { db: self@.db, ..old(self)@ }));
                self.ask(Action::StoreQueue);
            },
            Err(error) => {
                assert(self@ =~= old(self)@);
                self.say_with("Falha ao salvar fila: ", error.as_str());
            },
        }
    }

    /// Makes a queue of the tracks of a list that are there, and plays it from the wanted one on.
    pub fn start_queue(&mut self, tracks: &Vec<Track>, wanted: Option<i64>)
        requires
            old(self)@.well_formed(),
        ensures
            final(self)@ == old(self)@.started_queue(text::views(tracks@), wanted),
            final(self)@.well_formed(),
    {
        reveal(AppView::started_queue);
        let available = keep_available(tracks);
        let ghost list = text::views(available@);
        if available.len() == 0 {
            self.say("Nenhuma faixa disponivel nesta colecao.");
            return;
        }
        let first: usize = match wanted {
            Some(id) => match find_id(&available, id) {
                Some(i) => i,
                None => 0,
            },
            None => 0,
        };
        self.queue = available;
        self.current_index = Some(first);
        self.queue_index = first;
        assert(self@ =~= (AppView {
            queue: list,
            current_index: Some(first as int),
            queue_index: first as int,
            ..old(self)@
        }));
        self.persist_queue();
        self.play_current();
    }

    /// Chooses a place of the queue.
    pub fn activate_queue_track(&mut self, index: usize)
        requires
            old(self)@.well_formed(),
        ensures
            final(self)@ == old(self)@.activated(index as int),
            final(self)@.well_formed(),
    {
        reveal(AppView::activated);
        if index >= self.queue.len() {
            return;
        }
        if self.player.is_active() && self.current_index == Some(index) {
            self.toggle_playback();
            return;
        }
        self.jump(index);
    }

    /// Takes the selected track out of the queue.
    pub fn remove_from_queue(&mut self)
        requires
            old(self)@.well_formed(),
        ensures
            final(self)@ == old(self)@.unqueued(),
            final(self)@.well_formed(),
    {
        reveal(AppView::said);
        reveal(AppView::asked);
        reveal(AppView::unqueued);
        reveal(AppView::stopped_playback);
        let removed: usize = self.queue_index;
        if removed >= self.queue.len() {
            return;
        }
        if self.current_index == Some(removed) {
            self.stop_playback();
        }
        self.cut_row(removed);
        self.persist_queue();
    }

    fn cut_row(&mut self, removed: usize)
        requires
            old(self)@.well_formed(),
            removed < old(self)@.queue.len(),
        ensures
            final(self)@ == old(self)@.cut(removed as int),
            final(self)@.well_formed(),
    {
        reveal(AppView::cut);
        let ghost list = self.queue@;
        self.queue.remove(removed);
        assert(text::views(self.queue@) =~= text::views(list).remove(removed as int));
        self.current_index = match self.current_index {
            Some(current) => {
                if current == removed {
                    None
                } else if current > removed {
                    Some(current - 1)
                } else {
                    Some(current)
                }
            },
            None => None,
        };
        let count: usize = self.queue.len();
        self.queue_index = if removed < count {
            removed
        } else if count > 0 {
            count - 1
        } else {
            0
        };
        assert(self@ =~= old(self)@.cut(removed as int));
    }

    /// Takes note of what playing the track at hand led to: the rate of the device, or what went
    /// wrong.
    pub fn play_finished(&mut self, result: Result<u32, String>)
        requires
            old(self)@.well_formed(),
            result matches Ok(rate) ==> MIN_SAMPLE_RATE <= rate <= MAX_SAMPLE_RATE,
        ensures
            final(self)@ == old(self)@.play_answered(
                match result {
                    Ok(rate) => Ok(rate),
                    Err(error) => Err(error@),
                },
            ),
            final(self)@.well_formed(),
    {
        reveal(AppView::play_answered);
        match result {
            Ok(rate) => {
                self.player.play(rate);
                assert(self@ =~= (AppView { playback: self@.playback, ..old(self)@ }));
                match self.current_index {
                    Some(index) => {
                        assert(self@.queue[index as int] == self.queue@[index as int]@);
                        let mut message = "Tocando: ".to_owned();
                        message.push_str(self.queue[index].artist.as_str());
                        message.push_str(" - ");
                        message.push_str(self.queue[index].title.as_str());
                        self.say(message.as_str());
                    },
                    None => {},
                }
            },
            Err(error) => {
                self.player.stop();
                self.current_index = None;
                assert(self@ =~= (AppView { playback: None, current_index: None, ..old(self)@ }));
                self.say_with("Nao foi possivel tocar: ", error.as_str());
            },
        }
    }

    /// Takes note of a fault of the player.
    pub fn player_fault(&mut self, error: &str)
        requires
            old(self)@.well_formed(),
        ensures
            final(self)@ == old(self)@.player_failed(error@),
            final(self)@.well_formed(),
    {
        reveal(AppView::player_failed);
        self.player.stop();
        self.current_index = None;
        assert(self@ =~= (AppView { playback: None, current_index: None, ..old(self)@ }));
        self.ask(Action::Stop);
        self.say(error);
    }

    /// Goes on some seconds later, or earlier.
    pub fn seek(&mut self, seconds: i64)
        requires
            old(self)@.well_formed(),
        ensures
            final(self)@ == old(self)@.sought(seconds as int),
            final(self)@.well_formed(),
    {
        reveal(AppView::sought);
        self.player.seek_relative(seconds);
        match self.player.current {
            Some(playback) => {
                assert(self@ =~= (AppView { playback: Some(playback), ..old(self)@ }));
                self.ask(Action::Seek { millis: playback.seek_millis });
            },
            None => {
                assert(self@ =~= old(self)@);
            },
        }
    }

    /// Changes the volume by five per cent.
    pub fn change_volume(&mut self, up: bool)
        requires
            old(self)@.well_formed(),
        ensures
            final(self)@ == old(self)@.louder(up),
            final(self)@.well_formed(),
    {
        reveal(AppView::louder);
        if !self.player.is_active() {
            return;
        }
        let volume: u8 = self.player.volume();
        let percent: u8 = if up {
            if volume > 95 {
                100
            } else {
                volume + 5
            }
        } else if volume < 5 {
            0
        } else {
            volume - 5
        };
        self.player.set_volume(percent);
        assert(self@ =~= (AppView { playback: self@.playback, ..old(self)@ }));
        self.ask(Action::Volume { percent });
    }
}

/// Editing the queue never changes what the library or its playlists hold.
pub proof fn lemma_queue_edits_spare_library(app: AppView)
    requires
        app.well_formed(),
    ensures
        app.unqueued().db.tracks == app.db.tracks,
        app.unqueued().db.albums == app.db.albums,
        app.unqueued().db.playlists == app.db.playlists,
{
    reveal(AppView::said);
    reveal(AppView::asked);
    reveal(AppView::unqueued);
    reveal(AppView::stopped_playback);
    reveal(AppView::cut);
    reveal(AppView::queue_saved);
    reveal(with_queue);
}

/// Taking another track out of the queue leaves the one that is played where it was.
pub proof fn lemma_unqueue_keeps_current(app: AppView)
    requires
        app.well_formed(),
        app.queue_index < app.queue.len(),
        app.current_index is Some,
        app.current_index != Some(app.queue_index),
    ensures
        app.unqueued().current_id() == app.current_id(),
        app.unqueued().playback == app.playback,
{
    reveal(AppView::said);
    reveal(AppView::asked);
    reveal(AppView::unqueued);
    reveal(AppView::cut);
    reveal(AppView::queue_saved);
}

/// Choosing the track that is played pauses it or lets it go on; it does not begin anew.
pub proof fn lemma_current_not_restarted(app: AppView, index: int)
    requires
        app.well_formed(),
        app.playback is Some,
        app.current_index == Some(index),
    ensures
        app.activated(index) == app.toggled_playback(),
        app.activated(index).current_index == app.current_index,
        app.activated(index).queue == app.queue,
        app.activated(index).playback is Some,
        app.activated(index).playback->0.position_frames == app.playback->0.position_frames,
{
    reveal(AppView::said);
    reveal(AppView::asked);
    reveal(AppView::activated);
    reveal(AppView::toggled_playback);
}

/// Pausing twice leaves the player as it was.
pub proof fn lemma_paused_twice(app: AppView)
    ensures
        app.toggled_playback().toggled_playback().playback == app.playback,
        app.toggled_playback().toggled_playback().current_index == app.current_index,
        app.toggled_playback().toggled_playback().queue == app.queue,
{
    reveal(AppView::toggled_playback);
    reveal(AppView::asked);
    reveal(AppView::said);
}

/// While one track is repeated, its end leads back to itself.
pub proof fn lemma_one_repeated(app: AppView, roll: int)
    requires
        app.repeat == RepeatMode::One,
        app.current_index is Some,
    ensures
        app.ended(roll).current_index == app.current_index,
        app.ended(roll).actions == app.actions.push(
            ActionView::Play { path: app.queue[app.current_index->0].path },
        ),
{
    reveal(AppView::ended);
    reveal(AppView::played_current);
    reveal(AppView::asked);
}

/// A queue is played to its end in order: without shuffling or repeating, the end of a track leads
/// to the next one, and the end of the last one to silence.
pub proof fn lemma_played_in_order(app: AppView, roll: int)
    requires
        !app.shuffle,
        app.repeat == RepeatMode::Off,
        app.playback is Some,
        app.current_index is Some,
        0 <= app.current_index->0 < app.queue.len(),
    ensures
        app.ended(roll).queue == app.queue,
        app.ended(roll).current_index == if app.current_index->0 + 1 < app.queue.len() {
            Some(app.current_index->0 + 1)
        } else {
            None
        },
        app.ended(roll).actions == app.actions.push(
            if app.current_index->0 + 1 < app.queue.len() {
                ActionView::Play { path: app.queue[app.current_index->0 + 1].path }
            } else {
                ActionView::Stop
            },
        ),
{
    reveal(AppView::ended);
    reveal(AppView::advanced);
    reveal(AppView::jumped);
    reveal(AppView::played_current);
    reveal(AppView::stopped_playback);
    reveal(AppView::asked);
    reveal(AppView::said);
}

proof fn lemma_available(tracks: Seq<TrackView>)
    ensures
        forall|i: int|
            0 <= i < available_tracks(tracks).len() ==> (#[trigger] available_tracks(
                tracks,
            )[i]).available,
    decreases tracks.len(),
{
    reveal(Seq::filter);
    if tracks.len() > 0 {
        lemma_available(tracks.drop_last());
    }
}

/// A file that is gone is never queued: what is played from an album, a playlist or the library
/// has its file.
pub proof fn lemma_only_available_queued(app: AppView, tracks: Seq<TrackView>, wanted: Option<i64>)
    requires
        available_tracks(tracks).len() > 0,
    ensures
        app.started_queue(tracks, wanted).queue == available_tracks(tracks),
        forall|i: int|
            0 <= i < available_tracks(tracks).len() ==> (#[trigger] available_tracks(
                tracks,
            )[i]).available,
{
    reveal(AppView::started_queue);
    reveal(AppView::queue_saved);
    reveal(AppView::played_current);
    reveal(AppView::asked);
    reveal(AppView::said);
    lemma_available(tracks);
}

/// Going on without shuffling leads to the track right after the one that is played, whatever is
/// repeated; from the last one it leads to the first where all are repeated, and else to silence.
/// Where none is played it leads to the first, and in an empty queue nowhere.
pub proof fn lemma_goes_to_the_next(app: AppView, roll: int)
    requires
        !app.shuffle || app.queue.len() == 1,
        app.current_index matches Some(index) ==> 0 <= index < app.queue.len(),
    ensures
        ({
            let after = app.advanced(roll);
            let count = app.queue.len();
            &&& after.queue == app.queue
            &&& count == 0 ==> after == app
            &&& app.current_index matches Some(index) ==> {
                &&& index + 1 < count ==> after.current_index == Some(index + 1)
                    && after.queue_index == index + 1 && after.actions == app.actions.push(
                    ActionView::Play { path: app.queue[index + 1].path },
                )
                &&& index + 1 == count && app.repeat == RepeatMode::All ==> after.current_index
                    == Some(0int) && after.queue_index == 0 && after.actions == app.actions.push(
                    ActionView::Play { path: app.queue[0].path },
                )
                &&& index + 1 == count && app.repeat != RepeatMode::All && app.playback is Some
                    ==> after.current_index is None && after.playback is None && after.actions
                    == app.actions.push(ActionView::Stop)
            }
            &&& app.current_index is None && count > 0 ==> after.current_index == Some(0int)
                && after.actions == app.actions.push(ActionView::Play { path: app.queue[0].path })
        }),
{
    reveal(AppView::advanced);
    reveal(AppView::jumped);
    reveal(AppView::played_current);
    reveal(AppView::stopped_playback);
    reveal(AppView::asked);
    reveal(AppView::said);
}

/// While shuffling, going on leads to the place that chance gives, and plays what stands there.
pub proof fn lemma_shuffled(app: AppView, roll: int)
    requires
        app.shuffle,
        app.queue.len() > 1,
        0 <= roll < app.queue.len(),
    ensures
        app.advanced(roll).current_index == Some(roll),
        app.advanced(roll).queue_index == roll,
        app.advanced(roll).queue == app.queue,
        app.advanced(roll).actions == app.actions.push(
            ActionView::Play { path: app.queue[roll].path },
        ),
{
    reveal(AppView::advanced);
    reveal(AppView::jumped);
    reveal(AppView::played_current);
    reveal(AppView::asked);
}

/// The end of a track leads where going on does, unless the track itself is repeated.
pub proof fn lemma_end_goes_on(app: AppView, roll: int)
    ensures
        app.repeat != RepeatMode::One ==> app.ended(roll) == app.advanced(roll),
        app.repeat == RepeatMode::One ==> app.ended(roll).current_index == app.current_index
            && app.ended(roll).queue == app.queue,
{
    reveal(AppView::ended);
    reveal(AppView::played_current);
    reveal(AppView::asked);
}

/// Going back leads to the track right before the one that is played, and from the first one to
/// itself.
pub proof fn lemma_goes_back(app: AppView)
    requires
        app.queue.len() > 0,
        app.current_index matches Some(index) ==> 0 <= index < app.queue.len(),
    ensures
        ({
            let to = match app.current_index {
                Some(index) => if index > 0 {
                    index - 1
                } else {
                    0
                },
                None => 0,
            };
            &&& app.retreated().current_index == Some(to)
            &&& app.retreated().queue_index == to
            &&& app.retreated().queue == app.queue
            &&& app.retreated().actions == app.actions.push(
                ActionView::Play { path: app.queue[to].path },
            )
        }),
{
    reveal(AppView::retreated);
    reveal(AppView::jumped);
    reveal(AppView::played_current);
    reveal(AppView::asked);
}

/// Going back undoes going on, short of the end of the queue.
pub proof fn lemma_there_and_back(app: AppView, roll: int)
    requires
        !app.shuffle,
        app.current_index is Some,
        0 <= app.current_index->0,
        app.current_index->0 + 1 < app.queue.len(),
    ensures
        app.advanced(roll).retreated().current_index == app.current_index,
        app.advanced(roll).retreated().queue == app.queue,
{
    lemma_goes_to_the_next(app, roll);
    lemma_goes_back(app.advanced(roll));
}

/// Pausing stops what is played where it is, and only a second time lets it go on; the player is
/// told the same. Where nothing is played, nothing happens.
pub proof fn lemma_paused(app: AppView)
    ensures
        app.playback matches Some(playback) ==> {
            let after = app.toggled_playback();
            &&& after.playback is Some
            &&& after.playback->0.paused == !playback.paused
            &&& after.playback->0.position_frames == playback.position_frames
            &&& after.playback->0.volume == playback.volume
            &&& after.current_index == app.current_index
            &&& after.queue == app.queue
            &&& after.actions == app.actions.push(ActionView::Pause { paused: !playback.paused })
        },
        app.playback is None ==> app.toggled_playback().actions == app.actions
            && app.toggled_playback().playback is None,
{
    reveal(AppView::toggled_playback);
    reveal(AppView::asked);
    reveal(AppView::said);
}

/// Stopping ends what is played and forgets its place, but keeps the queue.
pub proof fn lemma_stopped(app: AppView)
    ensures
        app.stopped_playback().queue == app.queue,
        app.playback is Some ==> app.stopped_playback().playback is None
            && app.stopped_playback().current_index is None && app.stopped_playback().actions
            == app.actions.push(ActionView::Stop),
        app.playback is None ==> app.stopped_playback().actions == app.actions
            && app.stopped_playback().current_index == app.current_index,
{
    reveal(AppView::stopped_playback);
    reveal(AppView::asked);
    reveal(AppView::said);
}

proof fn lemma_first_with_id(tracks: Seq<TrackView>, id: i64)
    ensures
        match id_position(tracks, id) {
            Some(i) => 0 <= i < tracks.len() && tracks[i].id == id && forall|k: int|
                0 <= k < i ==> (#[trigger] tracks[k]).id != id,
            None => forall|k: int| 0 <= k < tracks.len() ==> (#[trigger] tracks[k]).id != id,
        },
    decreases tracks.len(),
{
    if tracks.len() > 0 && tracks[0].id != id {
        let rest = tracks.skip(1);
        lemma_first_with_id(rest, id);
        let bound = match id_position(rest, id) {
            Some(i) => i + 1,
            None => tracks.len() as int,
        };
        assert forall|k: int| 0 <= k < bound implies (#[trigger] tracks[k]).id != id by {
            if k > 0 {
                assert(rest[k - 1] == tracks[k]);
            }
        }
    }
}

/// Playing a collection queues all of its tracks that have their files, in order, and begins with the
/// one that was chosen, or with the first where none was or the chosen one has no file. The queue is
/// kept. A collection without any such track changes nothing.
pub proof fn lemma_collection_played(app: AppView, tracks: Seq<TrackView>, wanted: Option<i64>)
    ensures
        ({
            let after = app.started_queue(tracks, wanted);
            let queued = tracks.filter(|track: TrackView| track.available);
            let first = after.current_index->0;
            &&& queued.len() == 0 ==> after.queue == app.queue && after.current_index
                == app.current_index && after.actions == app.actions && after.playback
                == app.playback
            &&& queued.len() > 0 ==> {
                &&& after.queue == queued
                &&& after.current_index is Some
                &&& 0 <= first < queued.len()
                &&& after.queue_index == first
                &&& after.actions.last() == (ActionView::Play { path: queued[first].path })
                &&& wanted matches Some(id) ==> {
                    &&& queued[first].id == id || first == 0
                    &&& (exists|k: int|
                        0 <= k < queued.len() && (#[trigger] queued[k]).id == id)
                        ==> queued[first].id == id
                }
                &&& wanted is None ==> first == 0
                &&& after.playback is None
                &&& db::all_known(app.db.tracks, db::track_ids(queued)) ==> after.db.queue
                    == db::track_ids(queued) && after.actions == app.actions.push(
                    ActionView::StoreQueue,
                ).push(ActionView::Play { path: queued[first].path })
            }
        }),
{
    reveal(AppView::started_queue);
    reveal(AppView::queue_saved);
    reveal(AppView::played_current);
    reveal(AppView::asked);
    reveal(AppView::said);
    reveal(with_queue);
    let queued = available_tracks(tracks);
    if let Some(id) = wanted {
        lemma_first_with_id(queued, id);
    }
}

/// Choosing a place of the queue plays what stands there, unless it is being played already.
pub proof fn lemma_chosen_in_queue(app: AppView, index: int)
    requires
        0 <= index < app.queue.len(),
        app.playback is None || app.current_index != Some(index),
    ensures
        app.activated(index).current_index == Some(index),
        app.activated(index).queue == app.queue,
        app.activated(index).actions == app.actions.push(
            ActionView::Play { path: app.queue[index].path },
        ),
{
    reveal(AppView::activated);
    reveal(AppView::jumped);
    reveal(AppView::played_current);
    reveal(AppView::asked);
}

/// Taking a track out of the queue removes the selected one and no other: those before it keep their
/// places, and those behind it move up. Where it is the one that is played, that ends.
pub proof fn lemma_taken_out_of_queue(app: AppView)
    requires
        0 <= app.queue_index < app.queue.len(),
    ensures
        app.unqueued().queue.len() == app.queue.len() - 1,
        forall|k: int|
            0 <= k < app.queue_index ==> #[trigger] app.unqueued().queue[k] == app.queue[k],
        forall|k: int|
            app.queue_index <= k < app.queue.len() - 1 ==> #[trigger] app.unqueued().queue[k]
                == app.queue[k + 1],
        app.current_index == Some(app.queue_index) ==> app.unqueued().current_index is None && (
        app.playback is Some ==> app.unqueued().playback is None && app.unqueued().actions.contains(
            ActionView::Stop,
        )),
        app.current_index != Some(app.queue_index) ==> app.unqueued().playback == app.playback,
        app.queue_index + 1 < app.queue.len() ==> app.unqueued().queue_index == app.queue_index,
{
    reveal(AppView::unqueued);
    reveal(AppView::stopped_playback);
    reveal(AppView::cut);
    reveal(AppView::queue_saved);
    reveal(AppView::asked);
    reveal(AppView::said);
    if app.current_index == Some(app.queue_index) && app.playback is Some {
        let stopped = app.actions.push(ActionView::Stop);
        assert(stopped[app.actions.len() as int] == ActionView::Stop);
        let after = app.unqueued().actions;
        assert(after[app.actions.len() as int] == ActionView::Stop);
    }
}

/// What is played is told by its artist and its title; what cannot be played is told with the reason
/// and is not played.
pub proof fn lemma_playing_told(app: AppView, index: int, rate: u32, error: Seq<char>)
    requires
        app.current_index == Some(index),
        0 <= index < app.queue.len(),
    ensures
        ({
            let playing = app.play_answered(Ok(rate));
            &&& playing.playback is Some
            &&& !playing.playback->0.paused
            &&& playing.playback->0.position_frames == 0
            &&& playing.playback->0.sample_rate == rate
            &&& playing.current_index == app.current_index
            &&& playing.status == "Tocando: "@ + app.queue[index].artist + " - "@
                + app.queue[index].title
            &&& playing.queue == app.queue
        }),
        ({
            let failed = app.play_answered(Err(error));
            &&& failed.playback is None
            &&& failed.current_index is None
            &&& failed.queue == app.queue
            &&& text::ends_with(failed.status, error)
        }),
        app.player_failed(error).playback is None,
        app.player_failed(error).current_index is None,
        app.player_failed(error).status == error,
        app.player_failed(error).actions == app.actions.push(ActionView::Stop),
{
    reveal(AppView::play_answered);
    reveal(AppView::player_failed);
    reveal(AppView::asked);
    reveal(AppView::said);
    text::lemma_occurs_between("Nao foi possivel tocar: "@, error, Seq::empty());
}

/// The volume goes up or down by five, and neither past a hundred nor below zero; the player is told
/// the same.
pub proof fn lemma_volume_steps(app: AppView, up: bool)
    requires
        app.playback is Some,
        app.playback->0.volume <= 100,
    ensures
        ({
            let (before, after) = (app.playback->0.volume as int, app.louder(up).playback->0.volume);
            &&& app.louder(up).playback is Some
            &&& up ==> after == if before + 5 <= 100 {
                before + 5
            } else {
                100
            }
            &&& !up ==> after == if before >= 5 {
                before - 5
            } else {
                0
            }
            &&& app.louder(up).actions == app.actions.push(ActionView::Volume { percent: after })
            &&& app.louder(up).playback->0.paused == app.playback->0.paused
            &&& app.louder(up).current_index == app.current_index
        }),
{
    reveal(AppView::louder);
    reveal(AppView::asked);
}

/// Seeking goes on so many seconds later or earlier than what is heard, not before the beginning, and
/// asks the player for that; nothing else changes, and nothing at all while nothing is played.
pub proof fn lemma_sought(app: AppView, seconds: int)
    ensures
        app.playback is None ==> app.sought(seconds) == app,
        app.playback matches Some(playback) ==> ({
            let heard = player::frames_to_millis(playback.position_frames, playback.sample_rate);
            let target = heard + 1000 * seconds;
            let after = app.sought(seconds);
            &&& after.playback is Some
            &&& after.playback->0.position_frames == playback.position_frames
            &&& after.playback->0.paused == playback.paused
            &&& after.playback->0.volume == playback.volume
            &&& 0 <= target < u64::MAX ==> after.playback->0.seek_millis == target
            &&& target < 0 ==> after.playback->0.seek_millis == 0
            &&& after.actions == app.actions.push(
                ActionView::Seek { millis: after.playback->0.seek_millis },
            )
            &&& after.queue == app.queue
            &&& after.current_index == app.current_index
        }),
{
    reveal(AppView::sought);
    reveal(AppView::asked);
}

} // verus!
