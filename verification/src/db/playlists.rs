//! Playlists: named, ordered lists of tracks.

use vstd::prelude::*;

use crate::db;
use crate::db::LibraryDb;
use crate::db::LibraryView;
use crate::db::PlaylistRow;
use crate::db::PlaylistRowView;
use crate::model::Track;
use crate::model::TrackView;
use crate::order;
use crate::order::Key;
use crate::order::KeyView;
use crate::text;

verus! {

/// Whether there is a playlist with this identifier.
pub open spec fn playlist_known(playlists: Seq<PlaylistRowView>, id: i64) -> bool {
    exists|i: int| 0 <= i < playlists.len() && (#[trigger] playlists[i]).id == id
}

/// The row of the playlist with this identifier.
pub open spec fn playlist_row(playlists: Seq<PlaylistRowView>, id: i64) -> int {
    choose|i: int| 0 <= i < playlists.len() && (#[trigger] playlists[i]).id == id
}

/// The row of the playlist with this name, or the number of playlists.
pub open spec fn name_row(playlists: Seq<PlaylistRowView>, name: Seq<char>) -> int
    decreases playlists.len(),
{
    if playlists.len() == 0 || playlists[0].name == name {
        0
    } else {
        1 + name_row(playlists.skip(1), name)
    }
}

/// The identifier of the next new playlist.
pub open spec fn next_playlist_id(playlists: Seq<PlaylistRowView>) -> int {
    if playlists.len() == 0 {
        1
    } else {
        playlists.last().id + 1
    }
}

/// Why no playlist can have this name, if none can.
pub open spec fn playlist_fault(playlists: Seq<PlaylistRowView>, name: Seq<char>) -> Option<
    Seq<char>,
> {
    if name.len() == 0 {
        Some("nome da playlist nao pode ser vazio"@)
    } else if name.len() > 128 {
        Some("nome da playlist excede 128 caracteres"@)
    } else if name_row(playlists, name) >= playlists.len() && next_playlist_id(playlists)
        > i64::MAX {
        Some("database or disk is full: Error code 13: Insertion failed because database is full"@)
    } else {
        None
    }
}

/// The playlists once there is one with this name.
pub open spec fn with_playlist(playlists: Seq<PlaylistRowView>, name: Seq<char>) -> Seq<
    PlaylistRowView,
> {
    if name_row(playlists, name) < playlists.len() {
        playlists
    } else {
        playlists.push(
            PlaylistRowView {
                id: next_playlist_id(playlists) as i64,
                name,
                tracks: Seq::empty(),
            },
        )
    }
}

/// The playlists with the tracks of one of them replaced.
pub open spec fn with_playlist_tracks(
    playlists: Seq<PlaylistRowView>,
    row: int,
    tracks: Seq<i64>,
) -> Seq<PlaylistRowView> {
    playlists.update(row, PlaylistRowView { tracks, ..playlists[row] })
}

/// The library once a track is added to a playlist.
pub open spec fn with_added(view: LibraryView, playlist_id: i64, track_id: i64) -> LibraryView {
    let row = playlist_row(view.playlists, playlist_id);
    LibraryView {
        playlists: with_playlist_tracks(
            view.playlists,
            row,
            view.playlists[row].tracks.push(track_id),
        ),
        ..view
    }
}

/// The library once the track at a position is taken out of a playlist, if there is one.
pub open spec fn with_removed(view: LibraryView, playlist_id: i64, position: int) -> LibraryView {
    let row = playlist_row(view.playlists, playlist_id);
    if playlist_known(view.playlists, playlist_id) && position < view.playlists[row].tracks.len() {
        LibraryView {
            playlists: with_playlist_tracks(
                view.playlists,
                row,
                view.playlists[row].tracks.remove(position),
            ),
            ..view
        }
    } else {
        view
    }
}

/// What playlists are ordered by.
pub open spec fn playlist_keys(playlists: Seq<PlaylistRowView>) -> Seq<KeyView> {
    Seq::new(playlists.len(), |i: int| order::folded(playlists[i].name, Seq::empty()))
}

/// What is shown of the playlists: identifier, name and number of tracks.
pub open spec fn playlist_lines(playlists: Seq<PlaylistRowView>) -> Seq<(i64, Seq<char>, u64)> {
    Seq::new(
        playlists.len(),
        |i: int| (playlists[i].id, playlists[i].name, playlists[i].tracks.len() as u64),
    )
}

proof fn lemma_name_row(playlists: Seq<PlaylistRowView>, name: Seq<char>)
    ensures
        0 <= name_row(playlists, name) <= playlists.len(),
        forall|i: int|
            0 <= i < name_row(playlists, name) ==> (#[trigger] playlists[i]).name != name,
        name_row(playlists, name) < playlists.len() ==> playlists[name_row(playlists, name)].name
            == name,
    decreases playlists.len(),
{
    if playlists.len() > 0 && playlists[0].name != name {
        let rest = playlists.skip(1);
        lemma_name_row(rest, name);
        assert forall|i: int| 0 <= i < name_row(playlists, name) implies (
        #[trigger] playlists[i]).name != name by {
            if i > 0 {
                assert(playlists[i] == rest[i - 1]);
            }
        }
    }
}

proof fn lemma_new_name(playlists: Seq<PlaylistRowView>, row: PlaylistRowView)
    requires
        name_row(playlists, row.name) >= playlists.len(),
    ensures
        name_row(playlists.push(row), row.name) == playlists.len(),
    decreases playlists.len(),
{
    if playlists.len() > 0 {
        assert(playlists.push(row).skip(1) =~= playlists.skip(1).push(row));
        lemma_new_name(playlists.skip(1), row);
    }
}

proof fn lemma_playlist_changed(before: LibraryView, after: LibraryView, row: int)
    requires
        before.well_formed(),
        0 <= row < before.playlists.len(),
        db::all_known(before.tracks, after.playlists[row].tracks),
        after == (LibraryView {
            playlists: with_playlist_tracks(before.playlists, row, after.playlists[row].tracks),
            ..before
        }),
    ensures
        after.well_formed(),
{
}

impl LibraryDb {
    fn find_playlist(&self, id: i64) -> (result: Option<usize>)
        requires
            self@.well_formed(),
        ensures
            match result {
                Some(at) => at < self.playlists@.len() && self@.playlists[at as int].id == id && at
                    == playlist_row(self@.playlists, id) && playlist_known(self@.playlists, id),
                None => !playlist_known(self@.playlists, id),
            },
    {
        let mut i: usize = 0;
        while i < self.playlists.len()
            invariant
                self@.well_formed(),
                i <= self.playlists@.len(),
                forall|k: int| 0 <= k < i ==> (#[trigger] self@.playlists[k]).id != id,
            decreases self.playlists@.len() - i,
        {
            assert(self@.playlists[i as int] == self.playlists@[i as int]@);
            if self.playlists[i].id == id {
                proof {
                    let row = playlist_row(self@.playlists, id);
                    assert(self@.playlists[row].id == id);
                }
                return Some(i);
            }
            i += 1;
        }
        None
    }

    /// Makes a playlist, unless there is one with this name, and gives its identifier.
    pub fn create_playlist(&mut self, name: &str) -> (result: Result<i64, String>)
        requires
            old(self)@.well_formed(),
        ensures
            final(self)@.well_formed(),
            match result {
                Ok(id) => playlist_fault(old(self)@.playlists, text::trimmed(name@)) is None
                    && final(self)@ == (LibraryView {
                    playlists: with_playlist(old(self)@.playlists, text::trimmed(name@)),
                    ..old(self)@
                }) && playlist_known(final(self)@.playlists, id) && playlist_row(
                    final(self)@.playlists,
                    id,
                ) == name_row(final(self)@.playlists, text::trimmed(name@)),
                Err(message) => playlist_fault(old(self)@.playlists, text::trimmed(name@)) == Some(
                    message@,
                ) && final(self)@ == old(self)@,
            },
    {
        let label = text::trim(name);
        if label.is_empty() {
            return Err("nome da playlist nao pode ser vazio".to_owned());
        }
        let chars = text::chars_of(label);
        if chars.len() > 128 {
            return Err("nome da playlist excede 128 caracteres".to_owned());
        }
        let mut i: usize = 0;
        assert(self@.playlists.skip(0) =~= self@.playlists);
        while i < self.playlists.len()
            invariant
                *self == *old(self),
                self@.well_formed(),
                label@ == text::trimmed(name@),
                0 < label@.len() <= 128,
                i <= self.playlists@.len(),
                name_row(self@.playlists, label@) == i + name_row(
                    self@.playlists.skip(i as int),
                    label@,
                ),
            decreases self.playlists@.len() - i,
        {
            assert(self@.playlists[i as int] == self.playlists@[i as int]@);
            if text::same_text(self.playlists[i].name.as_str(), label) {
                let id: i64 = self.playlists[i].id;
                proof {
                    let row = playlist_row(self@.playlists, id);
                    assert(self@.playlists[i as int].id == id);
                    assert(self@.playlists[row].id == id);
                }
                return Ok(id);
            }
            assert(self@.playlists.skip(i as int).skip(1) =~= self@.playlists.skip(i + 1));
            i += 1;
        }
        let count: usize = self.playlists.len();
        let id: i64 = if count == 0 {
            1
        } else {
            let last: i64 = self.playlists[count - 1].id;
            assert(self@.playlists[count - 1] == self.playlists@[count - 1]@);
            if last == i64::MAX {
                return Err("database or disk is full: Error code 13: Insertion failed because database is full".to_owned());
            }
            last + 1
        };
        let row = PlaylistRow { id, name: label.to_owned(), tracks: Vec::new() };
        assert(row@ =~= (PlaylistRowView { id, name: label@, tracks: Seq::empty() }));
        self.playlists.push(row);
        proof {
            assert(self@.playlists =~= old(self)@.playlists.push(row@));
            assert(self@ =~= (LibraryView {
                playlists: with_playlist(old(self)@.playlists, label@),
                ..old(self)@
            }));
            let at = old(self)@.playlists.len() as int;
            assert(self@.playlists[at].id == id);
            let found = playlist_row(self@.playlists, id);
            assert(self@.playlists[found].id == id);
            lemma_new_name(old(self)@.playlists, row@);
            lemma_name_row(old(self)@.playlists, label@);
        }
        Ok(id)
    }

    /// The playlists by their names: identifier, name and number of tracks.
    pub fn playlists(&self) -> (result: Vec<(i64, String, u64)>)
        ensures
            text::views(result@) == db::picked(
                playlist_lines(self@.playlists),
                order::listing_of(
                    playlist_keys(self@.playlists),
                    db::everything(self@.playlists.len()),
                ),
            ),
            order::is_listing(
                playlist_keys(self@.playlists),
                db::everything(self@.playlists.len()),
                order::listing_of(playlist_keys(self@.playlists), db::everything(self@.playlists.len())),
            ),
    {
        let mut keys: Vec<Key> = Vec::new();
        let mut keep: Vec<bool> = Vec::new();
        let mut i: usize = 0;
        proof {
            reveal_strlit("");
            assert(""@ =~= Seq::<char>::empty());
        }
        while i < self.playlists.len()
            invariant
                ""@ == Seq::<char>::empty(),
                i <= self.playlists@.len(),
                keys@.len() == i,
                keep@.len() == i,
                forall|k: int| 0 <= k < i ==> #[trigger] keep@[k],
                forall|k: int|
                    0 <= k < i ==> (#[trigger] keys@[k])@ == order::folded(
                        self@.playlists[k].name,
                        Seq::empty(),
                    ),
            decreases self.playlists@.len() - i,
        {
            assert(self@.playlists[i as int] == self.playlists@[i as int]@);
            keys.push(order::key_of(self.playlists[i].name.as_str(), ""));
            keep.push(true);
            i += 1;
        }
        assert(text::views(keys@) =~= playlist_keys(self@.playlists));
        assert(keep@ =~= db::everything(self@.playlists.len()));
        let places = order::listing(&keys, &keep);
        let ghost all = order::positions(places@);
        let mut result: Vec<(i64, String, u64)> = Vec::new();
        let mut k: usize = 0;
        while k < places.len()
            invariant
                k <= places@.len(),
                all == order::positions(places@),
                order::is_listing(
                    playlist_keys(self@.playlists),
                    db::everything(self@.playlists.len()),
                    all,
                ),
                result@.len() == k,
                forall|m: int|
                    0 <= m < k ==> (#[trigger] result@[m])@ == playlist_lines(
                        self@.playlists,
                    )[all[m]],
            decreases places@.len() - k,
        {
            let place: usize = places[k];
            assert(all[k as int] == place);
            assert(0 <= all[k as int] < playlist_keys(self@.playlists).len());
            assert(self@.playlists[place as int] == self.playlists@[place as int]@);
            let row = &self.playlists[place];
            result.push((row.id, row.name.clone(), row.tracks.len() as u64));
            k += 1;
        }
        assert(text::views(result@) =~= db::picked(playlist_lines(self@.playlists), all));
        result
    }

    /// Adds a track at the end of a playlist.
    pub fn add_to_playlist(&mut self, playlist_id: i64, track_id: i64) -> (result: Result<
        (),
        String,
    >)
        requires
            old(self)@.well_formed(),
        ensures
            final(self)@.well_formed(),
            match result {
                Ok(()) => playlist_known(old(self)@.playlists, playlist_id) && db::known(
                    old(self)@.tracks,
                    track_id,
                ) && final(self)@ == (LibraryView {
                    playlists: with_playlist_tracks(
                        old(self)@.playlists,
                        playlist_row(old(self)@.playlists, playlist_id),
                        old(self)@.playlists[playlist_row(
                            old(self)@.playlists,
                            playlist_id,
                        )].tracks.push(track_id),
                    ),
                    ..old(self)@
                }) && final(self)@ == with_added(old(self)@, playlist_id, track_id),
                Err(message) => !(playlist_known(old(self)@.playlists, playlist_id) && db::known(
                    old(self)@.tracks,
                    track_id,
                )) && final(self)@ == old(self)@ && message@ == "FOREIGN KEY constraint failed: Error code 787: Foreign key constraint failed"@,
            },
    {
        let at: usize = match self.find_playlist(playlist_id) {
            Some(at) => at,
            None => {
                return Err("FOREIGN KEY constraint failed: Error code 787: Foreign key constraint failed".to_owned());
            },
        };
        if self.find_track(track_id).is_none() {
            return Err("FOREIGN KEY constraint failed: Error code 787: Foreign key constraint failed".to_owned());
        }
        assert(self@.playlists[at as int] == self.playlists@[at as int]@);
        let mut tracks = db::copied_ids(&self.playlists[at].tracks);
        let ghost before = tracks@;
        tracks.push(track_id);
        proof {
            assert forall|k: int| 0 <= k < tracks@.len() implies db::known(
                self@.tracks,
                #[trigger] tracks@[k],
            ) by {
                if k < before.len() {
                    assert(tracks@[k] == before[k]);
                }
            }
        }
        self.replace_tracks(at, tracks);
        Ok(())
    }

    fn replace_tracks(&mut self, at: usize, tracks: Vec<i64>)
        requires
            old(self)@.well_formed(),
            at < old(self)@.playlists.len(),
            db::all_known(old(self)@.tracks, tracks@),
        ensures
            final(self)@.well_formed(),
            final(self)@ == (LibraryView {
                playlists: with_playlist_tracks(old(self)@.playlists, at as int, tracks@),
                ..old(self)@
            }),
    {
        assert(self@.playlists[at as int] == self.playlists@[at as int]@);
        let row = PlaylistRow {
            id: self.playlists[at].id,
            name: self.playlists[at].name.clone(),
            tracks,
        };
        self.playlists.set(at, row);
        proof {
            assert(self@.playlists =~= with_playlist_tracks(
                old(self)@.playlists,
                at as int,
                tracks@,
            ));
            assert(self@ =~= (LibraryView {
                playlists: with_playlist_tracks(old(self)@.playlists, at as int, tracks@),
                ..old(self)@
            }));
            lemma_playlist_changed(old(self)@, self@, at as int);
        }
    }

    /// Takes the track at a position out of a playlist; those after it move up. The result says
    /// whether there was one.
    pub fn remove_from_playlist(&mut self, playlist_id: i64, position: usize) -> (result: bool)
        requires
            old(self)@.well_formed(),
        ensures
            final(self)@.well_formed(),
            result == (playlist_known(old(self)@.playlists, playlist_id) && position < old(
                self)@.playlists[playlist_row(old(self)@.playlists, playlist_id)].tracks.len()),
            final(self)@ == if result {
                LibraryView {
                    playlists: with_playlist_tracks(
                        old(self)@.playlists,
                        playlist_row(old(self)@.playlists, playlist_id),
                        old(self)@.playlists[playlist_row(
                            old(self)@.playlists,
                            playlist_id,
                        )].tracks.remove(position as int),
                    ),
                    ..old(self)@
                }
            } else {
                old(self)@
            },
            final(self)@ == with_removed(old(self)@, playlist_id, position as int),
    {
        match self.find_playlist(playlist_id) {
            Some(at) => {
                assert(self@.playlists[at as int] == self.playlists@[at as int]@);
                if position >= self.playlists[at].tracks.len() {
                    return false;
                }
                let mut tracks = db::copied_ids(&self.playlists[at].tracks);
                let ghost before = tracks@;
                tracks.remove(position);
                proof {
                    assert forall|k: int| 0 <= k < tracks@.len() implies db::known(
                        self@.tracks,
                        #[trigger] tracks@[k],
                    ) by {
                        if k < position {
                            assert(tracks@[k] == before[k]);
                        } else {
                            assert(tracks@[k] == before[k + 1]);
                        }
                    }
                }
                self.replace_tracks(at, tracks);
                true
            },
            None => false,
        }
    }

    /// The tracks of a playlist, in order; none where there is no such playlist.
    pub fn playlist_tracks(&self, playlist_id: i64) -> (result: Vec<Track>)
        requires
            self@.well_formed(),
        ensures
            text::views(result@) == if playlist_known(self@.playlists, playlist_id) {
                db::named(
                    self@.tracks,
                    self@.playlists[playlist_row(self@.playlists, playlist_id)].tracks,
                )
            } else {
                Seq::empty()
            },
    {
        match self.find_playlist(playlist_id) {
            Some(at) => {
                assert(self@.playlists[at as int] == self.playlists@[at as int]@);
                self.fetch(&self.playlists[at].tracks)
            },
            None => {
                let none: Vec<Track> = Vec::new();
                assert(text::views(none@) =~= Seq::<TrackView>::empty());
                none
            },
        }
    }
}

/// A track that is added to a playlist is its last one, and those before it stay as they were.
pub proof fn lemma_added_last(view: LibraryView, playlist_id: i64, track_id: i64)
    requires
        view.well_formed(),
        playlist_known(view.playlists, playlist_id),
        db::known(view.tracks, track_id),
    ensures
        ({
            let row = playlist_row(view.playlists, playlist_id);
            let before = view.playlists[row].tracks;
            let after = with_playlist_tracks(view.playlists, row, before.push(track_id));
            &&& playlist_row(after, playlist_id) == row
            &&& db::named(view.tracks, after[row].tracks) == db::named(view.tracks, before).push(
                view.tracks[db::row_of(view.tracks, track_id)],
            )
        }),
{
    let row = playlist_row(view.playlists, playlist_id);
    let before = view.playlists[row].tracks;
    let after = with_playlist_tracks(view.playlists, row, before.push(track_id));
    assert(after[row].id == playlist_id);
    let found = playlist_row(after, playlist_id);
    assert(after[found].id == playlist_id);
    assert(view.playlists[found].id == playlist_id);
    assert(found == row) by {
        if found < row {
            assert(view.playlists[found].id < view.playlists[row].id);
        } else if row < found {
            assert(view.playlists[row].id < view.playlists[found].id);
        }
    }
    assert(db::named(view.tracks, before.push(track_id)) =~= db::named(view.tracks, before).push(
        view.tracks[db::row_of(view.tracks, track_id)],
    ));
}

/// Where a playlist can be made, one playlist and no other has the name, under the identifier of
/// its row; every playlist that was there before is unchanged; and making it again changes nothing
/// and gives the same identifier.
pub proof fn lemma_one_playlist_of_a_name(view: LibraryView, name: Seq<char>)
    requires
        view.well_formed(),
        playlist_fault(view.playlists, name) is None,
    ensures
        ({
            let after = with_playlist(view.playlists, name);
            let row = name_row(after, name);
            &&& 0 <= row < after.len()
            &&& forall|i: int|
                0 <= i < after.len() ==> ((#[trigger] after[i]).name == name <==> i == row)
            &&& playlist_known(after, after[row].id)
            &&& playlist_row(after, after[row].id) == row
            &&& after.len() <= view.playlists.len() + 1
            &&& after.take(view.playlists.len() as int) == view.playlists
            &&& row < view.playlists.len() ==> after == view.playlists
            &&& playlist_fault(after, name) is None
            &&& with_playlist(after, name) == after
            &&& (LibraryView { playlists: after, ..view }).well_formed()
        }),
{
    let after = with_playlist(view.playlists, name);
    lemma_name_row(view.playlists, name);
    if name_row(view.playlists, name) >= view.playlists.len() {
        lemma_new_name(view.playlists, after.last());
        assert forall|r: int, s: int| 0 <= r < s < after.len() implies (
        #[trigger] after[r]).name != (#[trigger] after[s]).name && after[r].id < after[s].id by {
            assert(after[r] == view.playlists[r]);
            if s < view.playlists.len() {
                assert(after[s] == view.playlists[s]);
            } else if r < s - 1 {
                assert(view.playlists[r].id < view.playlists[s - 1].id);
            }
        }
        assert forall|i: int| 0 <= i < after.len() implies (#[trigger] after[i]).id > 0
            && db::all_known(view.tracks, after[i].tracks) by {
            if i < view.playlists.len() {
                assert(after[i] == view.playlists[i]);
            } else if view.playlists.len() > 0 {
                assert(view.playlists[i - 1].id > 0);
            }
        }
    }
    lemma_name_row(after, name);
    let row = name_row(after, name);
    assert(after[row].id == after[row].id);
    let found = playlist_row(after, after[row].id);
    assert(after[found].id == after[row].id);
    assert(after.take(view.playlists.len() as int) =~= view.playlists);
}

/// A name belongs to one playlist: making one with a name that is taken changes nothing.
pub proof fn lemma_made_once(playlists: Seq<PlaylistRowView>, name: Seq<char>)
    ensures
        with_playlist(with_playlist(playlists, name), name) == with_playlist(playlists, name),
{
    if name_row(playlists, name) >= playlists.len() {
        lemma_new_name(
            playlists,
            PlaylistRowView { id: next_playlist_id(playlists) as i64, name, tracks: Seq::empty() },
        );
    }
}

/// The tracks of a playlist, as the library lists them.
pub open spec fn tracks_of(view: LibraryView, playlist_id: i64) -> Seq<i64> {
    view.playlists[playlist_row(view.playlists, playlist_id)].tracks
}

proof fn lemma_row_found(playlists: Seq<PlaylistRowView>, id: i64)
    requires
        playlist_known(playlists, id),
    ensures
        0 <= playlist_row(playlists, id) < playlists.len(),
        playlists[playlist_row(playlists, id)].id == id,
{
}

proof fn lemma_same_rows(before: Seq<PlaylistRowView>, after: Seq<PlaylistRowView>, id: i64)
    requires
        before.len() == after.len(),
        forall|i: int| 0 <= i < before.len() ==> (#[trigger] after[i]).id == before[i].id,
        forall|i: int, j: int|
            0 <= i < j < before.len() ==> (#[trigger] before[i]).id < (#[trigger] before[j]).id,
        playlist_known(before, id),
    ensures
        playlist_known(after, id),
        playlist_row(after, id) == playlist_row(before, id),
{
    let row = playlist_row(before, id);
    assert(before[row].id == id);
    assert(after[row].id == id);
    let found = playlist_row(after, id);
    assert(after[found].id == id);
    assert(before[found].id == id);
    if found < row {
        assert(before[found].id < before[row].id);
    }
    if row < found {
        assert(before[row].id < before[found].id);
    }
}

/// A track is added at the end of one playlist, behind all that were there; every other playlist,
/// and everything else in the library, stays as it was.
pub proof fn lemma_added_at_the_end(view: LibraryView, playlist_id: i64, track_id: i64, other: i64)
    requires
        view.well_formed(),
        playlist_known(view.playlists, playlist_id),
        playlist_known(view.playlists, other),
    ensures
        ({
            let after = with_added(view, playlist_id, track_id);
            let (then, now) = (tracks_of(view, playlist_id), tracks_of(after, playlist_id));
            &&& playlist_known(after.playlists, playlist_id)
            &&& now.len() == then.len() + 1
            &&& now.last() == track_id
            &&& forall|k: int| 0 <= k < then.len() ==> #[trigger] now[k] == then[k]
            &&& other != playlist_id ==> tracks_of(after, other) == tracks_of(view, other)
            &&& after.playlists.len() == view.playlists.len()
            &&& after.playlists[playlist_row(view.playlists, other)].name
                == view.playlists[playlist_row(view.playlists, other)].name
            &&& after.tracks == view.tracks
            &&& after.albums == view.albums
            &&& after.queue == view.queue
            &&& after.roots == view.roots
            &&& after.jobs == view.jobs
        }),
{
    let after = with_added(view, playlist_id, track_id);
    lemma_row_found(view.playlists, playlist_id);
    lemma_row_found(view.playlists, other);
    lemma_same_rows(view.playlists, after.playlists, playlist_id);
    lemma_same_rows(view.playlists, after.playlists, other);
}

/// Taking a track out of a playlist removes that one place: those before it keep their places, and
/// those behind it move up by one. Past the end nothing is taken, and nothing else ever changes.
pub proof fn lemma_removed_in_place(view: LibraryView, playlist_id: i64, position: int, other: i64)
    requires
        view.well_formed(),
        playlist_known(view.playlists, playlist_id),
        playlist_known(view.playlists, other),
        0 <= position,
    ensures
        ({
            let after = with_removed(view, playlist_id, position);
            let (then, now) = (tracks_of(view, playlist_id), tracks_of(after, playlist_id));
            &&& position >= then.len() ==> after == view
            &&& position < then.len() ==> now.len() == then.len() - 1
            &&& forall|k: int| 0 <= k < position && k < now.len() ==> #[trigger] now[k] == then[k]
            &&& position < then.len() ==> forall|k: int|
                position <= k < now.len() ==> #[trigger] now[k] == then[k + 1]
            &&& other != playlist_id ==> tracks_of(after, other) == tracks_of(view, other)
            &&& after.playlists.len() == view.playlists.len()
            &&& after.playlists[playlist_row(view.playlists, other)].name
                == view.playlists[playlist_row(view.playlists, other)].name
            &&& after.tracks == view.tracks
            &&& after.albums == view.albums
            &&& after.queue == view.queue
        }),
{
    let after = with_removed(view, playlist_id, position);
    lemma_row_found(view.playlists, playlist_id);
    lemma_row_found(view.playlists, other);
    lemma_same_rows(view.playlists, after.playlists, playlist_id);
    lemma_same_rows(view.playlists, after.playlists, other);
}

/// Taking out what was just added leaves the library as it was.
pub proof fn lemma_added_then_removed(view: LibraryView, playlist_id: i64, track_id: i64)
    requires
        view.well_formed(),
        playlist_known(view.playlists, playlist_id),
    ensures
        with_removed(
            with_added(view, playlist_id, track_id),
            playlist_id,
            tracks_of(view, playlist_id).len() as int,
        ) == view,
{
    let after = with_added(view, playlist_id, track_id);
    lemma_row_found(view.playlists, playlist_id);
    lemma_same_rows(view.playlists, after.playlists, playlist_id);
    let back = with_removed(after, playlist_id, tracks_of(view, playlist_id).len() as int);
    let row = playlist_row(view.playlists, playlist_id);
    assert(back.playlists[row].tracks =~= view.playlists[row].tracks);
    assert(back.playlists =~= view.playlists);
    assert(back =~= view);
}

/// A new playlist is empty, bears the name it was given and comes after all others.
pub proof fn lemma_new_playlist_empty(playlists: Seq<PlaylistRowView>, name: Seq<char>)
    requires
        forall|i: int| 0 <= i < playlists.len() ==> (#[trigger] playlists[i]).name != name,
    ensures
        with_playlist(playlists, name).len() == playlists.len() + 1,
        with_playlist(playlists, name).last().name == name,
        with_playlist(playlists, name).last().tracks.len() == 0,
        with_playlist(playlists, name).drop_last() == playlists,
{
    lemma_name_row(playlists, name);
    assert(with_playlist(playlists, name).drop_last() =~= playlists);
}

/// A name is refused exactly where it is empty or longer than a hundred and twenty-eight characters,
/// or where it is new and no identifier is left.
pub proof fn lemma_refused_names(playlists: Seq<PlaylistRowView>, name: Seq<char>)
    ensures
        playlist_fault(playlists, name) is Some <==> name.len() == 0 || name.len() > 128 || (
        playlists.len() > 0 && playlists.last().id == i64::MAX && forall|i: int|
            0 <= i < playlists.len() ==> (#[trigger] playlists[i]).name != name),
{
    lemma_name_row(playlists, name);
    let row = name_row(playlists, name);
    if row < playlists.len() {
        assert(playlists[row].name == name);
    }
}

/// What is shown of a playlist is its own identifier, its own name and how many tracks it has, in the
/// order of the names.
pub proof fn lemma_playlists_shown(playlists: Seq<PlaylistRowView>, places: Seq<int>, i: int, j: int)
    requires
        order::is_listing(playlist_keys(playlists), db::everything(playlists.len()), places),
        0 <= i < j < places.len(),
        forall|k: int| 0 <= k < playlists.len() ==> (#[trigger] playlists[k]).tracks.len() <= u64::MAX,
    ensures
        places.len() >= 1,
        forall|k: int| 0 <= k < playlists.len() ==> #[trigger] places.contains(k),
        ({
            let shown = db::picked(playlist_lines(playlists), places);
            &&& shown[i].0 == playlists[places[i]].id
            &&& shown[i].1 == playlists[places[i]].name
            &&& shown[i].2 == playlists[places[i]].tracks.len()
            &&& !order::precedes(order::folded_text(shown[j].1), order::folded_text(shown[i].1))
        }),
{
    let keys = playlist_keys(playlists);
    let keep = db::everything(playlists.len());
    let firsts = Seq::new(playlists.len(), |k: int| playlists[k].name);
    let seconds = Seq::new(playlists.len(), |k: int| Seq::<char>::empty());
    order::lemma_listed_by_both(firsts, seconds, keys, keep, places, i, j);
    assert forall|k: int| 0 <= k < playlists.len() implies #[trigger] places.contains(k) by {
        assert(keep[k]);
    }
    assert(0 <= places[i] < keys.len() && 0 <= places[j] < keys.len());
    assert(playlists[places[i]].tracks.len() <= u64::MAX);
}

} // verus!
