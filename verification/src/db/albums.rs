//! Albums: collections of tracks from one source, stored whole and in order.

use vstd::prelude::*;

use crate::db;
use crate::db::AlbumRow;
use crate::db::AlbumRowView;
use crate::db::LibraryDb;
use crate::db::LibraryView;
use crate::db::MAX_QUERY_TRACKS;
use crate::like;
use crate::model::Album;
use crate::model::AlbumDraft;
use crate::model::AlbumDraftView;
use crate::model::AlbumView;
use crate::model::Track;
use crate::model::TrackDraft;
use crate::model::TrackDraftView;
use crate::model::TrackView;
use crate::order;
use crate::order::Key;
use crate::order::KeyView;
use crate::text;

verus! {

/// The row of the album with this source, or the number of albums.
pub open spec fn album_source_row(
    albums: Seq<AlbumRowView>,
    provider: Seq<char>,
    source_id: Seq<char>,
) -> int
    decreases albums.len(),
{
    if albums.len() == 0 || (albums[0].provider == provider && albums[0].source_id == source_id) {
        0
    } else {
        1 + album_source_row(albums.skip(1), provider, source_id)
    }
}

/// The identifier of the next new album.
pub open spec fn next_album_id(albums: Seq<AlbumRowView>) -> int {
    if albums.len() == 0 {
        1
    } else {
        albums.last().id + 1
    }
}

/// Why an album cannot be stored, if it cannot.
pub open spec fn album_fault(
    view: LibraryView,
    album: AlbumDraftView,
    drafts: Seq<TrackDraftView>,
) -> Option<Seq<char>> {
    match db::drafts_fault(view.tracks, drafts) {
        Some(message) => Some(message),
        None => if album_source_row(view.albums, album.provider, album.source_id)
            >= view.albums.len() && next_album_id(view.albums) > i64::MAX {
            Some("database or disk is full: Error code 13: Insertion failed because database is full"@)
        } else {
            None
        },
    }
}

/// The identifier under which an album is stored.
pub open spec fn album_id(albums: Seq<AlbumRowView>, album: AlbumDraftView) -> i64 {
    let at = album_source_row(albums, album.provider, album.source_id);
    if at < albums.len() {
        albums[at].id
    } else {
        next_album_id(albums) as i64
    }
}

/// The albums once one is stored with its tracks in order.
pub open spec fn with_album(
    albums: Seq<AlbumRowView>,
    album: AlbumDraftView,
    tracks: Seq<i64>,
) -> Seq<AlbumRowView> {
    let at = album_source_row(albums, album.provider, album.source_id);
    let row = AlbumRowView {
        id: album_id(albums, album),
        provider: album.provider,
        source_id: album.source_id,
        title: album.title,
        artist: album.artist,
        tracks,
    };
    if at < albums.len() {
        albums.update(at, row)
    } else {
        albums.push(row)
    }
}

/// The library once an album is stored with all of its tracks.
pub open spec fn album_stored(
    view: LibraryView,
    album: AlbumDraftView,
    drafts: Seq<TrackDraftView>,
) -> LibraryView {
    LibraryView {
        tracks: db::all_upserted(view.tracks, drafts),
        albums: with_album(view.albums, album, db::upserted_ids(view.tracks, drafts)),
        ..view
    }
}

proof fn lemma_album_source_row(
    albums: Seq<AlbumRowView>,
    provider: Seq<char>,
    source_id: Seq<char>,
)
    ensures
        0 <= album_source_row(albums, provider, source_id) <= albums.len(),
        forall|i: int|
            0 <= i < album_source_row(albums, provider, source_id) ==> !((
            #[trigger] albums[i]).provider == provider && albums[i].source_id == source_id),
        album_source_row(albums, provider, source_id) < albums.len() ==> albums[album_source_row(
            albums,
            provider,
            source_id,
        )].provider == provider && albums[album_source_row(
            albums,
            provider,
            source_id,
        )].source_id == source_id,
    decreases albums.len(),
{
    if albums.len() > 0 && !(albums[0].provider == provider && albums[0].source_id == source_id) {
        let rest = albums.skip(1);
        lemma_album_source_row(rest, provider, source_id);
        assert forall|i: int|
            0 <= i < album_source_row(albums, provider, source_id) implies !((
        #[trigger] albums[i]).provider == provider && albums[i].source_id == source_id) by {
            if i > 0 {
                assert(albums[i] == rest[i - 1]);
            }
        }
    }
}

/// Whether no two drafts have the same path.
pub open spec fn distinct_drafts(drafts: Seq<TrackDraftView>) -> bool {
    forall|i: int, j: int|
        0 <= i < j < drafts.len() ==> (#[trigger] drafts[i]).path != (#[trigger] drafts[j]).path
}

proof fn lemma_row_of(tracks: Seq<TrackView>, i: int)
    requires
        db::growing_tracks(tracks),
        0 <= i < tracks.len(),
    ensures
        db::row_of(tracks, tracks[i].id) == i,
{
    let row = db::row_of(tracks, tracks[i].id);
    assert(0 <= row < tracks.len() && tracks[row].id == tracks[i].id);
}

/// The identifiers under which drafts are stored lead to the tracks that they became.
proof fn lemma_ids_lead(tracks: Seq<TrackView>, drafts: Seq<TrackDraftView>)
    requires
        db::growing_tracks(tracks),
        db::distinct_paths(tracks),
        db::drafts_fault(tracks, drafts) is None,
    ensures
        db::upserted_ids(tracks, drafts).len() == drafts.len(),
        forall|k: int|
            0 <= k < drafts.len() ==> (#[trigger] db::named(
                db::all_upserted(tracks, drafts),
                db::upserted_ids(tracks, drafts),
            )[k]).path == drafts[k].path,
        distinct_drafts(drafts) ==> forall|k: int|
            0 <= k < drafts.len() ==> (#[trigger] db::named(
                db::all_upserted(tracks, drafts),
                db::upserted_ids(tracks, drafts),
            )[k]) == db::row_from(drafts[k], db::upserted_ids(tracks, drafts)[k]),
    decreases drafts.len(),
{
    if drafts.len() > 0 {
        let rest = drafts.drop_last();
        let last = drafts.last();
        let before = db::all_upserted(tracks, rest);
        let after = db::all_upserted(tracks, drafts);
        let earlier = db::upserted_ids(tracks, rest);
        let ids = db::upserted_ids(tracks, drafts);
        let at = db::path_row(before, last.path);
        lemma_ids_lead(tracks, rest);
        db::lemma_drafts_keep(tracks, rest);
        db::lemma_upsert_keeps(before, last);
        db::lemma_path_row(before, last.path);
        assert(after[at] == db::row_from(last, ids.last()));
        lemma_row_of(after, at);
        if distinct_drafts(drafts) {
            assert forall|i: int, j: int| 0 <= i < j < rest.len() implies (
            #[trigger] rest[i]).path != (#[trigger] rest[j]).path by {
                assert(drafts[i].path != drafts[j].path);
            }
        }
        assert forall|k: int| 0 <= k < drafts.len() implies {
            &&& (#[trigger] db::named(after, ids)[k]).path == drafts[k].path
            &&& distinct_drafts(drafts) ==> db::named(after, ids)[k] == db::row_from(
                drafts[k],
                ids[k],
            )
        } by {
            if k < rest.len() {
                assert(ids[k] == earlier[k]);
                assert(drafts[k] == rest[k]);
                assert(db::known(before, earlier[k]));
                let row = db::row_of(before, earlier[k]);
                assert(db::named(before, earlier)[k] == before[row]);
                assert(after[row].id == before[row].id && after[row].path == before[row].path);
                lemma_row_of(after, row);
                assert(db::named(after, ids)[k] == after[row]);
                if distinct_drafts(drafts) {
                    assert(drafts[k].path != drafts[drafts.len() - 1].path);
                    assert(row != at);
                }
            }
        }
    }
}

/// Whether the album with this identifier holds a track for every draft, in their order: at its
/// path and, where no two have the same path, with all that the draft says.
pub open spec fn kept_in_order(view: LibraryView, id: i64, drafts: Seq<TrackDraftView>) -> bool {
    let ids = view.albums[album_row(view.albums, id)].tracks;
    &&& ids.len() == drafts.len()
    &&& forall|k: int|
        0 <= k < drafts.len() ==> (#[trigger] db::named(view.tracks, ids)[k]).path == drafts[k].path
    &&& distinct_drafts(drafts) ==> forall|k: int|
        0 <= k < drafts.len() ==> (#[trigger] db::named(view.tracks, ids)[k]) == db::row_from(
            drafts[k],
            ids[k],
        )
}

/// An album is stored whole: its identifier leads to every one of its tracks, in their order, and
/// all that the library held before is still there.
pub proof fn lemma_album_whole(
    view: LibraryView,
    album: AlbumDraftView,
    drafts: Seq<TrackDraftView>,
)
    requires
        view.well_formed(),
        album_fault(view, album, drafts) is None,
    ensures
        album_stored(view, album, drafts).well_formed(),
        album_known(album_stored(view, album, drafts).albums, album_id(view.albums, album)),
        kept_in_order(album_stored(view, album, drafts), album_id(view.albums, album), drafts),
        forall|id: i64|
            db::known(view.tracks, id) ==> #[trigger] db::known(
                album_stored(view, album, drafts).tracks,
                id,
            ),
        forall|id: i64|
            album_known(view.albums, id) ==> #[trigger] album_known(
                album_stored(view, album, drafts).albums,
                id,
            ),
{
    let after = album_stored(view, album, drafts);
    lemma_album_source_row(view.albums, album.provider, album.source_id);
    db::lemma_drafts_keep(view.tracks, drafts);
    let middle = LibraryView { tracks: after.tracks, ..view };
    db::lemma_more_known(view, middle);
    let at = album_source_row(view.albums, album.provider, album.source_id);
    assert forall|i: int| 0 <= i < after.albums.len() implies db::all_known(
        after.tracks,
        (#[trigger] after.albums[i]).tracks,
    ) by {
        if i != at {
            assert(after.albums[i] == middle.albums[i]);
        }
    }
    assert forall|i: int| 0 <= i < after.albums.len() implies (#[trigger] after.albums[i]).id
        > 0 by {
        if i != at {
            assert(after.albums[i] == middle.albums[i]);
        } else if at < view.albums.len() {
            assert(view.albums[at].id > 0);
        } else if view.albums.len() > 0 {
            assert(view.albums[view.albums.len() - 1].id > 0);
        }
    }
    assert forall|i: int, j: int| 0 <= i < j < after.albums.len() implies (
    #[trigger] after.albums[i]).id < (#[trigger] after.albums[j]).id by {
        if at < view.albums.len() {
            assert(after.albums[i].id == view.albums[i].id);
            assert(after.albums[j].id == view.albums[j].id);
        } else {
            assert(after.albums[i] == view.albums[i]);
            if j < at {
                assert(after.albums[j] == view.albums[j]);
            } else if i < at - 1 {
                assert(view.albums[i].id < view.albums[at - 1].id);
            }
        }
    }
    assert forall|i: int, j: int| 0 <= i < j < after.albums.len() implies !((
    #[trigger] after.albums[i]).provider == (#[trigger] after.albums[j]).provider
        && after.albums[i].source_id == after.albums[j].source_id) by {
        if at < view.albums.len() {
            assert(view.albums[i].provider == after.albums[i].provider);
            assert(view.albums[j].provider == after.albums[j].provider);
        } else {
            assert(view.albums[i] == after.albums[i]);
            if j < at {
                assert(view.albums[j] == after.albums[j]);
            }
        }
    }
    lemma_ids_lead(view.tracks, drafts);
    assert(after.albums[at].id == album_id(view.albums, album));
    let row = album_row(after.albums, album_id(view.albums, album));
    assert(after.albums[row].id == after.albums[at].id);
    assert(row == at);
    assert forall|id: i64| album_known(view.albums, id) implies #[trigger] album_known(
        after.albums,
        id,
    ) by {
        let i = album_row(view.albums, id);
        assert(after.albums[i].id == id);
    }
}

/// What albums are ordered by.
pub open spec fn album_keys(albums: Seq<AlbumRowView>) -> Seq<KeyView> {
    Seq::new(albums.len(), |i: int| order::folded(albums[i].artist, albums[i].title))
}

/// Whether an album is what is sought: by its title, its artist or one of its tracks.
pub open spec fn album_fits(
    tracks: Seq<TrackView>,
    album: AlbumRowView,
    pattern: Option<Seq<char>>,
) -> bool {
    match pattern {
        None => true,
        Some(p) => like::like(p, album.title) || like::like(p, album.artist) || exists|i: int|
            0 <= i < album.tracks.len() && db::track_fits(
                tracks[db::row_of(tracks, #[trigger] album.tracks[i])],
                pattern,
            ),
    }
}

/// Which albums are sought.
pub open spec fn kept_albums(view: LibraryView, pattern: Option<Seq<char>>) -> Seq<bool> {
    Seq::new(view.albums.len(), |i: int| album_fits(view.tracks, view.albums[i], pattern))
}

/// How many of the tracks of a list have their file.
pub open spec fn available_count(tracks: Seq<TrackView>, ids: Seq<i64>) -> nat
    decreases ids.len(),
{
    if ids.len() == 0 {
        0
    } else {
        available_count(tracks, ids.drop_last()) + if tracks[db::row_of(tracks, ids.last())].available {
            1nat
        } else {
            0
        }
    }
}

/// What is shown of the albums: always with the number of all their tracks.
pub open spec fn album_lines(view: LibraryView) -> Seq<AlbumView> {
    Seq::new(
        view.albums.len(),
        |i: int|
            AlbumView {
                id: view.albums[i].id,
                provider: view.albums[i].provider,
                source_id: view.albums[i].source_id,
                title: view.albums[i].title,
                artist: view.albums[i].artist,
                track_count: view.albums[i].tracks.len() as u64,
                available_count: available_count(view.tracks, view.albums[i].tracks) as u64,
            },
    )
}

/// Whether there is an album with this identifier.
pub open spec fn album_known(albums: Seq<AlbumRowView>, id: i64) -> bool {
    exists|i: int| 0 <= i < albums.len() && (#[trigger] albums[i]).id == id
}

/// The row of the album with this identifier.
pub open spec fn album_row(albums: Seq<AlbumRowView>, id: i64) -> int {
    choose|i: int| 0 <= i < albums.len() && (#[trigger] albums[i]).id == id
}

impl LibraryDb {
    fn find_album_source(&self, provider: &str, source_id: &str) -> (result: usize)
        ensures
            result == album_source_row(self@.albums, provider@, source_id@),
            result <= self.albums@.len(),
    {
        let mut i: usize = 0;
        assert(self@.albums.skip(0) =~= self@.albums);
        while i < self.albums.len()
            invariant
                i <= self.albums@.len(),
                album_source_row(self@.albums, provider@, source_id@) == i + album_source_row(
                    self@.albums.skip(i as int),
                    provider@,
                    source_id@,
                ),
            decreases self.albums@.len() - i,
        {
            assert(self@.albums[i as int] == self.albums@[i as int]@);
            if text::same_text(self.albums[i].provider.as_str(), provider) && text::same_text(
                self.albums[i].source_id.as_str(),
                source_id,
            ) {
                return i;
            }
            assert(self@.albums.skip(i as int).skip(1) =~= self@.albums.skip(i + 1));
            i += 1;
        }
        i
    }

    /// Stores every draft of a list; where one cannot be stored, the tracks may be left halfway.
    fn put_all(&mut self, drafts: &Vec<TrackDraft>) -> (result: Result<Vec<i64>, String>)
        requires
            db::growing_tracks(old(self)@.tracks),
            db::distinct_paths(old(self)@.tracks),
        ensures
            match result {
                Ok(ids) => db::drafts_fault(old(self)@.tracks, text::views(drafts@)) is None && ids@
                    == db::upserted_ids(old(self)@.tracks, text::views(drafts@)) && final(self)@ == (
                LibraryView {
                    tracks: db::all_upserted(old(self)@.tracks, text::views(drafts@)),
                    ..old(self)@
                }),
                Err(message) => db::drafts_fault(old(self)@.tracks, text::views(drafts@)) == Some(
                    message@,
                ) && exists|rows: Seq<TrackView>| final(self)@ == #[trigger] db::with_tracks(
                    old(self)@,
                    rows,
                ),
            },
    {
        let ghost all = text::views(drafts@);
        let ghost start = self@;
        let mut ids: Vec<i64> = Vec::new();
        let mut i: usize = 0;
        assert(all.take(0) =~= Seq::<TrackDraftView>::empty());
        while i < drafts.len()
            invariant
                all == text::views(drafts@),
                db::growing_tracks(start.tracks),
                db::distinct_paths(start.tracks),
                i <= drafts@.len(),
                db::drafts_fault(start.tracks, all.take(i as int)) is None,
                ids@ == db::upserted_ids(start.tracks, all.take(i as int)),
                self@ == db::with_tracks(start, db::all_upserted(start.tracks, all.take(i as int))),
                start == old(self)@,
            decreases drafts@.len() - i,
        {
            proof {
                assert(all.take(i + 1).drop_last() =~= all.take(i as int));
                assert(all.take(i + 1).last() == drafts@[i as int]@);
                db::lemma_drafts_keep(start.tracks, all.take(i as int));
            }
            match self.put(&drafts[i]) {
                Ok(at) => {
                    assert(self@.tracks[at as int] == self.tracks@[at as int]@);
                    ids.push(self.tracks[at].id);
                },
                Err(message) => {
                    proof {
                        db::lemma_fault_stays(start.tracks, all, i + 1);
                        assert(self@ == db::with_tracks(start, self@.tracks));
                    }
                    return Err(message);
                },
            }
            i += 1;
        }
        assert(all.take(all.len() as int) =~= all);
        Ok(ids)
    }

    /// Stores an album with all of its tracks in order, or nothing at all; an album from the same
    /// source is replaced.
    pub fn upsert_album(&mut self, album: &AlbumDraft, drafts: &Vec<TrackDraft>) -> (result: Result<
        i64,
        String,
    >)
        requires
            old(self)@.well_formed(),
        ensures
            final(self)@.well_formed(),
            match result {
                Ok(id) => album_fault(old(self)@, album@, text::views(drafts@)) is None && final(
                    self)@ == album_stored(old(self)@, album@, text::views(drafts@)) && id
                    == album_id(old(self)@.albums, album@),
                Err(message) => album_fault(old(self)@, album@, text::views(drafts@)) == Some(
                    message@,
                ) && final(self)@ == old(self)@,
            },
    {
        let saved = db::copied_tracks(&self.tracks);
        let ghost start = self@;
        let at: usize = self.find_album_source(album.provider.as_str(), album.source_id.as_str());
        let count: usize = self.albums.len();
        let ids = match self.put_all(drafts) {
            Ok(ids) => ids,
            Err(message) => {
                self.tracks = saved;
                assert(self@ =~= start);
                return Err(message);
            },
        };
        assert(self@.albums =~= start.albums);
        let id: i64 = if at < count {
            assert(self@.albums[at as int] == self.albums@[at as int]@);
            self.albums[at].id
        } else if count == 0 {
            1
        } else {
            assert(self@.albums[count - 1] == self.albums@[count - 1]@);
            let last: i64 = self.albums[count - 1].id;
            if last == i64::MAX {
                self.tracks = saved;
                assert(self@ =~= start);
                return Err("database or disk is full: Error code 13: Insertion failed because database is full".to_owned());
            }
            last + 1
        };
        let row = AlbumRow {
            id,
            provider: album.provider.clone(),
            source_id: album.source_id.clone(),
            title: album.title.clone(),
            artist: album.artist.clone(),
            tracks: ids,
        };
        if at < count {
            self.albums.set(at, row);
        } else {
            self.albums.push(row);
        }
        proof {
            assert(self@.albums =~= with_album(
                start.albums,
                album@,
                db::upserted_ids(start.tracks, text::views(drafts@)),
            ));
            assert(self@ =~= album_stored(start, album@, text::views(drafts@)));
            lemma_album_whole(start, album@, text::views(drafts@));
        }
        Ok(id)
    }

    fn fits_album(&self, row: usize, pattern: &Option<Vec<char>>) -> (result: bool)
        requires
            self@.well_formed(),
            row < self@.albums.len(),
        ensures
            result == album_fits(
                self@.tracks,
                self@.albums[row as int],
                db::shown_pattern(*pattern),
            ),
    {
        let ghost sought = db::shown_pattern(*pattern);
        let ghost album = self@.albums[row as int];
        assert(album == self.albums@[row as int]@);
        match pattern {
            None => true,
            Some(p) => {
                if db::text_fits(p, self.albums[row].title.as_str()) || db::text_fits(
                    p,
                    self.albums[row].artist.as_str(),
                ) {
                    return true;
                }
                let mut i: usize = 0;
                while i < self.albums[row].tracks.len()
                    invariant
                        self@.well_formed(),
                        row < self@.albums.len(),
                        album == self@.albums[row as int],
                        album == self.albums@[row as int]@,
                        sought == Some(p@),
                        *pattern == Some(*p),
                        i <= album.tracks.len(),
                        forall|k: int|
                            0 <= k < i ==> !db::track_fits(
                                self@.tracks[db::row_of(self@.tracks, #[trigger] album.tracks[k])],
                                sought,
                            ),
                    decreases album.tracks.len() - i,
                {
                    let id: i64 = self.albums[row].tracks[i];
                    assert(db::all_known(self@.tracks, album.tracks));
                    assert(db::known(self@.tracks, album.tracks[i as int]));
                    match self.find_track(id) {
                        Some(at) => {
                            assert(self@.tracks[at as int] == self.tracks@[at as int]@);
                            if db::is_sought(&self.tracks[at], pattern) {
                                return true;
                            }
                        },
                        None => {},
                    }
                    i += 1;
                }
                false
            },
        }
    }

    fn count_available(&self, row: usize) -> (result: u64)
        requires
            self@.well_formed(),
            row < self@.albums.len(),
        ensures
            result == available_count(self@.tracks, self@.albums[row as int].tracks),
            result <= self@.albums[row as int].tracks.len(),
    {
        let ghost ids = self@.albums[row as int].tracks;
        assert(self@.albums[row as int] == self.albums@[row as int]@);
        let mut count: u64 = 0;
        let mut i: usize = 0;
        assert(ids.take(0) =~= Seq::<i64>::empty());
        while i < self.albums[row].tracks.len()
            invariant
                self@.well_formed(),
                row < self@.albums.len(),
                ids == self@.albums[row as int].tracks,
                self@.albums[row as int] == self.albums@[row as int]@,
                i <= ids.len(),
                count <= i,
                count == available_count(self@.tracks, ids.take(i as int)),
            decreases ids.len() - i,
        {
            let id: i64 = self.albums[row].tracks[i];
            proof {
                assert(db::all_known(self@.tracks, self@.albums[row as int].tracks));
                assert(db::known(self@.tracks, ids[i as int]));
                assert(ids.take(i + 1).drop_last() =~= ids.take(i as int));
                assert(ids.take(i + 1).last() == id);
            }
            match self.find_track(id) {
                Some(at) => {
                    assert(self@.tracks[at as int] == self.tracks@[at as int]@);
                    if self.tracks[at].available {
                        count += 1;
                    }
                },
                None => {},
            }
            i += 1;
        }
        assert(ids.take(ids.len() as int) =~= ids);
        count
    }

    /// The albums that fit a filter, by artist and title.
    pub fn albums(&self, filter: Option<&str>, limit: usize) -> (result: Vec<Album>)
        requires
            self@.well_formed(),
        ensures
            text::views(result@) == db::listed(
                album_lines(self@),
                album_keys(self@.albums),
                kept_albums(self@, db::sought(text::seen(filter))),
                db::query_limit(limit as nat),
                0,
            ),
            order::is_listing(
                album_keys(self@.albums),
                kept_albums(self@, db::sought(text::seen(filter))),
                order::listing_of(album_keys(self@.albums), kept_albums(self@, db::sought(text::seen(filter)))),
            ),
    {
        let pattern = db::pattern_of(filter);
        let mut keys: Vec<Key> = Vec::new();
        let mut keep: Vec<bool> = Vec::new();
        let mut i: usize = 0;
        while i < self.albums.len()
            invariant
                self@.well_formed(),
                i <= self.albums@.len(),
                keys@.len() == i,
                keep@.len() == i,
                match pattern {
                    Some(p) => db::sought(text::seen(filter)) == Some(p@),
                    None => db::sought(text::seen(filter)) is None,
                },
                forall|k: int|
                    0 <= k < i ==> #[trigger] keep@[k] == album_fits(
                        self@.tracks,
                        self@.albums[k],
                        db::sought(text::seen(filter)),
                    ),
                forall|k: int|
                    0 <= k < i ==> (#[trigger] keys@[k])@ == order::folded(
                        self@.albums[k].artist,
                        self@.albums[k].title,
                    ),
            decreases self.albums@.len() - i,
        {
            assert(self@.albums[i as int] == self.albums@[i as int]@);
            keys.push(
                order::key_of(self.albums[i].artist.as_str(), self.albums[i].title.as_str()),
            );
            keep.push(self.fits_album(i, &pattern));
            i += 1;
        }
        assert(text::views(keys@) =~= album_keys(self@.albums));
        assert(keep@ =~= kept_albums(self@, db::sought(text::seen(filter))));
        let places = order::listing(&keys, &keep);
        let ghost all = order::positions(places@);
        let most: usize = if limit > MAX_QUERY_TRACKS {
            MAX_QUERY_TRACKS
        } else {
            limit
        };
        let (from, to) = db::page_bounds(places.len(), most, 0);
        let ghost shown = order::page(all, most as nat, 0);
        let mut result: Vec<Album> = Vec::new();
        let mut k: usize = from;
        while k < to
            invariant
                self@.well_formed(),
                from <= k <= to <= places@.len(),
                all == order::positions(places@),
                shown == all.subrange(from as int, to as int),
                order::is_listing(album_keys(self@.albums), keep@, all),
                result@.len() == k - from,
                forall|m: int|
                    0 <= m < k - from ==> (#[trigger] result@[m])@ == album_lines(self@)[shown[m]],
            decreases to - k,
        {
            let place: usize = places[k];
            assert(all[k as int] == place);
            assert(0 <= all[k as int] < album_keys(self@.albums).len());
            assert(self@.albums[place as int] == self.albums@[place as int]@);
            assert(shown[k - from] == place);
            let row = &self.albums[place];
            let line = Album {
                id: row.id,
                provider: row.provider.clone(),
                source_id: row.source_id.clone(),
                title: row.title.clone(),
                artist: row.artist.clone(),
                track_count: row.tracks.len() as u64,
                available_count: self.count_available(place),
            };
            assert(line@ == album_lines(self@)[place as int]);
            result.push(line);
            k += 1;
        }
        assert(text::views(result@) =~= db::picked(album_lines(self@), shown));
        result
    }

    /// The tracks of an album, in order; none where there is no such album.
    pub fn album_tracks(&self, id: i64) -> (result: Vec<Track>)
        requires
            self@.well_formed(),
        ensures
            text::views(result@) == if album_known(self@.albums, id) {
                db::named(self@.tracks, self@.albums[album_row(self@.albums, id)].tracks)
            } else {
                Seq::empty()
            },
    {
        let mut i: usize = 0;
        while i < self.albums.len()
            invariant
                self@.well_formed(),
                i <= self.albums@.len(),
                forall|k: int| 0 <= k < i ==> (#[trigger] self@.albums[k]).id != id,
            decreases self.albums@.len() - i,
        {
            assert(self@.albums[i as int] == self.albums@[i as int]@);
            if self.albums[i].id == id {
                proof {
                    let row = album_row(self@.albums, id);
                    assert(self@.albums[row].id == id);
                }
                return self.fetch(&self.albums[i].tracks);
            }
            i += 1;
        }
        let none: Vec<Track> = Vec::new();
        assert(text::views(none@) =~= Seq::<TrackView>::empty());
        none
    }
}

/// An album is found by its title, by its artist, and by anything that finds one of its tracks.
pub proof fn lemma_album_found(
    tracks: Seq<TrackView>,
    album: AlbumRowView,
    filter: Seq<char>,
    before: Seq<char>,
    found: Seq<char>,
    after: Seq<char>,
    i: int,
)
    requires
        !before.contains('\0'),
        text::ascii_lower_text(found) == text::ascii_lower_text(text::trimmed(filter)),
    ensures
        album.title == before + found + after ==> album_fits(tracks, album, db::sought(Some(filter))),
        album.artist == before + found + after ==> album_fits(
            tracks,
            album,
            db::sought(Some(filter)),
        ),
        0 <= i < album.tracks.len() && db::track_fits(
            tracks[db::row_of(tracks, album.tracks[i])],
            db::sought(Some(filter)),
        ) ==> album_fits(tracks, album, db::sought(Some(filter))),
        album_fits(tracks, album, db::sought(None)),
{
    like::lemma_found_in_any_case(text::trimmed(filter), before, found, after);
}

/// An album that is found by plain words has them in its title or its artist, or has a track that is
/// found by them.
pub proof fn lemma_album_found_only(tracks: Seq<TrackView>, album: AlbumRowView, filter: Seq<char>)
    requires
        !text::trimmed(filter).contains('%'),
        !text::trimmed(filter).contains('_'),
        !text::trimmed(filter).contains('\0'),
        text::trimmed(filter).len() > 0,
        album_fits(tracks, album, db::sought(Some(filter))),
    ensures
        ({
            let words = text::ascii_lower_text(text::trimmed(filter));
            ||| text::occurs_in(text::ascii_lower_text(album.title), words)
            ||| text::occurs_in(text::ascii_lower_text(album.artist), words)
            ||| exists|i: int|
                0 <= i < album.tracks.len() && db::track_fits(
                    tracks[db::row_of(tracks, #[trigger] album.tracks[i])],
                    db::sought(Some(filter)),
                )
        }),
{
    let words = text::trimmed(filter);
    if like::like(like::holding(words), album.title) {
        like::lemma_found_only_where_held(words, album.title);
    } else if like::like(like::holding(words), album.artist) {
        like::lemma_found_only_where_held(words, album.artist);
    }
}

/// A stored album says what its draft said, and every album from another source stays as it was; one
/// from the same source keeps its identifier, and a new one gets an identifier greater than all.
pub proof fn lemma_album_as_told(
    view: LibraryView,
    album: AlbumDraftView,
    drafts: Seq<TrackDraftView>,
)
    requires
        view.well_formed(),
        album_fault(view, album, drafts) is None,
    ensures
        ({
            let after = album_stored(view, album, drafts);
            let id = album_id(view.albums, album);
            let row = after.albums[album_row(after.albums, id)];
            &&& row.id == id
            &&& row.title == album.title
            &&& row.artist == album.artist
            &&& row.provider == album.provider
            &&& row.source_id == album.source_id
            &&& row.tracks.len() == drafts.len()
            &&& forall|i: int|
                0 <= i < view.albums.len() && !((#[trigger] view.albums[i]).provider
                    == album.provider && view.albums[i].source_id == album.source_id)
                    ==> after.albums[i] == view.albums[i] && view.albums[i].id != id
            &&& forall|i: int|
                0 <= i < view.albums.len() && (#[trigger] view.albums[i]).provider
                    == album.provider && view.albums[i].source_id == album.source_id ==> id
                    == view.albums[i].id && after.albums.len() == view.albums.len()
            &&& after.playlists == view.playlists
            &&& after.queue == view.queue
            &&& after.roots == view.roots
            &&& after.jobs == view.jobs
        }),
{
    let after = album_stored(view, album, drafts);
    let id = album_id(view.albums, album);
    let at = album_source_row(view.albums, album.provider, album.source_id);
    lemma_album_source_row(view.albums, album.provider, album.source_id);
    lemma_album_whole(view, album, drafts);
    assert(after.albums[at].id == id);
    let found = album_row(after.albums, id);
    assert(after.albums[found].id == id);
    assert(found == at) by {
        if found < at {
            assert(after.albums[found].id < after.albums[at].id);
        }
        if at < found {
            assert(after.albums[at].id < after.albums[found].id);
        }
    }
    assert forall|i: int| 0 <= i < view.albums.len() && !((#[trigger] view.albums[i]).provider
        == album.provider && view.albums[i].source_id == album.source_id) implies after.albums[i]
        == view.albums[i] && view.albums[i].id != id by {
        assert(i != at);
        assert(after.albums[i] == view.albums[i]);
        if i < at {
            assert(after.albums[i].id < after.albums[at].id);
        } else {
            assert(after.albums[at].id < after.albums[i].id);
        }
    }
    assert forall|i: int| 0 <= i < view.albums.len() && (#[trigger] view.albums[i]).provider
        == album.provider && view.albums[i].source_id == album.source_id implies id
        == view.albums[i].id && after.albums.len() == view.albums.len() by {
        if at < i {
            assert(view.albums[at].provider == album.provider);
        }
        assert(i == at);
    }
}

/// The available tracks of an album are counted one by one: each counts exactly where it has its
/// file.
pub proof fn lemma_available_counted(tracks: Seq<TrackView>, ids: Seq<i64>, id: i64)
    ensures
        available_count(tracks, Seq::empty()) == 0,
        available_count(tracks, ids.push(id)) == available_count(tracks, ids) + if tracks[db::row_of(
            tracks,
            id,
        )].available {
            1nat
        } else {
            0
        },
        available_count(tracks, ids) <= ids.len(),
    decreases ids.len(),
{
    assert(ids.push(id).drop_last() =~= ids);
    if ids.len() > 0 {
        lemma_available_counted(tracks, ids.drop_last(), ids.last());
        assert(ids.drop_last().push(ids.last()) =~= ids);
    }
}

/// What is shown of an album is what is stored of it, with the number of its tracks and of those
/// that have their file.
pub proof fn lemma_albums_shown(view: LibraryView, i: int)
    requires
        0 <= i < view.albums.len(),
        view.albums[i].tracks.len() <= u64::MAX,
    ensures
        ({
            let (line, album) = (album_lines(view)[i], view.albums[i]);
            &&& line.id == album.id
            &&& line.title == album.title
            &&& line.artist == album.artist
            &&& line.provider == album.provider
            &&& line.source_id == album.source_id
            &&& line.track_count == album.tracks.len()
            &&& line.available_count == available_count(view.tracks, album.tracks)
            &&& line.available_count <= line.track_count
        }),
        album_keys(view.albums)[i] == order::folded(view.albums[i].artist, view.albums[i].title),
{
    lemma_available_counted(view.tracks, view.albums[i].tracks, 0);
}

} // verus!
