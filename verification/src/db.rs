//! The library's catalogue: tracks, albums, playlists, the queue and the jobs.

use vstd::prelude::*;

pub mod albums;
pub mod import;
pub mod playlists;
pub mod records;

use crate::like;
use crate::model::Track;
use crate::model::TrackDraft;
use crate::model::TrackDraftView;
use crate::model::TrackView;
use crate::order;
use crate::order::Key;
use crate::order::KeyView;
use crate::scan;
use crate::text;

verus! {

/// The most files that one import may bring.
pub const MAX_IMPORT_FILES: usize = 100000;

/// The most tracks that one query may yield.
pub const MAX_QUERY_TRACKS: usize = 5000;

/// A playlist: its tracks by their identifiers, in order.
#[derive(PartialEq, Eq, Debug)]
pub struct PlaylistRow {
    pub id: i64,
    pub name: String,
    pub tracks: Vec<i64>,
}

/// The view of a [`PlaylistRow`].
#[verifier::ext_equal]
pub struct PlaylistRowView {
    pub id: i64,
    pub name: Seq<char>,
    pub tracks: Seq<i64>,
}

impl View for PlaylistRow {
    type V = PlaylistRowView;

    open spec fn view(&self) -> PlaylistRowView {
        PlaylistRowView { id: self.id, name: self.name@, tracks: self.tracks@ }
    }
}

/// An album: its tracks by their identifiers, in order.
#[derive(PartialEq, Eq, Debug)]
pub struct AlbumRow {
    pub id: i64,
    pub provider: String,
    pub source_id: String,
    pub title: String,
    pub artist: String,
    pub tracks: Vec<i64>,
}

/// The view of an [`AlbumRow`].
#[verifier::ext_equal]
pub struct AlbumRowView {
    pub id: i64,
    pub provider: Seq<char>,
    pub source_id: Seq<char>,
    pub title: Seq<char>,
    pub artist: Seq<char>,
    pub tracks: Seq<i64>,
}

impl View for AlbumRow {
    type V = AlbumRowView;

    open spec fn view(&self) -> AlbumRowView {
        AlbumRowView {
            id: self.id,
            provider: self.provider@,
            source_id: self.source_id@,
            title: self.title@,
            artist: self.artist@,
            tracks: self.tracks@,
        }
    }
}

/// The last known state of a download job.
#[derive(PartialEq, Eq, Debug)]
pub struct JobRow {
    pub job_id: String,
    pub title: String,
    pub state: String,
    pub error: Option<String>,
}

/// The view of a [`JobRow`].
#[verifier::ext_equal]
pub struct JobRowView {
    pub job_id: Seq<char>,
    pub title: Seq<char>,
    pub state: Seq<char>,
    pub error: Option<Seq<char>>,
}

impl View for JobRow {
    type V = JobRowView;

    open spec fn view(&self) -> JobRowView {
        JobRowView {
            job_id: self.job_id@,
            title: self.title@,
            state: self.state@,
            error: text::shown(self.error),
        }
    }
}

/// The catalogue.
pub struct LibraryDb {
    tracks: Vec<Track>,
    playlists: Vec<PlaylistRow>,
    albums: Vec<AlbumRow>,
    queue: Vec<i64>,
    roots: Vec<String>,
    jobs: Vec<JobRow>,
}

/// The view of a [`LibraryDb`].
#[verifier::ext_equal]
pub struct LibraryView {
    pub tracks: Seq<TrackView>,
    pub playlists: Seq<PlaylistRowView>,
    pub albums: Seq<AlbumRowView>,
    pub queue: Seq<i64>,
    pub roots: Seq<Seq<char>>,
    pub jobs: Seq<JobRowView>,
}

impl View for LibraryDb {
    type V = LibraryView;

    closed spec fn view(&self) -> LibraryView {
        LibraryView {
            tracks: text::views(self.tracks@),
            playlists: text::views(self.playlists@),
            albums: text::views(self.albums@),
            queue: self.queue@,
            roots: text::views(self.roots@),
            jobs: text::views(self.jobs@),
        }
    }
}

/// Whether the identifiers of tracks grow from row to row, from one on.
pub open spec fn growing_tracks(tracks: Seq<TrackView>) -> bool {
    &&& forall|i: int| 0 <= i < tracks.len() ==> (#[trigger] tracks[i]).id > 0
    &&& forall|i: int, j: int|
        0 <= i < j < tracks.len() ==> (#[trigger] tracks[i]).id < (#[trigger] tracks[j]).id
}

/// Whether no two tracks lie at the same path.
pub open spec fn distinct_paths(tracks: Seq<TrackView>) -> bool {
    forall|i: int, j: int|
        0 <= i < j < tracks.len() ==> (#[trigger] tracks[i]).path != (#[trigger] tracks[j]).path
}

/// Whether no two tracks come from the same source.
pub open spec fn distinct_sources(tracks: Seq<TrackView>) -> bool {
    forall|i: int, j: int|
        0 <= i < j < tracks.len() && (#[trigger] tracks[i]).provider is Some && tracks[i].source_id
            is Some ==> !(tracks[i].provider == (#[trigger] tracks[j]).provider
            && tracks[i].source_id == tracks[j].source_id)
}

/// Whether no two playlists have the same name.
pub open spec fn distinct_names(playlists: Seq<PlaylistRowView>) -> bool {
    forall|i: int, j: int|
        0 <= i < j < playlists.len() ==> (#[trigger] playlists[i]).name != (
        #[trigger] playlists[j]).name
}

/// Whether no two albums come from the same source.
pub open spec fn distinct_albums(albums: Seq<AlbumRowView>) -> bool {
    forall|i: int, j: int|
        0 <= i < j < albums.len() ==> !((#[trigger] albums[i]).provider == (
        #[trigger] albums[j]).provider && albums[i].source_id == albums[j].source_id)
}

/// Whether no text is listed twice.
pub open spec fn distinct_texts(list: Seq<Seq<char>>) -> bool {
    forall|i: int, j: int| 0 <= i < j < list.len() ==> #[trigger] list[i] != #[trigger] list[j]
}

/// Whether no job is listed twice.
pub open spec fn distinct_jobs(jobs: Seq<JobRowView>) -> bool {
    forall|i: int, j: int|
        0 <= i < j < jobs.len() ==> (#[trigger] jobs[i]).job_id != (#[trigger] jobs[j]).job_id
}

/// Whether there is a track with this identifier.
pub open spec fn known(tracks: Seq<TrackView>, id: i64) -> bool {
    exists|i: int| 0 <= i < tracks.len() && (#[trigger] tracks[i]).id == id
}

/// The row of the track with this identifier.
pub open spec fn row_of(tracks: Seq<TrackView>, id: i64) -> int {
    choose|i: int| 0 <= i < tracks.len() && (#[trigger] tracks[i]).id == id
}

/// Whether every identifier of a list belongs to a track.
pub open spec fn all_known(tracks: Seq<TrackView>, ids: Seq<i64>) -> bool {
    forall|i: int| 0 <= i < ids.len() ==> known(tracks, #[trigger] ids[i])
}

/// The tracks that a list of identifiers names, in its order.
pub open spec fn named(tracks: Seq<TrackView>, ids: Seq<i64>) -> Seq<TrackView> {
    Seq::new(ids.len(), |i: int| tracks[row_of(tracks, ids[i])])
}

impl LibraryView {
    /// Whether identifiers grow, what has to differ does, and every reference leads to a track.
    pub open spec fn well_formed(self) -> bool {
        &&& growing_tracks(self.tracks)
        &&& distinct_paths(self.tracks)
        &&& distinct_sources(self.tracks)
        &&& distinct_names(self.playlists)
        &&& distinct_albums(self.albums)
        &&& distinct_texts(self.roots)
        &&& distinct_jobs(self.jobs)
        &&& forall|i: int| 0 <= i < self.playlists.len() ==> (#[trigger] self.playlists[i]).id > 0
        &&& forall|i: int, j: int|
            0 <= i < j < self.playlists.len() ==> (#[trigger] self.playlists[i]).id < (
            #[trigger] self.playlists[j]).id
        &&& forall|i: int|
            0 <= i < self.playlists.len() ==> all_known(
                self.tracks,
                (#[trigger] self.playlists[i]).tracks,
            )
        &&& forall|i: int| 0 <= i < self.albums.len() ==> (#[trigger] self.albums[i]).id > 0
        &&& forall|i: int, j: int|
            0 <= i < j < self.albums.len() ==> (#[trigger] self.albums[i]).id < (
            #[trigger] self.albums[j]).id
        &&& forall|i: int|
            0 <= i < self.albums.len() ==> all_known(
                self.tracks,
                (#[trigger] self.albums[i]).tracks,
            )
        &&& all_known(self.tracks, self.queue)
    }
}

/// The row of the track at a path, or the number of rows.
pub open spec fn path_row(tracks: Seq<TrackView>, path: Seq<char>) -> int
    decreases tracks.len(),
{
    if tracks.len() == 0 || tracks[0].path == path {
        0
    } else {
        1 + path_row(tracks.skip(1), path)
    }
}

/// Whether another track comes from the source of a draft.
pub open spec fn source_taken(tracks: Seq<TrackView>, draft: TrackDraftView) -> bool {
    exists|i: int|
        0 <= i < tracks.len() && (#[trigger] tracks[i]).path != draft.path && draft.provider is Some
            && draft.source_id is Some && tracks[i].provider == draft.provider
            && tracks[i].source_id == draft.source_id
}

/// The identifier of the next new track.
pub open spec fn next_track_id(tracks: Seq<TrackView>) -> int {
    if tracks.len() == 0 {
        1
    } else {
        tracks.last().id + 1
    }
}

/// Why a draft cannot be stored, if it cannot: its duration is too long for the catalogue, its
/// source belongs to a track at another path, or no identifier is left.
pub open spec fn upsert_fault(tracks: Seq<TrackView>, draft: TrackDraftView) -> Option<Seq<char>> {
    if draft.duration_seconds matches Some(duration) && duration > i64::MAX {
        Some("out of range integral type conversion attempted: out of range integral type conversion attempted"@)
    } else if source_taken(tracks, draft) {
        Some("UNIQUE constraint failed: tracks.provider, tracks.source_id: Error code 2067: A UNIQUE constraint failed"@)
    } else if path_row(tracks, draft.path) >= tracks.len() && next_track_id(tracks) > i64::MAX {
        Some("database or disk is full: Error code 13: Insertion failed because database is full"@)
    } else {
        None
    }
}

/// The row that a draft becomes.
pub open spec fn row_from(draft: TrackDraftView, id: i64) -> TrackView {
    TrackView {
        id,
        provider: draft.provider,
        source_id: draft.source_id,
        title: draft.title,
        artist: draft.artist,
        album: draft.album,
        path: draft.path,
        duration_seconds: draft.duration_seconds,
        available: true,
        imported: draft.imported,
    }
}

/// The identifier under which a draft is stored.
pub open spec fn upserted_id(tracks: Seq<TrackView>, draft: TrackDraftView) -> i64 {
    let at = path_row(tracks, draft.path);
    if at < tracks.len() {
        tracks[at].id
    } else {
        next_track_id(tracks) as i64
    }
}

/// The tracks once a draft is stored: in the row of its path where there is one, and else in a
/// new row.
pub open spec fn upserted(tracks: Seq<TrackView>, draft: TrackDraftView) -> Seq<TrackView> {
    let at = path_row(tracks, draft.path);
    let row = row_from(draft, upserted_id(tracks, draft));
    if at < tracks.len() {
        tracks.update(at, row)
    } else {
        tracks.push(row)
    }
}

proof fn lemma_path_row(tracks: Seq<TrackView>, path: Seq<char>)
    ensures
        0 <= path_row(tracks, path) <= tracks.len(),
        path_row(tracks, path) < tracks.len() ==> tracks[path_row(tracks, path)].path == path,
        forall|i: int| 0 <= i < path_row(tracks, path) ==> (#[trigger] tracks[i]).path != path,
    decreases tracks.len(),
{
    if tracks.len() > 0 && tracks[0].path != path {
        lemma_path_row(tracks.skip(1), path);
        assert forall|i: int| 0 <= i < path_row(tracks, path) implies (#[trigger] tracks[i]).path
            != path by {
            if i > 0 {
                assert(tracks[i] == tracks.skip(1)[i - 1]);
            }
        }
    }
}

proof fn lemma_path_row_is(tracks: Seq<TrackView>, path: Seq<char>, at: int)
    requires
        0 <= at <= tracks.len(),
        forall|i: int| 0 <= i < at ==> (#[trigger] tracks[i]).path != path,
        at < tracks.len() ==> tracks[at].path == path,
    ensures
        path_row(tracks, path) == at,
{
    lemma_path_row(tracks, path);
}

/// Storing a draft keeps the identifiers of all tracks, their growth and the difference of their
/// paths.
pub proof fn lemma_upsert_keeps(tracks: Seq<TrackView>, draft: TrackDraftView)
    requires
        growing_tracks(tracks),
        distinct_paths(tracks),
        upsert_fault(tracks, draft) is None,
    ensures
        growing_tracks(upserted(tracks, draft)),
        distinct_paths(upserted(tracks, draft)),
        tracks.len() <= upserted(tracks, draft).len() <= tracks.len() + 1,
        forall|i: int|
            0 <= i < tracks.len() ==> (#[trigger] upserted(tracks, draft)[i]).id == tracks[i].id
                && upserted(tracks, draft)[i].path == tracks[i].path,
        forall|id: i64| known(tracks, id) ==> #[trigger] known(upserted(tracks, draft), id),
        known(upserted(tracks, draft), upserted_id(tracks, draft)),
        path_row(upserted(tracks, draft), draft.path) == path_row(tracks, draft.path),
        distinct_sources(tracks) ==> distinct_sources(upserted(tracks, draft)),
{
    let after = upserted(tracks, draft);
    let at = path_row(tracks, draft.path);
    lemma_path_row(tracks, draft.path);
    assert(after[at].id == upserted_id(tracks, draft));
    assert forall|id: i64| known(tracks, id) implies #[trigger] known(after, id) by {
        let i = row_of(tracks, id);
        assert(after[i].id == id);
    }
    assert forall|i: int, j: int| 0 <= i < j < after.len() implies (#[trigger] after[i]).path != (
    #[trigger] after[j]).path by {
        if j == at {
            assert(tracks[i].path != draft.path);
        } else if i == at {
            assert(tracks[at].path != tracks[j].path);
        } else {
            assert(tracks[i].path != tracks[j].path);
        }
    }
    assert forall|i: int| 0 <= i < at implies (#[trigger] after[i]).path != draft.path by {
        assert(after[i] == tracks[i]);
    }
    lemma_path_row_is(after, draft.path, at);
    if distinct_sources(tracks) {
        assert forall|i: int, j: int|
            0 <= i < j < after.len() && (#[trigger] after[i]).provider is Some && after[i].source_id
                is Some implies !(after[i].provider == (#[trigger] after[j]).provider
            && after[i].source_id == after[j].source_id) by {
            if i == at {
                assert(tracks[j].path != draft.path);
            } else if j == at {
                assert(tracks[i].path != draft.path);
            } else {
                assert(after[i] == tracks[i] && after[j] == tracks[j]);
            }
        }
    }
}

/// Storing a draft again changes nothing more and yields the same identifier.
pub proof fn lemma_upsert_again(tracks: Seq<TrackView>, draft: TrackDraftView)
    requires
        growing_tracks(tracks),
        distinct_paths(tracks),
        upsert_fault(tracks, draft) is None,
    ensures
        upsert_fault(upserted(tracks, draft), draft) is None,
        upserted(upserted(tracks, draft), draft) == upserted(tracks, draft),
        upserted_id(upserted(tracks, draft), draft) == upserted_id(tracks, draft),
{
    let after = upserted(tracks, draft);
    let at = path_row(tracks, draft.path);
    lemma_path_row(tracks, draft.path);
    lemma_upsert_keeps(tracks, draft);
    if source_taken(after, draft) {
        let i = choose|i: int|
            0 <= i < after.len() && (#[trigger] after[i]).path != draft.path && draft.provider
                is Some && draft.source_id is Some && after[i].provider == draft.provider
                && after[i].source_id == draft.source_id;
        assert(after[i] == tracks[i]);
        assert(source_taken(tracks, draft));
    }
    assert(upserted(after, draft) =~= after);
}

/// What is sought: a filter of spaces only seeks everything.
pub open spec fn sought(filter: Option<Seq<char>>) -> Option<Seq<char>> {
    match filter {
        Some(value) => if text::trimmed(value).len() == 0 {
            None
        } else {
            Some(like::holding(text::trimmed(value)))
        },
        None => None,
    }
}

/// What an optional pattern holds.
spec fn shown_pattern(pattern: Option<Vec<char>>) -> Option<Seq<char>> {
    match pattern {
        Some(p) => Some(p@),
        None => None,
    }
}

fn pattern_of(filter: Option<&str>) -> (result: Option<Vec<char>>)
    ensures
        match result {
            Some(pattern) => sought(text::seen(filter)) == Some(pattern@),
            None => sought(text::seen(filter)) is None,
        },
{
    match filter {
        Some(value) => {
            let words = text::trim(value);
            if words.is_empty() {
                None
            } else {
                Some(like::holding_pattern(words))
            }
        },
        None => None,
    }
}

/// The longest pattern that a row is held against, in bytes of UTF-8.
pub const MAX_PATTERN_BYTES: u128 = 50_000;

/// Whether a pattern is too long for the rows that it would be held against.
pub open spec fn pattern_refused(
    tracks: Seq<TrackView>,
    pattern: Option<Seq<char>>,
    limit: nat,
) -> bool {
    tracks.len() > 0 && limit > 0 && match pattern {
        Some(p) => scan::byte_length(p) > MAX_PATTERN_BYTES,
        None => false,
    }
}

/// Whether a track is what is sought: by its title, its artist or its album.
pub open spec fn track_fits(track: TrackView, pattern: Option<Seq<char>>) -> bool {
    match pattern {
        None => true,
        Some(p) => like::like(p, track.title) || like::like(p, track.artist) || match track.album {
            Some(album) => like::like(p, album),
            None => false,
        },
    }
}

fn text_fits(pattern: &Vec<char>, value: &str) -> (result: bool)
    ensures
        result == like::like(pattern@, value@),
{
    like::is_like(pattern, &text::chars_of(value))
}

fn is_sought(track: &Track, pattern: &Option<Vec<char>>) -> (result: bool)
    ensures
        result == track_fits(
            track@,
            shown_pattern(*pattern),
        ),
{
    match pattern {
        None => true,
        Some(p) => text_fits(p, track.title.as_str()) || text_fits(p, track.artist.as_str())
            || match &track.album {
            Some(album) => text_fits(p, album.as_str()),
            None => false,
        },
    }
}

/// What tracks are ordered by: their artists, then their titles.
pub open spec fn track_keys(tracks: Seq<TrackView>) -> Seq<KeyView> {
    Seq::new(tracks.len(), |i: int| order::folded(tracks[i].artist, tracks[i].title))
}

/// The page of the kept rows in their order.
pub open spec fn listed<T>(
    rows: Seq<T>,
    keys: Seq<KeyView>,
    keep: Seq<bool>,
    limit: nat,
    offset: nat,
) -> Seq<T> {
    picked(rows, order::page(order::listing_of(keys, keep), limit, offset))
}

/// The rows at the given places.
pub open spec fn picked<T>(rows: Seq<T>, places: Seq<int>) -> Seq<T> {
    Seq::new(places.len(), |i: int| rows[places[i]])
}

/// The most rows that a query yields.
pub open spec fn query_limit(limit: nat) -> nat {
    if limit > MAX_QUERY_TRACKS {
        MAX_QUERY_TRACKS as nat
    } else {
        limit
    }
}

/// Which tracks are sought.
pub open spec fn kept_tracks(tracks: Seq<TrackView>, pattern: Option<Seq<char>>) -> Seq<bool> {
    Seq::new(tracks.len(), |i: int| track_fits(tracks[i], pattern))
}

/// Whether a track belongs to an album.
pub open spec fn in_some_album(albums: Seq<AlbumRowView>, id: i64) -> bool {
    exists|i: int| 0 <= i < albums.len() && (#[trigger] albums[i]).tracks.contains(id)
}

/// Which tracks are sought among those without an album.
pub open spec fn kept_standalone(view: LibraryView, pattern: Option<Seq<char>>) -> Seq<bool> {
    Seq::new(
        view.tracks.len(),
        |i: int|
            track_fits(view.tracks[i], pattern) && !in_some_album(view.albums, view.tracks[i].id),
    )
}

fn holds_id(ids: &Vec<i64>, id: i64) -> (result: bool)
    ensures
        result == ids@.contains(id),
{
    let mut i: usize = 0;
    while i < ids.len()
        invariant
            i <= ids@.len(),
            forall|k: int| 0 <= k < i ==> ids@[k] != id,
        decreases ids@.len() - i,
    {
        if ids[i] == id {
            return true;
        }
        i += 1;
    }
    false
}

fn copied_ids(ids: &Vec<i64>) -> (result: Vec<i64>)
    ensures
        result@ == ids@,
{
    let mut result: Vec<i64> = Vec::new();
    let mut i: usize = 0;
    while i < ids.len()
        invariant
            i <= ids@.len(),
            result@ == ids@.take(i as int),
        decreases ids@.len() - i,
    {
        result.push(ids[i]);
        assert(ids@.take(i + 1) =~= ids@.take(i as int).push(ids@[i as int]));
        i += 1;
    }
    assert(ids@.take(ids@.len() as int) =~= ids@);
    result
}

/// Where a page begins and ends.
fn page_bounds(length: usize, limit: usize, offset: usize) -> (result: (usize, usize))
    ensures
        result.0 <= result.1 <= length,
        forall|list: Seq<int>|
            list.len() == length ==> #[trigger] order::page(list, limit as nat, offset as nat)
                == list.subrange(result.0 as int, result.1 as int),
{
    let from: usize = if offset > length {
        length
    } else {
        offset
    };
    let to: usize = if limit > length - from {
        length
    } else {
        from + limit
    };
    assert forall|list: Seq<int>| list.len() == length implies #[trigger] order::page(
        list,
        limit as nat,
        offset as nat,
    ) == list.subrange(from as int, to as int) by {
        assert(order::page(list, limit as nat, offset as nat) =~= list.subrange(
            from as int,
            to as int,
        ));
    }
    (from, to)
}

impl LibraryDb {
    /// An empty catalogue.
    pub fn in_memory() -> (result: Self)
        ensures
            result@.well_formed(),
            result@ == (LibraryView {
                tracks: Seq::empty(),
                playlists: Seq::empty(),
                albums: Seq::empty(),
                queue: Seq::empty(),
                roots: Seq::empty(),
                jobs: Seq::empty(),
            }),
    {
        let db = LibraryDb {
            tracks: Vec::new(),
            playlists: Vec::new(),
            albums: Vec::new(),
            queue: Vec::new(),
            roots: Vec::new(),
            jobs: Vec::new(),
        };
        assert(db@ =~= (LibraryView {
            tracks: Seq::empty(),
            playlists: Seq::empty(),
            albums: Seq::empty(),
            queue: Seq::empty(),
            roots: Seq::empty(),
            jobs: Seq::empty(),
        }));
        db
    }

    fn find_path(&self, path: &str) -> (result: usize)
        ensures
            result == path_row(self@.tracks, path@),
            result <= self.tracks@.len(),
    {
        let mut i: usize = 0;
        while i < self.tracks.len()
            invariant
                i <= self.tracks@.len(),
                forall|k: int| 0 <= k < i ==> (#[trigger] self@.tracks[k]).path != path@,
            decreases self.tracks@.len() - i,
        {
            assert(self@.tracks[i as int] == self.tracks@[i as int]@);
            if text::same_text(self.tracks[i].path.as_str(), path) {
                proof {
                    lemma_path_row_is(self@.tracks, path@, i as int);
                }
                return i;
            }
            i += 1;
        }
        proof {
            lemma_path_row_is(self@.tracks, path@, i as int);
        }
        i
    }

    fn taken_source(&self, draft: &TrackDraft) -> (result: bool)
        ensures
            result == source_taken(self@.tracks, draft@),
    {
        if draft.provider.is_none() || draft.source_id.is_none() {
            return false;
        }
        let mut i: usize = 0;
        while i < self.tracks.len()
            invariant
                draft.provider is Some,
                draft.source_id is Some,
                i <= self.tracks@.len(),
                forall|k: int|
                    0 <= k < i ==> !((#[trigger] self@.tracks[k]).path != draft@.path
                        && self@.tracks[k].provider == draft@.provider && self@.tracks[k].source_id
                        == draft@.source_id),
            decreases self.tracks@.len() - i,
        {
            assert(self@.tracks[i as int] == self.tracks@[i as int]@);
            if text::same_option(&self.tracks[i].source_id, &draft.source_id)
                && text::same_option(&self.tracks[i].provider, &draft.provider)
                && !text::same_text(self.tracks[i].path.as_str(), draft.path.as_str()) {
                return true;
            }
            i += 1;
        }
        false
    }

    /// Stores a draft and gives its row.
    fn put(&mut self, draft: &TrackDraft) -> (result: Result<usize, String>)
        requires
            growing_tracks(old(self)@.tracks),
        ensures
            match result {
                Ok(at) => upsert_fault(old(self)@.tracks, draft@) is None && final(self)@ == (
                LibraryView { tracks: upserted(old(self)@.tracks, draft@), ..old(self)@ }) && at
                    == path_row(old(self)@.tracks, draft@.path) && final(self)@.tracks[at as int].id
                    == upserted_id(old(self)@.tracks, draft@) && at < final(self)@.tracks.len(),
                Err(message) => upsert_fault(old(self)@.tracks, draft@) == Some(message@) && final(
                    self)@ == old(self)@,
            },
    {
        let at: usize = self.find_path(draft.path.as_str());
        self.put_at(draft, at)
    }

    /// Stores a draft in the row of its path, which is known, and gives that row.
    fn put_at(&mut self, draft: &TrackDraft, at: usize) -> (result: Result<usize, String>)
        requires
            growing_tracks(old(self)@.tracks),
            at == path_row(old(self)@.tracks, draft@.path),
            at <= old(self)@.tracks.len(),
        ensures
            match result {
                Ok(row) => upsert_fault(old(self)@.tracks, draft@) is None && final(self)@ == (
                LibraryView { tracks: upserted(old(self)@.tracks, draft@), ..old(self)@ }) && row
                    == at && final(self)@.tracks[at as int].id == upserted_id(
                    old(self)@.tracks,
                    draft@,
                ) && at < final(self)@.tracks.len(),
                Err(message) => upsert_fault(old(self)@.tracks, draft@) == Some(message@) && final(
                    self)@ == old(self)@,
            },
    {
        match draft.duration_seconds {
            Some(duration) => {
                if duration > i64::MAX as u64 {
                    return Err("out of range integral type conversion attempted: out of range integral type conversion attempted".to_owned());
                }
            },
            None => {},
        }
        if self.taken_source(draft) {
            return Err("UNIQUE constraint failed: tracks.provider, tracks.source_id: Error code 2067: A UNIQUE constraint failed".to_owned());
        }
        let count: usize = self.tracks.len();
        let id: i64 = if at < count {
            assert(self@.tracks[at as int] == self.tracks@[at as int]@);
            self.tracks[at].id
        } else if count == 0 {
            1
        } else {
            let last: i64 = self.tracks[count - 1].id;
            assert(self@.tracks[count - 1] == self.tracks@[count - 1]@);
            if last == i64::MAX {
                return Err("database or disk is full: Error code 13: Insertion failed because database is full".to_owned());
            }
            last + 1
        };
        let row = Track {
            id,
            provider: text::copied(&draft.provider),
            source_id: text::copied(&draft.source_id),
            title: draft.title.clone(),
            artist: draft.artist.clone(),
            album: text::copied(&draft.album),
            path: draft.path.clone(),
            duration_seconds: draft.duration_seconds,
            available: true,
            imported: draft.imported,
        };
        assert(row@ == row_from(draft@, upserted_id(self@.tracks, draft@)));
        if at < count {
            self.tracks.set(at, row);
        } else {
            self.tracks.push(row);
        }
        assert(self@.tracks =~= upserted(old(self)@.tracks, draft@));
        assert(self@ =~= (LibraryView {
            tracks: upserted(old(self)@.tracks, draft@),
            ..old(self)@
        }));
        Ok(at)
    }

    /// Stores a track and gives its identifier: the one that the track at this path has, and else
    /// a new one.
    pub fn upsert_track(&mut self, draft: &TrackDraft) -> (result: Result<i64, String>)
        requires
            old(self)@.well_formed(),
        ensures
            final(self)@.well_formed(),
            match result {
                Ok(id) => upsert_fault(old(self)@.tracks, draft@) is None && final(self)@ == (
                LibraryView { tracks: upserted(old(self)@.tracks, draft@), ..old(self)@ }) && id
                    == upserted_id(old(self)@.tracks, draft@),
                Err(message) => upsert_fault(old(self)@.tracks, draft@) == Some(message@) && final(
                    self)@ == old(self)@,
            },
    {
        match self.put(draft) {
            Ok(at) => {
                proof {
                    lemma_upsert_keeps(old(self)@.tracks, draft@);
                    lemma_more_known(old(self)@, self@);
                    assert(self@.tracks[at as int] == self.tracks@[at as int]@);
                }
                Ok(self.tracks[at].id)
            },
            Err(message) => Err(message),
        }
    }

    /// The tracks that fit a filter, by artist and title; a filter that is too long is refused.
    pub fn tracks(&self, filter: Option<&str>, limit: usize, offset: usize) -> (result: Result<
        Vec<Track>,
        String,
    >)
        ensures
            match result {
                Ok(rows) => !pattern_refused(
                    self@.tracks,
                    sought(text::seen(filter)),
                    limit as nat,
                ) && text::views(rows@) == listed(
                    self@.tracks,
                    track_keys(self@.tracks),
                    kept_tracks(self@.tracks, sought(text::seen(filter))),
                    query_limit(limit as nat),
                    offset as nat,
                ) && order::is_listing(
                    track_keys(self@.tracks),
                    kept_tracks(self@.tracks, sought(text::seen(filter))),
                    order::listing_of(
                        track_keys(self@.tracks),
                        kept_tracks(self@.tracks, sought(text::seen(filter))),
                    ),
                ),
                Err(message) => pattern_refused(
                    self@.tracks,
                    sought(text::seen(filter)),
                    limit as nat,
                ) && message@
                    == "LIKE or GLOB pattern too complex: Error code 1: SQL error or missing database"@,
            },
    {
        let pattern = pattern_of(filter);
        if let Some(p) = &pattern {
            assert(p@.take(p@.len() as int) =~= p@);
            if !self.tracks.is_empty() && limit > 0 && scan::bytes_before(p, p.len())
                > MAX_PATTERN_BYTES {
                return Err(
                    "LIKE or GLOB pattern too complex: Error code 1: SQL error or missing database".to_owned(),
                );
            }
        }
        let mut keep: Vec<bool> = Vec::new();
        let mut i: usize = 0;
        while i < self.tracks.len()
            invariant
                i <= self.tracks@.len(),
                keep@.len() == i,
                match pattern {
                    Some(p) => sought(text::seen(filter)) == Some(p@),
                    None => sought(text::seen(filter)) is None,
                },
                forall|k: int|
                    0 <= k < i ==> #[trigger] keep@[k] == track_fits(
                        self@.tracks[k],
                        sought(text::seen(filter)),
                    ),
            decreases self.tracks@.len() - i,
        {
            assert(self@.tracks[i as int] == self.tracks@[i as int]@);
            keep.push(is_sought(&self.tracks[i], &pattern));
            i += 1;
        }
        assert(keep@ =~= kept_tracks(self@.tracks, sought(text::seen(filter))));
        Ok(self.show_tracks(&keep, limit, offset))
    }

    /// The tracks that belong to no album and fit a filter, by artist and title.
    pub fn standalone_tracks(&self, filter: Option<&str>, limit: usize, offset: usize) -> (result:
        Vec<Track>)
        ensures
            text::views(result@) == listed(
                self@.tracks,
                track_keys(self@.tracks),
                kept_standalone(self@, sought(text::seen(filter))),
                query_limit(limit as nat),
                offset as nat,
            ),
            order::is_listing(
                track_keys(self@.tracks),
                kept_standalone(self@, sought(text::seen(filter))),
                order::listing_of(track_keys(self@.tracks), kept_standalone(self@, sought(text::seen(filter)))),
            ),
    {
        let pattern = pattern_of(filter);
        let mut keep: Vec<bool> = Vec::new();
        let mut i: usize = 0;
        while i < self.tracks.len()
            invariant
                i <= self.tracks@.len(),
                keep@.len() == i,
                match pattern {
                    Some(p) => sought(text::seen(filter)) == Some(p@),
                    None => sought(text::seen(filter)) is None,
                },
                forall|k: int|
                    0 <= k < i ==> #[trigger] keep@[k] == (track_fits(
                        self@.tracks[k],
                        sought(text::seen(filter)),
                    ) && !in_some_album(self@.albums, self@.tracks[k].id)),
            decreases self.tracks@.len() - i,
        {
            assert(self@.tracks[i as int] == self.tracks@[i as int]@);
            let fit = is_sought(&self.tracks[i], &pattern) && !self.in_album(self.tracks[i].id);
            keep.push(fit);
            i += 1;
        }
        assert(keep@ =~= kept_standalone(self@, sought(text::seen(filter))));
        self.show_tracks(&keep, limit, offset)
    }

    fn in_album(&self, id: i64) -> (result: bool)
        ensures
            result == in_some_album(self@.albums, id),
    {
        let mut i: usize = 0;
        while i < self.albums.len()
            invariant
                i <= self.albums@.len(),
                forall|k: int| 0 <= k < i ==> !(#[trigger] self@.albums[k]).tracks.contains(id),
            decreases self.albums@.len() - i,
        {
            assert(self@.albums[i as int] == self.albums@[i as int]@);
            if holds_id(&self.albums[i].tracks, id) {
                return true;
            }
            i += 1;
        }
        false
    }

    fn show_tracks(&self, keep: &Vec<bool>, limit: usize, offset: usize) -> (result: Vec<Track>)
        requires
            keep@.len() == self@.tracks.len(),
        ensures
            text::views(result@) == listed(
                self@.tracks,
                track_keys(self@.tracks),
                keep@,
                query_limit(limit as nat),
                offset as nat,
            ),
            order::is_listing(
                track_keys(self@.tracks),
                keep@,
                order::listing_of(track_keys(self@.tracks), keep@),
            ),
    {
        let mut keys: Vec<Key> = Vec::new();
        let mut i: usize = 0;
        while i < self.tracks.len()
            invariant
                i <= self.tracks@.len(),
                keys@.len() == i,
                forall|k: int|
                    0 <= k < i ==> (#[trigger] keys@[k])@ == order::folded(
                        self@.tracks[k].artist,
                        self@.tracks[k].title,
                    ),
            decreases self.tracks@.len() - i,
        {
            assert(self@.tracks[i as int] == self.tracks@[i as int]@);
            keys.push(
                order::key_of(self.tracks[i].artist.as_str(), self.tracks[i].title.as_str()),
            );
            i += 1;
        }
        assert(text::views(keys@) =~= track_keys(self@.tracks));
        let places = order::listing(&keys, keep);
        let ghost all = order::positions(places@);
        let most: usize = if limit > MAX_QUERY_TRACKS {
            MAX_QUERY_TRACKS
        } else {
            limit
        };
        let (from, to) = page_bounds(places.len(), most, offset);
        let ghost shown = order::page(all, most as nat, offset as nat);
        let mut result: Vec<Track> = Vec::new();
        let mut k: usize = from;
        while k < to
            invariant
                from <= k <= to <= places@.len(),
                all == order::positions(places@),
                shown == all.subrange(from as int, to as int),
                order::is_listing(track_keys(self@.tracks), keep@, all),
                result@.len() == k - from,
                forall|m: int|
                    0 <= m < k - from ==> (#[trigger] result@[m])@ == self@.tracks[shown[m]],
            decreases to - k,
        {
            let place: usize = places[k];
            assert(all[k as int] == place);
            assert(0 <= all[k as int] < track_keys(self@.tracks).len());
            assert(self@.tracks[place as int] == self.tracks@[place as int]@);
            assert(shown[k - from] == place);
            result.push(self.tracks[place].clone());
            k += 1;
        }
        assert(text::views(result@) =~= picked(self@.tracks, shown));
        result
    }

    fn find_track(&self, id: i64) -> (result: Option<usize>)
        requires
            growing_tracks(self@.tracks),
        ensures
            match result {
                Some(at) => at < self.tracks@.len() && self@.tracks[at as int].id == id && at
                    == row_of(self@.tracks, id) && known(self@.tracks, id),
                None => !known(self@.tracks, id),
            },
    {
        let mut low: usize = 0;
        let mut high: usize = self.tracks.len();
        while low < high
            invariant
                growing_tracks(self@.tracks),
                low <= high <= self.tracks@.len(),
                forall|k: int| 0 <= k < low ==> (#[trigger] self@.tracks[k]).id < id,
                forall|k: int|
                    high <= k < self.tracks@.len() ==> (#[trigger] self@.tracks[k]).id > id,
            decreases high - low,
        {
            let middle: usize = low + (high - low) / 2;
            assert(self@.tracks[middle as int] == self.tracks@[middle as int]@);
            let seen: i64 = self.tracks[middle].id;
            if seen == id {
                proof {
                    let row = row_of(self@.tracks, id);
                    assert(self@.tracks[row].id == id);
                }
                return Some(middle);
            }
            if seen < id {
                low = middle + 1;
            } else {
                high = middle;
            }
        }
        None
    }

    /// The track with this identifier.
    pub fn track(&self, id: i64) -> (result: Option<Track>)
        requires
            self@.well_formed(),
        ensures
            match result {
                Some(track) => known(self@.tracks, id) && track@ == self@.tracks[row_of(
                    self@.tracks,
                    id,
                )] && track@.id == id,
                None => !known(self@.tracks, id),
            },
    {
        match self.find_track(id) {
            Some(at) => {
                assert(self@.tracks[at as int] == self.tracks@[at as int]@);
                Some(self.tracks[at].clone())
            },
            None => None,
        }
    }

    /// How many tracks there are.
    pub fn count_tracks(&self) -> (result: u64)
        ensures
            result == self@.tracks.len(),
    {
        self.tracks.len() as u64
    }

    /// The tracks that a list of identifiers names.
    fn fetch(&self, ids: &Vec<i64>) -> (result: Vec<Track>)
        requires
            growing_tracks(self@.tracks),
            all_known(self@.tracks, ids@),
        ensures
            text::views(result@) == named(self@.tracks, ids@),
    {
        let mut result: Vec<Track> = Vec::new();
        let mut i: usize = 0;
        while i < ids.len()
            invariant
                growing_tracks(self@.tracks),
                all_known(self@.tracks, ids@),
                i <= ids@.len(),
                result@.len() == i,
                forall|k: int|
                    0 <= k < i ==> (#[trigger] result@[k])@ == self@.tracks[row_of(
                        self@.tracks,
                        ids@[k],
                    )],
            decreases ids@.len() - i,
        {
            assert(known(self@.tracks, ids@[i as int]));
            match self.find_track(ids[i]) {
                Some(at) => {
                    assert(self@.tracks[at as int] == self.tracks@[at as int]@);
                    result.push(self.tracks[at].clone());
                },
                None => {},
            }
            i += 1;
        }
        assert(text::views(result@) =~= named(self@.tracks, ids@));
        result
    }

    /// Replaces the queue. A queue that names a track which is not in the library changes nothing.
    pub fn save_queue(&mut self, tracks: &Vec<Track>) -> (result: Result<(), String>)
        requires
            old(self)@.well_formed(),
        ensures
            final(self)@.well_formed(),
            match result {
                Ok(()) => all_known(old(self)@.tracks, track_ids(text::views(tracks@))) && final(
                    self)@ == (LibraryView {
                    queue: track_ids(text::views(tracks@)),
                    ..old(self)@
                }),
                Err(message) => !all_known(old(self)@.tracks, track_ids(text::views(tracks@)))
                    && final(self)@ == old(self)@ && message@ == "FOREIGN KEY constraint failed: Error code 787: Foreign key constraint failed"@,
            },
    {
        let ghost wanted = track_ids(text::views(tracks@));
        let mut ids: Vec<i64> = Vec::new();
        let mut i: usize = 0;
        while i < tracks.len()
            invariant
                *self == *old(self),
                self@.well_formed(),
                wanted == track_ids(text::views(tracks@)),
                i <= tracks@.len(),
                ids@ == wanted.take(i as int),
                all_known(self@.tracks, ids@),
            decreases tracks@.len() - i,
        {
            let id: i64 = tracks[i].id;
            assert(wanted[i as int] == id);
            if self.find_track(id).is_none() {
                assert(!known(self@.tracks, wanted[i as int]));
                return Err("FOREIGN KEY constraint failed: Error code 787: Foreign key constraint failed".to_owned());
            }
            let ghost before = ids@;
            ids.push(id);
            assert(ids@ =~= wanted.take(i + 1));
            assert(all_known(self@.tracks, ids@)) by {
                assert forall|k: int| 0 <= k < ids@.len() implies known(
                    self@.tracks,
                    #[trigger] ids@[k],
                ) by {
                    if k < before.len() {
                        assert(ids@[k] == before[k]);
                    }
                }
            }
            i += 1;
        }
        assert(wanted.take(wanted.len() as int) =~= wanted);
        self.queue = ids;
        assert(self@ =~= (LibraryView { queue: wanted, ..old(self)@ }));
        Ok(())
    }

    /// The tracks of the queue, in order.
    pub fn load_queue(&self) -> (result: Vec<Track>)
        requires
            self@.well_formed(),
        ensures
            text::views(result@) == named(self@.tracks, self@.queue),
    {
        self.fetch(&self.queue)
    }
}

/// The identifiers of tracks.
pub open spec fn track_ids(tracks: Seq<TrackView>) -> Seq<i64> {
    Seq::new(tracks.len(), |i: int| tracks[i].id)
}

/// More tracks keep every reference.
proof fn lemma_more_known(before: LibraryView, after: LibraryView)
    requires
        before.well_formed(),
        growing_tracks(after.tracks),
        distinct_paths(after.tracks),
        distinct_sources(after.tracks),
        forall|id: i64| known(before.tracks, id) ==> #[trigger] known(after.tracks, id),
        after.playlists == before.playlists,
        after.albums == before.albums,
        after.queue == before.queue,
        after.roots == before.roots,
        after.jobs == before.jobs,
    ensures
        after.well_formed(),
{
    assert forall|i: int| 0 <= i < after.playlists.len() implies all_known(
        after.tracks,
        (#[trigger] after.playlists[i]).tracks,
    ) by {
        lemma_list_known(before.tracks, after.tracks, after.playlists[i].tracks);
    }
    assert forall|i: int| 0 <= i < after.albums.len() implies all_known(
        after.tracks,
        (#[trigger] after.albums[i]).tracks,
    ) by {
        lemma_list_known(before.tracks, after.tracks, after.albums[i].tracks);
    }
    lemma_list_known(before.tracks, after.tracks, after.queue);
}

proof fn lemma_list_known(before: Seq<TrackView>, after: Seq<TrackView>, ids: Seq<i64>)
    requires
        all_known(before, ids),
        forall|id: i64| known(before, id) ==> #[trigger] known(after, id),
    ensures
        all_known(after, ids),
{
    assert forall|i: int| 0 <= i < ids.len() implies known(after, #[trigger] ids[i]) by {
        assert(known(before, ids[i]));
    }
}

/// What is saved as the queue is what is loaded: the same tracks in the same order, as the library
/// knows them.
pub proof fn lemma_queue_kept(view: LibraryView, ids: Seq<i64>)
    requires
        growing_tracks(view.tracks),
        all_known(view.tracks, ids),
    ensures
        track_ids(named(view.tracks, ids)) == ids,
{
    assert forall|i: int| 0 <= i < ids.len() implies #[trigger] track_ids(
        named(view.tracks, ids),
    )[i] == ids[i] by {
        assert(known(view.tracks, ids[i]));
        let row = row_of(view.tracks, ids[i]);
        assert(view.tracks[row].id == ids[i]);
    }
    assert(track_ids(named(view.tracks, ids)) =~= ids);
}

/// Every row is kept.
pub open spec fn everything(count: nat) -> Seq<bool> {
    Seq::new(count, |i: int| true)
}

/// The same library with other tracks.
pub open spec fn with_tracks(view: LibraryView, tracks: Seq<TrackView>) -> LibraryView {
    LibraryView { tracks, ..view }
}

/// Why a list of drafts cannot be stored, if it cannot: the first fault met on the way.
pub open spec fn drafts_fault(tracks: Seq<TrackView>, drafts: Seq<TrackDraftView>) -> Option<
    Seq<char>,
>
    decreases drafts.len(),
{
    if drafts.len() == 0 {
        None
    } else {
        match drafts_fault(tracks, drafts.drop_last()) {
            Some(message) => Some(message),
            None => upsert_fault(all_upserted(tracks, drafts.drop_last()), drafts.last()),
        }
    }
}

/// The tracks once a list of drafts is stored, one after the other.
pub open spec fn all_upserted(tracks: Seq<TrackView>, drafts: Seq<TrackDraftView>) -> Seq<
    TrackView,
>
    decreases drafts.len(),
{
    if drafts.len() == 0 {
        tracks
    } else {
        upserted(all_upserted(tracks, drafts.drop_last()), drafts.last())
    }
}

/// The identifiers under which a list of drafts is stored.
pub open spec fn upserted_ids(tracks: Seq<TrackView>, drafts: Seq<TrackDraftView>) -> Seq<i64>
    decreases drafts.len(),
{
    if drafts.len() == 0 {
        Seq::empty()
    } else {
        upserted_ids(tracks, drafts.drop_last()).push(
            upserted_id(all_upserted(tracks, drafts.drop_last()), drafts.last()),
        )
    }
}

proof fn lemma_drafts_keep(tracks: Seq<TrackView>, drafts: Seq<TrackDraftView>)
    requires
        growing_tracks(tracks),
        distinct_paths(tracks),
        drafts_fault(tracks, drafts) is None,
    ensures
        growing_tracks(all_upserted(tracks, drafts)),
        distinct_paths(all_upserted(tracks, drafts)),
        distinct_sources(tracks) ==> distinct_sources(all_upserted(tracks, drafts)),
        forall|id: i64| known(tracks, id) ==> #[trigger] known(all_upserted(tracks, drafts), id),
        all_known(all_upserted(tracks, drafts), upserted_ids(tracks, drafts)),
    decreases drafts.len(),
{
    if drafts.len() > 0 {
        let before = all_upserted(tracks, drafts.drop_last());
        lemma_drafts_keep(tracks, drafts.drop_last());
        lemma_upsert_keeps(before, drafts.last());
        lemma_list_known(
            before,
            all_upserted(tracks, drafts),
            upserted_ids(tracks, drafts.drop_last()),
        );
        let ids = upserted_ids(tracks, drafts);
        assert forall|i: int| 0 <= i < ids.len() implies known(
            all_upserted(tracks, drafts),
            #[trigger] ids[i],
        ) by {
            if i < ids.len() - 1 {
                assert(ids[i] == upserted_ids(tracks, drafts.drop_last())[i]);
            }
        }
    }
}

proof fn lemma_fault_stays(tracks: Seq<TrackView>, drafts: Seq<TrackDraftView>, n: int)
    requires
        0 <= n <= drafts.len(),
        drafts_fault(tracks, drafts.take(n)) is Some,
    ensures
        drafts_fault(tracks, drafts) == drafts_fault(tracks, drafts.take(n)),
    decreases drafts.len(),
{
    if n < drafts.len() {
        assert(drafts.drop_last().take(n) =~= drafts.take(n));
        lemma_fault_stays(tracks, drafts.drop_last(), n);
    } else {
        assert(drafts.take(n) =~= drafts);
    }
}

/// The same tracks again.
pub(crate) fn copied_tracks(tracks: &Vec<Track>) -> (result: Vec<Track>)
    ensures
        text::views(result@) == text::views(tracks@),
{
    let mut result: Vec<Track> = Vec::new();
    let mut i: usize = 0;
    while i < tracks.len()
        invariant
            i <= tracks@.len(),
            result@.len() == i,
            forall|k: int| 0 <= k < i ==> (#[trigger] result@[k])@ == tracks@[k]@,
        decreases tracks@.len() - i,
    {
        result.push(tracks[i].clone());
        i += 1;
    }
    assert(text::views(result@) =~= text::views(tracks@));
    result
}

/// A track is found by its title, by its artist and by its album alike: it is enough that one of them
/// holds what is sought, whatever the case of its ASCII letters.
pub proof fn lemma_filter_finds(
    track: TrackView,
    filter: Seq<char>,
    before: Seq<char>,
    found: Seq<char>,
    after: Seq<char>,
)
    requires
        !before.contains('\0'),
        text::ascii_lower_text(found) == text::ascii_lower_text(text::trimmed(filter)),
        track.title == before + found + after || track.artist == before + found + after
            || track.album == Some(before + found + after),
    ensures
        track_fits(track, sought(Some(filter))),
        kept_tracks(seq![track], sought(Some(filter)))[0],
{
    like::lemma_found_in_any_case(text::trimmed(filter), before, found, after);
}

/// A track that holds nothing of what is sought is not found: what is found by plain words has them
/// in its title, its artist or its album.
pub proof fn lemma_filter_finds_only(track: TrackView, filter: Seq<char>)
    requires
        !text::trimmed(filter).contains('%'),
        !text::trimmed(filter).contains('_'),
        !text::trimmed(filter).contains('\0'),
        track_fits(track, sought(Some(filter))),
        text::trimmed(filter).len() > 0,
    ensures
        ({
            let words = text::ascii_lower_text(text::trimmed(filter));
            ||| text::occurs_in(text::ascii_lower_text(track.title), words)
            ||| text::occurs_in(text::ascii_lower_text(track.artist), words)
            ||| track.album is Some && text::occurs_in(
                text::ascii_lower_text(track.album->0),
                words,
            )
        }),
{
    let words = text::trimmed(filter);
    if like::like(like::holding(words), track.title) {
        like::lemma_found_only_where_held(words, track.title);
    } else if like::like(like::holding(words), track.artist) {
        like::lemma_found_only_where_held(words, track.artist);
    } else {
        like::lemma_found_only_where_held(words, track.album->0);
    }
}

/// Without a filter, or with one of whitespace only, every track is found.
pub proof fn lemma_no_filter_finds_all(track: TrackView, filter: Seq<char>)
    ensures
        track_fits(track, sought(None)),
        text::trimmed(filter).len() == 0 ==> track_fits(track, sought(Some(filter))),
{
}

/// What is listed is what fits, each row once, by artist and then by title; a page of it begins
/// where it is told to and is as long as it may be, five thousand rows at most.
pub proof fn lemma_tracks_listed(
    tracks: Seq<TrackView>,
    pattern: Option<Seq<char>>,
    limit: nat,
    offset: nat,
)
    requires
        order::is_listing(
            track_keys(tracks),
            kept_tracks(tracks, pattern),
            order::listing_of(track_keys(tracks), kept_tracks(tracks, pattern)),
        ),
    ensures
        ({
            let places = order::listing_of(track_keys(tracks), kept_tracks(tracks, pattern));
            let shown = listed(
                tracks,
                track_keys(tracks),
                kept_tracks(tracks, pattern),
                query_limit(limit),
                offset,
            );
            let most = if limit < 5000 {
                limit
            } else {
                5000
            };
            &&& forall|i: int|
                0 <= i < tracks.len() ==> (track_fits(#[trigger] tracks[i], pattern)
                    <==> places.contains(i))
            &&& forall|i: int, j: int|
                0 <= i < j < places.len() ==> #[trigger] places[i] != #[trigger] places[j]
                    && !order::precedes(
                    order::folded_text(tracks[places[j]].artist),
                    order::folded_text(tracks[places[i]].artist),
                ) && (order::folded_text(tracks[places[j]].artist) == order::folded_text(
                    tracks[places[i]].artist,
                ) ==> !order::precedes(
                    order::folded_text(tracks[places[j]].title),
                    order::folded_text(tracks[places[i]].title),
                ))
            &&& shown.len() <= most
            &&& offset + shown.len() <= places.len() || shown.len() == 0
            &&& shown.len() < most ==> offset + shown.len() >= places.len()
            &&& forall|k: int|
                0 <= k < shown.len() ==> #[trigger] shown[k] == tracks[places[offset + k]]
        }),
{
    let keys = track_keys(tracks);
    let keep = kept_tracks(tracks, pattern);
    let places = order::listing_of(keys, keep);
    order::lemma_page(places, query_limit(limit), offset);
    assert forall|i: int| 0 <= i < tracks.len() implies (track_fits(#[trigger] tracks[i], pattern)
        <==> places.contains(i)) by {
        assert(keep[i] == track_fits(tracks[i], pattern));
        if places.contains(i) {
            let k = choose|k: int| 0 <= k < places.len() && places[k] == i;
            assert(keep[places[k]]);
        }
    }
    let firsts = Seq::new(tracks.len(), |i: int| tracks[i].artist);
    let seconds = Seq::new(tracks.len(), |i: int| tracks[i].title);
    assert forall|i: int, j: int| 0 <= i < j < places.len() implies #[trigger] places[i]
        != #[trigger] places[j] && !order::precedes(
        order::folded_text(tracks[places[j]].artist),
        order::folded_text(tracks[places[i]].artist),
    ) && (order::folded_text(tracks[places[j]].artist) == order::folded_text(
        tracks[places[i]].artist,
    ) ==> !order::precedes(
        order::folded_text(tracks[places[j]].title),
        order::folded_text(tracks[places[i]].title),
    )) by {
        order::lemma_listed_by_both(firsts, seconds, keys, keep, places, i, j);
        assert(order::shown_before(keys, places[i], places[j]));
        order::lemma_key_total(keys[places[i]], keys[places[j]]);
    }
}

/// A track that belongs to an album is not listed by itself; any other that fits is.
pub proof fn lemma_standalone_tracks(view: LibraryView, pattern: Option<Seq<char>>, i: int, a: int)
    requires
        0 <= i < view.tracks.len(),
    ensures
        0 <= a < view.albums.len() && view.albums[a].tracks.contains(view.tracks[i].id)
            ==> !kept_standalone(view, pattern)[i],
        (forall|k: int|
            0 <= k < view.albums.len() ==> !(#[trigger] view.albums[k]).tracks.contains(
                view.tracks[i].id,
            )) ==> kept_standalone(view, pattern)[i] == track_fits(view.tracks[i], pattern),
{
}

/// A stored track says what its draft said, has its file, and lies in the row of its path; every
/// other row is as it was. A path that is known keeps its identifier, and a new one gets one that is
/// greater than all before.
pub proof fn lemma_stored_as_told(tracks: Seq<TrackView>, draft: TrackDraftView)
    requires
        growing_tracks(tracks),
        distinct_paths(tracks),
        upsert_fault(tracks, draft) is None,
    ensures
        ({
            let after = upserted(tracks, draft);
            &&& forall|i: int|
                0 <= i < tracks.len() && (#[trigger] tracks[i]).path != draft.path ==> after[i]
                    == tracks[i]
            &&& forall|i: int|
                0 <= i < tracks.len() && (#[trigger] tracks[i]).path == draft.path ==> after.len()
                    == tracks.len() && after[i].id == tracks[i].id && upserted_id(tracks, draft)
                    == tracks[i].id
            &&& (forall|i: int|
                0 <= i < tracks.len() ==> (#[trigger] tracks[i]).path != draft.path) ==> after.len()
                == tracks.len() + 1 && forall|i: int|
                0 <= i < tracks.len() ==> (#[trigger] tracks[i]).id < after.last().id
            &&& forall|i: int|
                0 <= i < after.len() && (#[trigger] after[i]).path == draft.path ==> after[i].id
                    == upserted_id(tracks, draft) && after[i].title == draft.title
                    && after[i].artist == draft.artist && after[i].album == draft.album
                    && after[i].provider == draft.provider && after[i].source_id == draft.source_id
                    && after[i].duration_seconds == draft.duration_seconds && after[i].imported
                    == draft.imported && after[i].available
            &&& exists|i: int| 0 <= i < after.len() && (#[trigger] after[i]).path == draft.path
        }),
{
    let after = upserted(tracks, draft);
    let at = path_row(tracks, draft.path);
    lemma_path_row(tracks, draft.path);
    assert(after[at].path == draft.path);
    assert forall|i: int| 0 <= i < tracks.len() && (#[trigger] tracks[i]).path
        == draft.path implies i == at by {
        if at < i {
            assert(tracks[at].path != tracks[i].path);
        }
    }
    assert forall|i: int| 0 <= i < after.len() && (#[trigger] after[i]).path
        == draft.path implies i == at by {
        if i != at {
            assert(after[i] == tracks[i]);
        }
    }
    if at == tracks.len() && tracks.len() > 0 {
        assert forall|i: int| 0 <= i < tracks.len() implies (#[trigger] tracks[i]).id
            < after.last().id by {
            if i < tracks.len() - 1 {
                assert(tracks[i].id < tracks[tracks.len() - 1].id);
            }
        }
    }
}

/// A draft is refused exactly where its duration is too long to be kept, where its source is that of
/// a track at another path, or where a new track would need an identifier past the last one.
pub proof fn lemma_refused_drafts(tracks: Seq<TrackView>, draft: TrackDraftView)
    ensures
        upsert_fault(tracks, draft) is Some <==> {
            ||| draft.duration_seconds is Some && draft.duration_seconds->0 > i64::MAX
            ||| exists|i: int|
                0 <= i < tracks.len() && (#[trigger] tracks[i]).path != draft.path
                    && draft.provider is Some && draft.source_id is Some && tracks[i].provider
                    == draft.provider && tracks[i].source_id == draft.source_id
            ||| tracks.len() > 0 && tracks.last().id == i64::MAX && forall|i: int|
                0 <= i < tracks.len() ==> (#[trigger] tracks[i]).path != draft.path
        },
{
    lemma_path_row(tracks, draft.path);
    let at = path_row(tracks, draft.path);
    if at < tracks.len() {
        assert(tracks[at].path == draft.path);
    }
}

/// The tracks that a list names are those with its identifiers, in its order.
pub proof fn lemma_named_by_id(tracks: Seq<TrackView>, ids: Seq<i64>)
    requires
        growing_tracks(tracks),
        all_known(tracks, ids),
    ensures
        named(tracks, ids).len() == ids.len(),
        forall|k: int|
            0 <= k < ids.len() ==> (#[trigger] named(tracks, ids)[k]).id == ids[k]
                && tracks.contains(named(tracks, ids)[k]),
{
    assert forall|k: int| 0 <= k < ids.len() implies (#[trigger] named(tracks, ids)[k]).id == ids[k]
        && tracks.contains(named(tracks, ids)[k]) by {
        assert(known(tracks, ids[k]));
        let row = row_of(tracks, ids[k]);
        assert(tracks[row].id == ids[k]);
    }
}

/// An import takes a hundred thousand files at most, a list five thousand tracks, and a pattern fifty
/// thousand bytes.
pub proof fn lemma_library_limits()
    ensures
        MAX_IMPORT_FILES == 100_000,
        MAX_QUERY_TRACKS == 5000,
        MAX_PATTERN_BYTES == 50_000,
{
}

} // verus!
