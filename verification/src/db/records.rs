//! The state of download jobs, and bringing a stored catalogue back.

use vstd::prelude::*;

use crate::db;
use crate::db::AlbumRow;
use crate::db::JobRow;
use crate::db::JobRowView;
use crate::db::LibraryDb;
use crate::db::LibraryView;
use crate::db::PlaylistRow;
use crate::model::Track;
use crate::model::TrackView;
use crate::order;
use crate::order::Key;
use crate::order::KeyView;
use crate::text;

verus! {

/// The row of a job, or the number of jobs.
pub open spec fn job_row(jobs: Seq<JobRowView>, job_id: Seq<char>) -> int
    decreases jobs.len(),
{
    if jobs.len() == 0 || jobs[0].job_id == job_id {
        0
    } else {
        1 + job_row(jobs.skip(1), job_id)
    }
}

/// The jobs once the state of one is noted; a job that is known keeps its title.
pub open spec fn job_noted(
    jobs: Seq<JobRowView>,
    job_id: Seq<char>,
    title: Seq<char>,
    state: Seq<char>,
    error: Option<Seq<char>>,
) -> Seq<JobRowView> {
    let at = job_row(jobs, job_id);
    if at < jobs.len() {
        jobs.update(at, JobRowView { state, error, ..jobs[at] })
    } else {
        jobs.push(JobRowView { job_id, title, state, error })
    }
}

proof fn lemma_job_row(jobs: Seq<JobRowView>, job_id: Seq<char>)
    ensures
        0 <= job_row(jobs, job_id) <= jobs.len(),
        forall|i: int|
            0 <= i < job_row(jobs, job_id) ==> (#[trigger] jobs[i]).job_id != job_id,
        job_row(jobs, job_id) < jobs.len() ==> jobs[job_row(jobs, job_id)].job_id == job_id,
    decreases jobs.len(),
{
    if jobs.len() > 0 && jobs[0].job_id != job_id {
        let rest = jobs.skip(1);
        lemma_job_row(rest, job_id);
        assert forall|i: int| 0 <= i < job_row(jobs, job_id) implies (#[trigger] jobs[i]).job_id
            != job_id by {
            if i > 0 {
                assert(jobs[i] == rest[i - 1]);
            }
        }
    }
}

/// Whether no two tracks lie at the same path.
fn paths_differ(rows: &Vec<Track>) -> (result: bool)
    ensures
        result == db::distinct_paths(text::views(rows@)),
{
    let ghost all = text::views(rows@);
    let mut keys: Vec<Key> = Vec::new();
    let mut keep: Vec<bool> = Vec::new();
    let mut i: usize = 0;
    while i < rows.len()
        invariant
            all == text::views(rows@),
            i <= rows@.len(),
            keys@.len() == i,
            keep@.len() == i,
            forall|k: int| 0 <= k < i ==> #[trigger] keep@[k],
            forall|k: int|
                0 <= k < i ==> (#[trigger] keys@[k])@ == (KeyView {
                    first: all[k].path,
                    second: Seq::empty(),
                }),
        decreases rows@.len() - i,
    {
        assert(all[i as int] == rows@[i as int]@);
        let key = Key {
            first: text::chars_of(rows[i].path.as_str()),
            second: Vec::new(),
        };
        assert(key@ =~= (KeyView {
            first: all[i as int].path,
            second: Seq::empty(),
        }));
        keys.push(key);
        keep.push(true);
        i += 1;
    }
    proof {
        let views = text::views(keys@);
        assert forall|k: int| 0 <= k < all.len() implies keep@[k] && #[trigger] views[k] == (KeyView {
            first: all[k].path,
            second: Seq::empty(),
        }) by {
            assert(views[k] == keys@[k]@);
        }
        if order::differ(views, keep@) {
            assert forall|r: int, s: int| 0 <= r < s < all.len() implies (#[trigger] all[r]).path
                    != (#[trigger] all[s]).path by {
                assert(keep@[r] && keep@[s]);
                assert(views[r] != views[s]);
            }
        }
        if db::distinct_paths(all) {
            assert forall|r: int, s: int| 0 <= r < s < views.len() implies #[trigger] views[r]
                != #[trigger] views[s] by {
                assert(keep@[r] && keep@[s]);
            }
        }
    }
    order::all_differ(&keys, &keep)
}

/// Whether no two playlists have the same name.
fn names_differ(rows: &Vec<PlaylistRow>) -> (result: bool)
    ensures
        result == db::distinct_names(text::views(rows@)),
{
    let ghost all = text::views(rows@);
    let mut keys: Vec<Key> = Vec::new();
    let mut keep: Vec<bool> = Vec::new();
    let mut i: usize = 0;
    while i < rows.len()
        invariant
            all == text::views(rows@),
            i <= rows@.len(),
            keys@.len() == i,
            keep@.len() == i,
            forall|k: int| 0 <= k < i ==> #[trigger] keep@[k],
            forall|k: int|
                0 <= k < i ==> (#[trigger] keys@[k])@ == (KeyView {
                    first: all[k].name,
                    second: Seq::empty(),
                }),
        decreases rows@.len() - i,
    {
        assert(all[i as int] == rows@[i as int]@);
        let key = Key {
            first: text::chars_of(rows[i].name.as_str()),
            second: Vec::new(),
        };
        assert(key@ =~= (KeyView {
            first: all[i as int].name,
            second: Seq::empty(),
        }));
        keys.push(key);
        keep.push(true);
        i += 1;
    }
    proof {
        let views = text::views(keys@);
        assert forall|k: int| 0 <= k < all.len() implies keep@[k] && #[trigger] views[k] == (KeyView {
            first: all[k].name,
            second: Seq::empty(),
        }) by {
            assert(views[k] == keys@[k]@);
        }
        if order::differ(views, keep@) {
            assert forall|r: int, s: int| 0 <= r < s < all.len() implies (#[trigger] all[r]).name
                    != (#[trigger] all[s]).name by {
                assert(keep@[r] && keep@[s]);
                assert(views[r] != views[s]);
            }
        }
        if db::distinct_names(all) {
            assert forall|r: int, s: int| 0 <= r < s < views.len() implies #[trigger] views[r]
                != #[trigger] views[s] by {
                assert(keep@[r] && keep@[s]);
            }
        }
    }
    order::all_differ(&keys, &keep)
}

/// Whether no two albums come from the same source.
fn albums_differ(rows: &Vec<AlbumRow>) -> (result: bool)
    ensures
        result == db::distinct_albums(text::views(rows@)),
{
    let ghost all = text::views(rows@);
    let mut keys: Vec<Key> = Vec::new();
    let mut keep: Vec<bool> = Vec::new();
    let mut i: usize = 0;
    while i < rows.len()
        invariant
            all == text::views(rows@),
            i <= rows@.len(),
            keys@.len() == i,
            keep@.len() == i,
            forall|k: int| 0 <= k < i ==> #[trigger] keep@[k],
            forall|k: int|
                0 <= k < i ==> (#[trigger] keys@[k])@ == (KeyView {
                    first: all[k].provider,
                    second: all[k].source_id,
                }),
        decreases rows@.len() - i,
    {
        assert(all[i as int] == rows@[i as int]@);
        let key = Key {
            first: text::chars_of(rows[i].provider.as_str()),
            second: text::chars_of(rows[i].source_id.as_str()),
        };
        assert(key@ =~= (KeyView {
            first: all[i as int].provider,
            second: all[i as int].source_id,
        }));
        keys.push(key);
        keep.push(true);
        i += 1;
    }
    proof {
        let views = text::views(keys@);
        assert forall|k: int| 0 <= k < all.len() implies keep@[k] && #[trigger] views[k] == (KeyView {
            first: all[k].provider,
            second: all[k].source_id,
        }) by {
            assert(views[k] == keys@[k]@);
        }
        if order::differ(views, keep@) {
            assert forall|r: int, s: int| 0 <= r < s < all.len() implies !((#[trigger] all[r]).provider == (
                #[trigger] all[s]).provider && all[r].source_id == all[s].source_id) by {
                assert(keep@[r] && keep@[s]);
                assert(views[r] != views[s]);
            }
        }
        if db::distinct_albums(all) {
            assert forall|r: int, s: int| 0 <= r < s < views.len() implies #[trigger] views[r]
                != #[trigger] views[s] by {
                assert(keep@[r] && keep@[s]);
            }
        }
    }
    order::all_differ(&keys, &keep)
}

/// Whether no text is listed twice.
fn texts_differ(rows: &Vec<String>) -> (result: bool)
    ensures
        result == db::distinct_texts(text::views(rows@)),
{
    let ghost all = text::views(rows@);
    let mut keys: Vec<Key> = Vec::new();
    let mut keep: Vec<bool> = Vec::new();
    let mut i: usize = 0;
    while i < rows.len()
        invariant
            all == text::views(rows@),
            i <= rows@.len(),
            keys@.len() == i,
            keep@.len() == i,
            forall|k: int| 0 <= k < i ==> #[trigger] keep@[k],
            forall|k: int|
                0 <= k < i ==> (#[trigger] keys@[k])@ == (KeyView {
                    first: all[k],
                    second: Seq::empty(),
                }),
        decreases rows@.len() - i,
    {
        assert(all[i as int] == rows@[i as int]@);
        let key = Key {
            first: text::chars_of(rows[i].as_str()),
            second: Vec::new(),
        };
        assert(key@ =~= (KeyView {
            first: all[i as int],
            second: Seq::empty(),
        }));
        keys.push(key);
        keep.push(true);
        i += 1;
    }
    proof {
        let views = text::views(keys@);
        assert forall|k: int| 0 <= k < all.len() implies keep@[k] && #[trigger] views[k] == (KeyView {
            first: all[k],
            second: Seq::empty(),
        }) by {
            assert(views[k] == keys@[k]@);
        }
        if order::differ(views, keep@) {
            assert forall|r: int, s: int| 0 <= r < s < all.len() implies #[trigger] all[r]
                    != #[trigger] all[s] by {
                assert(keep@[r] && keep@[s]);
                assert(views[r] != views[s]);
            }
        }
        if db::distinct_texts(all) {
            assert forall|r: int, s: int| 0 <= r < s < views.len() implies #[trigger] views[r]
                != #[trigger] views[s] by {
                assert(keep@[r] && keep@[s]);
            }
        }
    }
    order::all_differ(&keys, &keep)
}

/// Whether no job is listed twice.
fn jobs_differ(rows: &Vec<JobRow>) -> (result: bool)
    ensures
        result == db::distinct_jobs(text::views(rows@)),
{
    let ghost all = text::views(rows@);
    let mut keys: Vec<Key> = Vec::new();
    let mut keep: Vec<bool> = Vec::new();
    let mut i: usize = 0;
    while i < rows.len()
        invariant
            all == text::views(rows@),
            i <= rows@.len(),
            keys@.len() == i,
            keep@.len() == i,
            forall|k: int| 0 <= k < i ==> #[trigger] keep@[k],
            forall|k: int|
                0 <= k < i ==> (#[trigger] keys@[k])@ == (KeyView {
                    first: all[k].job_id,
                    second: Seq::empty(),
                }),
        decreases rows@.len() - i,
    {
        assert(all[i as int] == rows@[i as int]@);
        let key = Key {
            first: text::chars_of(rows[i].job_id.as_str()),
            second: Vec::new(),
        };
        assert(key@ =~= (KeyView {
            first: all[i as int].job_id,
            second: Seq::empty(),
        }));
        keys.push(key);
        keep.push(true);
        i += 1;
    }
    proof {
        let views = text::views(keys@);
        assert forall|k: int| 0 <= k < all.len() implies keep@[k] && #[trigger] views[k] == (KeyView {
            first: all[k].job_id,
            second: Seq::empty(),
        }) by {
            assert(views[k] == keys@[k]@);
        }
        if order::differ(views, keep@) {
            assert forall|r: int, s: int| 0 <= r < s < all.len() implies (#[trigger] all[r]).job_id
                    != (#[trigger] all[s]).job_id by {
                assert(keep@[r] && keep@[s]);
                assert(views[r] != views[s]);
            }
        }
        if db::distinct_jobs(all) {
            assert forall|r: int, s: int| 0 <= r < s < views.len() implies #[trigger] views[r]
                != #[trigger] views[s] by {
                assert(keep@[r] && keep@[s]);
            }
        }
    }
    order::all_differ(&keys, &keep)
}

/// What a track is told from others by its source; nothing where it has none.
spec fn source_key(track: TrackView) -> KeyView {
    match (track.provider, track.source_id) {
        (Some(provider), Some(source_id)) => KeyView { first: provider, second: source_id },
        _ => KeyView { first: Seq::empty(), second: Seq::empty() },
    }
}

/// Whether no two tracks come from the same source.
fn sources_differ(rows: &Vec<Track>) -> (result: bool)
    ensures
        result == db::distinct_sources(text::views(rows@)),
{
    let ghost all = text::views(rows@);
    let mut keys: Vec<Key> = Vec::new();
    let mut keep: Vec<bool> = Vec::new();
    let mut i: usize = 0;
    while i < rows.len()
        invariant
            all == text::views(rows@),
            i <= rows@.len(),
            keys@.len() == i,
            keep@.len() == i,
            forall|k: int|
                0 <= k < i ==> #[trigger] keep@[k] == (all[k].provider is Some && all[k].source_id
                    is Some),
            forall|k: int| 0 <= k < i ==> (#[trigger] keys@[k])@ == source_key(all[k]),
        decreases rows@.len() - i,
    {
        assert(all[i as int] == rows@[i as int]@);
        match (&rows[i].provider, &rows[i].source_id) {
            (Some(provider), Some(source_id)) => {
                keys.push(
                    Key {
                        first: text::chars_of(provider.as_str()),
                        second: text::chars_of(source_id.as_str()),
                    },
                );
                keep.push(true);
            },
            _ => {
                let key = Key { first: Vec::new(), second: Vec::new() };
                assert(key@ =~= (KeyView { first: Seq::empty(), second: Seq::empty() }));
                keys.push(key);
                keep.push(false);
            },
        }
        i += 1;
    }
    proof {
        let views = text::views(keys@);
        assert forall|k: int| 0 <= k < all.len() implies #[trigger] views[k] == source_key(
            all[k],
        ) by {
            assert(views[k] == keys@[k]@);
        }
        if order::differ(views, keep@) {
            assert forall|r: int, s: int|
                0 <= r < s < all.len() && (#[trigger] all[r]).provider is Some && all[r].source_id
                    is Some implies !(all[r].provider == (#[trigger] all[s]).provider
                && all[r].source_id == all[s].source_id) by {
                assert(keep@[r]);
                if all[s].provider is Some && all[s].source_id is Some {
                    assert(keep@[s]);
                    assert(views[r] != views[s]);
                }
            }
        }
        if db::distinct_sources(all) {
            assert forall|r: int, s: int|
                0 <= r < s < views.len() && keep@[r] && keep@[s] implies #[trigger] views[r]
                != #[trigger] views[s] by {
                assert(all[r].provider is Some && all[s].provider is Some);
            }
        }
    }
    order::all_differ(&keys, &keep)
}

impl LibraryDb {
    fn find_job(&self, job_id: &str) -> (result: usize)
        ensures
            result == job_row(self@.jobs, job_id@),
            result <= self.jobs@.len(),
    {
        let mut i: usize = 0;
        assert(self@.jobs.skip(0) =~= self@.jobs);
        while i < self.jobs.len()
            invariant
                i <= self.jobs@.len(),
                job_row(self@.jobs, job_id@) == i + job_row(self@.jobs.skip(i as int), job_id@),
            decreases self.jobs@.len() - i,
        {
            assert(self@.jobs[i as int] == self.jobs@[i as int]@);
            if text::same_text(self.jobs[i].job_id.as_str(), job_id) {
                return i;
            }
            assert(self@.jobs.skip(i as int).skip(1) =~= self@.jobs.skip(i + 1));
            i += 1;
        }
        i
    }

    /// Every track, in the order in which they came.
    pub fn track_rows(&self) -> (result: &Vec<Track>)
        ensures
            text::views(result@) == self@.tracks,
    {
        &self.tracks
    }

    /// Every playlist, in the order in which they came.
    pub fn playlist_rows(&self) -> (result: &Vec<PlaylistRow>)
        ensures
            text::views(result@) == self@.playlists,
    {
        &self.playlists
    }

    /// Every album, in the order in which they came.
    pub fn album_rows(&self) -> (result: &Vec<AlbumRow>)
        ensures
            text::views(result@) == self@.albums,
    {
        &self.albums
    }

    /// The identifiers of the tracks in the queue.
    pub fn queue_rows(&self) -> (result: &Vec<i64>)
        ensures
            result@ == self@.queue,
    {
        &self.queue
    }

    /// Every job, in the order in which they came.
    pub fn job_rows(&self) -> (result: &Vec<JobRow>)
        ensures
            text::views(result@) == self@.jobs,
    {
        &self.jobs
    }

    /// Notes the state of a download job.
    pub fn record_job(&mut self, job_id: &str, title: &str, state: &str, error: Option<&str>)
        requires
            old(self)@.well_formed(),
        ensures
            final(self)@.well_formed(),
            final(self)@ == (LibraryView {
                jobs: job_noted(
                    old(self)@.jobs,
                    job_id@,
                    title@,
                    state@,
                    match error {
                        Some(message) => Some(message@),
                        None => None,
                    },
                ),
                ..old(self)@
            }),
    {
        let fault = match error {
            Some(message) => Some(message.to_owned()),
            None => None,
        };
        let ghost noted = text::shown(fault);
        let i: usize = self.find_job(job_id);
        if i < self.jobs.len() {
            assert(self@.jobs[i as int] == self.jobs@[i as int]@);
        }
        if i < self.jobs.len() {
            let row = JobRow {
                job_id: self.jobs[i].job_id.clone(),
                title: self.jobs[i].title.clone(),
                state: state.to_owned(),
                error: fault,
            };
            self.jobs.set(i, row);
        } else {
            self.jobs.push(
                JobRow {
                    job_id: job_id.to_owned(),
                    title: title.to_owned(),
                    state: state.to_owned(),
                    error: fault,
                },
            );
        }
        proof {
            assert(self@.jobs =~= job_noted(old(self)@.jobs, job_id@, title@, state@, noted));
            assert(self@ =~= (LibraryView {
                jobs: job_noted(old(self)@.jobs, job_id@, title@, state@, noted),
                ..old(self)@
            }));
            lemma_job_row(old(self)@.jobs, job_id@);
            assert forall|r: int, s: int| 0 <= r < s < self@.jobs.len() implies (
            #[trigger] self@.jobs[r]).job_id != (#[trigger] self@.jobs[s]).job_id by {
                assert(old(self)@.jobs[r].job_id == self@.jobs[r].job_id);
                if s < old(self)@.jobs.len() {
                    assert(old(self)@.jobs[s].job_id == self@.jobs[s].job_id);
                }
            }
        }
    }

    fn knows_all(&self, ids: &Vec<i64>) -> (result: bool)
        requires
            db::growing_tracks(self@.tracks),
        ensures
            result == db::all_known(self@.tracks, ids@),
    {
        let mut i: usize = 0;
        while i < ids.len()
            invariant
                db::growing_tracks(self@.tracks),
                i <= ids@.len(),
                forall|k: int| 0 <= k < i ==> db::known(self@.tracks, #[trigger] ids@[k]),
            decreases ids@.len() - i,
        {
            if self.find_track(ids[i]).is_none() {
                assert(!db::known(self@.tracks, ids@[i as int]));
                return false;
            }
            i += 1;
        }
        true
    }

    /// Whether what was stored is a catalogue.
    fn sound(&self) -> (result: bool)
        ensures
            result == self@.well_formed(),
    {
        let mut i: usize = 0;
        while i < self.tracks.len()
            invariant
                i <= self.tracks@.len(),
                forall|k: int| 0 <= k < i ==> (#[trigger] self@.tracks[k]).id > 0,
                forall|j: int, k: int|
                    0 <= j < k < i ==> (#[trigger] self@.tracks[j]).id < (#[trigger] self@.tracks[k]).id,
            decreases self.tracks@.len() - i,
        {
            assert(self@.tracks[i as int] == self.tracks@[i as int]@);
            if self.tracks[i].id <= 0 {
                assert(!(self@.tracks[i as int].id > 0));
                return false;
            }
            if i > 0 {
                assert(self@.tracks[i - 1] == self.tracks@[i - 1]@);
                if self.tracks[i - 1].id >= self.tracks[i].id {
                    assert(!(self@.tracks[i - 1].id < self@.tracks[i as int].id));
                    return false;
                }
            }
            i += 1;
        }
        if !paths_differ(&self.tracks) || !sources_differ(&self.tracks) || !names_differ(
            &self.playlists,
        ) || !albums_differ(&self.albums) || !texts_differ(&self.roots) || !jobs_differ(
            &self.jobs,
        ) {
            return false;
        }
        i = 0;
        while i < self.playlists.len()
            invariant
                db::growing_tracks(self@.tracks),
                i <= self.playlists@.len(),
                forall|k: int| 0 <= k < i ==> (#[trigger] self@.playlists[k]).id > 0,
                forall|j: int, k: int|
                    0 <= j < k < i ==> (#[trigger] self@.playlists[j]).id < (
                    #[trigger] self@.playlists[k]).id,
                forall|k: int|
                    0 <= k < i ==> db::all_known(
                        self@.tracks,
                        (#[trigger] self@.playlists[k]).tracks,
                    ),
            decreases self.playlists@.len() - i,
        {
            assert(self@.playlists[i as int] == self.playlists@[i as int]@);
            if self.playlists[i].id <= 0 || !self.knows_all(&self.playlists[i].tracks) {
                assert(!(self@.playlists[i as int].id > 0) || !db::all_known(
                    self@.tracks,
                    self@.playlists[i as int].tracks,
                ));
                return false;
            }
            if i > 0 {
                assert(self@.playlists[i - 1] == self.playlists@[i - 1]@);
                if self.playlists[i - 1].id >= self.playlists[i].id {
                    assert(!(self@.playlists[i - 1].id < self@.playlists[i as int].id));
                    return false;
                }
            }
            i += 1;
        }
        i = 0;
        while i < self.albums.len()
            invariant
                db::growing_tracks(self@.tracks),
                i <= self.albums@.len(),
                forall|k: int| 0 <= k < i ==> (#[trigger] self@.albums[k]).id > 0,
                forall|j: int, k: int|
                    0 <= j < k < i ==> (#[trigger] self@.albums[j]).id < (#[trigger] self@.albums[k]).id,
                forall|k: int|
                    0 <= k < i ==> db::all_known(
                        self@.tracks,
                        (#[trigger] self@.albums[k]).tracks,
                    ),
            decreases self.albums@.len() - i,
        {
            assert(self@.albums[i as int] == self.albums@[i as int]@);
            if self.albums[i].id <= 0 || !self.knows_all(&self.albums[i].tracks) {
                assert(!(self@.albums[i as int].id > 0) || !db::all_known(
                    self@.tracks,
                    self@.albums[i as int].tracks,
                ));
                return false;
            }
            if i > 0 {
                assert(self@.albums[i - 1] == self.albums@[i - 1]@);
                if self.albums[i - 1].id >= self.albums[i].id {
                    assert(!(self@.albums[i - 1].id < self@.albums[i as int].id));
                    return false;
                }
            }
            i += 1;
        }
        self.knows_all(&self.queue)
    }

    /// Brings a stored catalogue back; `None` where what was stored is no catalogue.
    pub fn restore(
        tracks: Vec<Track>,
        playlists: Vec<PlaylistRow>,
        albums: Vec<AlbumRow>,
        queue: Vec<i64>,
        roots: Vec<String>,
        jobs: Vec<JobRow>,
    ) -> (result: Option<Self>)
        ensures
            ({
                let stored = LibraryView {
                    tracks: text::views(tracks@),
                    playlists: text::views(playlists@),
                    albums: text::views(albums@),
                    queue: queue@,
                    roots: text::views(roots@),
                    jobs: text::views(jobs@),
                };
                match result {
                    Some(db) => db@ == stored && stored.well_formed(),
                    None => !stored.well_formed(),
                }
            }),
    {
        let db = LibraryDb { tracks, playlists, albums, queue, roots, jobs };
        if db.sound() {
            Some(db)
        } else {
            None
        }
    }
}

/// The state and the error of a job are what was noted last; its title is the one it had first, and
/// every other job stays as it was.
pub proof fn lemma_job_noted(
    jobs: Seq<JobRowView>,
    job_id: Seq<char>,
    title: Seq<char>,
    state: Seq<char>,
    error: Option<Seq<char>>,
)
    requires
        db::distinct_jobs(jobs),
    ensures
        ({
            let after = job_noted(jobs, job_id, title, state, error);
            &&& forall|i: int|
                0 <= i < after.len() && (#[trigger] after[i]).job_id == job_id ==> after[i].state
                    == state && after[i].error == error
            &&& exists|i: int| 0 <= i < after.len() && (#[trigger] after[i]).job_id == job_id
            &&& forall|i: int|
                0 <= i < jobs.len() ==> (#[trigger] after[i]).job_id == jobs[i].job_id
                    && after[i].title == jobs[i].title
            &&& forall|i: int|
                0 <= i < jobs.len() && (#[trigger] jobs[i]).job_id != job_id ==> after[i] == jobs[i]
            &&& (forall|i: int| 0 <= i < jobs.len() ==> (#[trigger] jobs[i]).job_id != job_id)
                ==> after.len() == jobs.len() + 1 && after.last().title == title
            &&& forall|i: int|
                0 <= i < jobs.len() && (#[trigger] jobs[i]).job_id == job_id ==> after.len()
                    == jobs.len()
        }),
{
    let after = job_noted(jobs, job_id, title, state, error);
    let at = job_row(jobs, job_id);
    lemma_job_row(jobs, job_id);
    assert(after[at].job_id == job_id);
    assert forall|i: int| 0 <= i < jobs.len() && (#[trigger] jobs[i]).job_id == job_id implies i
        == at by {
        if at < i {
            assert(jobs[at].job_id != jobs[i].job_id);
        }
    }
    assert forall|i: int| 0 <= i < after.len() && (#[trigger] after[i]).job_id == job_id implies i
        == at by {
        if i != at {
            assert(after[i] == jobs[i]);
        }
    }
}

} // verus!
