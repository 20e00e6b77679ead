//! The records that the rest of the library exchanges.
//!
//! Contracts speak of each record through its view, in which a text is a sequence of characters.

use vstd::prelude::*;

use crate::seconds::Seconds;
use crate::text;

verus! {

/// What a search result stands for.
#[derive(Clone, Copy, PartialEq, Eq, Structural, Debug)]
pub enum SearchKind {
    Track,
    Album,
    Playlist,
    Unknown,
}

/// The word that is shown for a kind of result.
pub open spec fn kind_label(kind: SearchKind) -> Seq<char> {
    match kind {
        SearchKind::Track => "faixa"@,
        SearchKind::Album => "album"@,
        SearchKind::Playlist => "playlist"@,
        SearchKind::Unknown => "item"@,
    }
}

impl SearchKind {
    /// The word that is shown for this kind of result.
    pub fn label(self) -> (result: &'static str)
        ensures
            result@ == kind_label(self),
    {
        match self {
            SearchKind::Track => "faixa",
            SearchKind::Album => "album",
            SearchKind::Playlist => "playlist",
            SearchKind::Unknown => "item",
        }
    }
}

/// A part of a longer medium.
#[derive(Clone, Copy, PartialEq, Eq, Structural, Debug)]
pub struct MediaSegment {
    pub start_seconds: Seconds,
    pub end_seconds: Seconds,
    /// The place of this part in its album, counted from one.
    pub position: u32,
}

/// An album that is not in the library yet.
#[derive(PartialEq, Eq, Debug)]
pub struct AlbumDraft {
    pub provider: String,
    pub source_id: String,
    pub title: String,
    pub artist: String,
}

/// The view of an [`AlbumDraft`].
#[verifier::ext_equal]
pub struct AlbumDraftView {
    pub provider: Seq<char>,
    pub source_id: Seq<char>,
    pub title: Seq<char>,
    pub artist: Seq<char>,
}

impl View for AlbumDraft {
    type V = AlbumDraftView;

    open spec fn view(&self) -> AlbumDraftView {
        AlbumDraftView {
            provider: self.provider@,
            source_id: self.source_id@,
            title: self.title@,
            artist: self.artist@,
        }
    }
}

impl Clone for AlbumDraft {
    fn clone(&self) -> (result: Self)
        ensures
            result@ == self@,
    {
        AlbumDraft {
            provider: self.provider.clone(),
            source_id: self.source_id.clone(),
            title: self.title.clone(),
            artist: self.artist.clone(),
        }
    }
}

/// What an optional album holds.
pub open spec fn shown_album(album: Option<AlbumDraft>) -> Option<AlbumDraftView> {
    match album {
        Some(draft) => Some(draft@),
        None => None,
    }
}

/// A copy of an optional album.
pub fn copied_album(album: &Option<AlbumDraft>) -> (result: Option<AlbumDraft>)
    ensures
        shown_album(result) == shown_album(*album),
{
    match album {
        Some(draft) => Some(draft.clone()),
        None => None,
    }
}

/// One result of a search or of resolving a link.
#[derive(PartialEq, Eq, Debug)]
pub struct SearchItem {
    pub provider: String,
    pub source_id: String,
    pub kind: SearchKind,
    pub title: String,
    pub artist: String,
    pub album: Option<String>,
    pub duration_seconds: Option<u64>,
    pub url: String,
    pub segment: Option<MediaSegment>,
    pub album_identity: Option<AlbumDraft>,
}

/// The view of a [`SearchItem`].
#[verifier::ext_equal]
pub struct SearchItemView {
    pub provider: Seq<char>,
    pub source_id: Seq<char>,
    pub kind: SearchKind,
    pub title: Seq<char>,
    pub artist: Seq<char>,
    pub album: Option<Seq<char>>,
    pub duration_seconds: Option<u64>,
    pub url: Seq<char>,
    pub segment: Option<MediaSegment>,
    pub album_identity: Option<AlbumDraftView>,
}

impl View for SearchItem {
    type V = SearchItemView;

    open spec fn view(&self) -> SearchItemView {
        SearchItemView {
            provider: self.provider@,
            source_id: self.source_id@,
            kind: self.kind,
            title: self.title@,
            artist: self.artist@,
            album: text::shown(self.album),
            duration_seconds: self.duration_seconds,
            url: self.url@,
            segment: self.segment,
            album_identity: shown_album(self.album_identity),
        }
    }
}

impl Clone for SearchItem {
    fn clone(&self) -> (result: Self)
        ensures
            result@ == self@,
    {
        SearchItem {
            provider: self.provider.clone(),
            source_id: self.source_id.clone(),
            kind: self.kind,
            title: self.title.clone(),
            artist: self.artist.clone(),
            album: text::copied(&self.album),
            duration_seconds: self.duration_seconds,
            url: self.url.clone(),
            segment: self.segment,
            album_identity: copied_album(&self.album_identity),
        }
    }
}

/// An album of the library.
#[derive(PartialEq, Eq, Debug)]
pub struct Album {
    pub id: i64,
    pub provider: String,
    pub source_id: String,
    pub title: String,
    pub artist: String,
    pub track_count: u64,
    /// How many of its tracks have their file.
    pub available_count: u64,
}

/// The view of an [`Album`].
#[verifier::ext_equal]
pub struct AlbumView {
    pub id: i64,
    pub provider: Seq<char>,
    pub source_id: Seq<char>,
    pub title: Seq<char>,
    pub artist: Seq<char>,
    pub track_count: u64,
    pub available_count: u64,
}

impl View for Album {
    type V = AlbumView;

    open spec fn view(&self) -> AlbumView {
        AlbumView {
            id: self.id,
            provider: self.provider@,
            source_id: self.source_id@,
            title: self.title@,
            artist: self.artist@,
            track_count: self.track_count,
            available_count: self.available_count,
        }
    }
}

impl Clone for Album {
    fn clone(&self) -> (result: Self)
        ensures
            result@ == self@,
    {
        Album {
            id: self.id,
            provider: self.provider.clone(),
            source_id: self.source_id.clone(),
            title: self.title.clone(),
            artist: self.artist.clone(),
            track_count: self.track_count,
            available_count: self.available_count,
        }
    }
}

/// A track of the library.
#[derive(PartialEq, Eq, Debug)]
pub struct Track {
    pub id: i64,
    pub provider: Option<String>,
    pub source_id: Option<String>,
    pub title: String,
    pub artist: String,
    pub album: Option<String>,
    pub path: String,
    pub duration_seconds: Option<u64>,
    pub available: bool,
    pub imported: bool,
}

/// The view of a [`Track`].
#[verifier::ext_equal]
pub struct TrackView {
    pub id: i64,
    pub provider: Option<Seq<char>>,
    pub source_id: Option<Seq<char>>,
    pub title: Seq<char>,
    pub artist: Seq<char>,
    pub album: Option<Seq<char>>,
    pub path: Seq<char>,
    pub duration_seconds: Option<u64>,
    pub available: bool,
    pub imported: bool,
}

impl View for Track {
    type V = TrackView;

    open spec fn view(&self) -> TrackView {
        TrackView {
            id: self.id,
            provider: text::shown(self.provider),
            source_id: text::shown(self.source_id),
            title: self.title@,
            artist: self.artist@,
            album: text::shown(self.album),
            path: self.path@,
            duration_seconds: self.duration_seconds,
            available: self.available,
            imported: self.imported,
        }
    }
}

impl Clone for Track {
    fn clone(&self) -> (result: Self)
        ensures
            result@ == self@,
    {
        Track {
            id: self.id,
            provider: text::copied(&self.provider),
            source_id: text::copied(&self.source_id),
            title: self.title.clone(),
            artist: self.artist.clone(),
            album: text::copied(&self.album),
            path: self.path.clone(),
            duration_seconds: self.duration_seconds,
            available: self.available,
            imported: self.imported,
        }
    }
}

/// A track that is not in the library yet.
#[derive(PartialEq, Eq, Debug)]
pub struct TrackDraft {
    pub provider: Option<String>,
    pub source_id: Option<String>,
    pub title: String,
    pub artist: String,
    pub album: Option<String>,
    pub path: String,
    pub duration_seconds: Option<u64>,
    pub imported: bool,
}

/// The view of a [`TrackDraft`].
#[verifier::ext_equal]
pub struct TrackDraftView {
    pub provider: Option<Seq<char>>,
    pub source_id: Option<Seq<char>>,
    pub title: Seq<char>,
    pub artist: Seq<char>,
    pub album: Option<Seq<char>>,
    pub path: Seq<char>,
    pub duration_seconds: Option<u64>,
    pub imported: bool,
}

impl View for TrackDraft {
    type V = TrackDraftView;

    open spec fn view(&self) -> TrackDraftView {
        TrackDraftView {
            provider: text::shown(self.provider),
            source_id: text::shown(self.source_id),
            title: self.title@,
            artist: self.artist@,
            album: text::shown(self.album),
            path: self.path@,
            duration_seconds: self.duration_seconds,
            imported: self.imported,
        }
    }
}

impl Clone for TrackDraft {
    fn clone(&self) -> (result: Self)
        ensures
            result@ == self@,
    {
        TrackDraft {
            provider: text::copied(&self.provider),
            source_id: text::copied(&self.source_id),
            title: self.title.clone(),
            artist: self.artist.clone(),
            album: text::copied(&self.album),
            path: self.path.clone(),
            duration_seconds: self.duration_seconds,
            imported: self.imported,
        }
    }
}

/// A job for the download service: items that share one album, or a single item.
#[derive(PartialEq, Eq, Debug)]
pub struct DownloadRequest {
    pub job_id: String,
    pub items: Vec<SearchItem>,
    pub album: Option<AlbumDraft>,
}

/// The view of a [`DownloadRequest`].
#[verifier::ext_equal]
pub struct DownloadRequestView {
    pub job_id: Seq<char>,
    pub items: Seq<SearchItemView>,
    pub album: Option<AlbumDraftView>,
}

impl View for DownloadRequest {
    type V = DownloadRequestView;

    open spec fn view(&self) -> DownloadRequestView {
        DownloadRequestView {
            job_id: self.job_id@,
            items: text::views(self.items@),
            album: shown_album(self.album),
        }
    }
}

impl Clone for DownloadRequest {
    fn clone(&self) -> (result: Self)
        ensures
            result@ == self@,
    {
        DownloadRequest {
            job_id: self.job_id.clone(),
            items: copied_items(&self.items),
            album: copied_album(&self.album),
        }
    }
}

/// A copy of a list of items.
pub fn copied_items(items: &Vec<SearchItem>) -> (result: Vec<SearchItem>)
    ensures
        text::views(result@) == text::views(items@),
{
    let mut result: Vec<SearchItem> = Vec::new();
    let mut i: usize = 0;
    while i < items.len()
        invariant
            i <= items@.len(),
            result@.len() == i,
            forall|k: int| 0 <= k < i ==> (#[trigger] result@[k])@ == items@[k]@,
        decreases items@.len() - i,
    {
        result.push(items[i].clone());
        i += 1;
    }
    assert(text::views(result@) =~= text::views(items@));
    result
}

/// What the download service reports of a job.
#[derive(PartialEq, Eq, Debug)]
pub enum DownloadEvent {
    Queued { job_id: String, title: String },
    Downloading { job_id: String },
    Converting { job_id: String, current: usize, total: usize },
    Completed { job_id: String, tracks: Vec<TrackDraft>, album: Option<AlbumDraft> },
    Cancelled { job_id: String },
    Failed { job_id: String, error: String },
}

/// The view of a [`DownloadEvent`].
#[verifier::ext_equal]
pub enum DownloadEventView {
    Queued { job_id: Seq<char>, title: Seq<char> },
    Downloading { job_id: Seq<char> },
    Converting { job_id: Seq<char>, current: usize, total: usize },
    Completed {
        job_id: Seq<char>,
        tracks: Seq<TrackDraftView>,
        album: Option<AlbumDraftView>,
    },
    Cancelled { job_id: Seq<char> },
    Failed { job_id: Seq<char>, error: Seq<char> },
}

impl View for DownloadEvent {
    type V = DownloadEventView;

    open spec fn view(&self) -> DownloadEventView {
        match *self {
            DownloadEvent::Queued { job_id, title } => DownloadEventView::Queued {
                job_id: job_id@,
                title: title@,
            },
            DownloadEvent::Downloading { job_id } => DownloadEventView::Downloading {
                job_id: job_id@,
            },
            DownloadEvent::Converting { job_id, current, total } => DownloadEventView::Converting {
                job_id: job_id@,
                current,
                total,
            },
            DownloadEvent::Completed { job_id, tracks, album } => DownloadEventView::Completed {
                job_id: job_id@,
                tracks: text::views(tracks@),
                album: shown_album(album),
            },
            DownloadEvent::Cancelled { job_id } => DownloadEventView::Cancelled { job_id: job_id@ },
            DownloadEvent::Failed { job_id, error } => DownloadEventView::Failed {
                job_id: job_id@,
                error: error@,
            },
        }
    }
}

impl DownloadEventView {
    /// The job that an event belongs to.
    pub open spec fn job(self) -> Seq<char> {
        match self {
            DownloadEventView::Queued { job_id, .. } => job_id,
            DownloadEventView::Downloading { job_id } => job_id,
            DownloadEventView::Converting { job_id, .. } => job_id,
            DownloadEventView::Completed { job_id, .. } => job_id,
            DownloadEventView::Cancelled { job_id } => job_id,
            DownloadEventView::Failed { job_id, .. } => job_id,
        }
    }
}

impl DownloadEvent {
    /// The job that this event belongs to.
    pub fn job_id(&self) -> (result: &str)
        ensures
            result@ == self@.job(),
    {
        match self {
            DownloadEvent::Queued { job_id, .. } => job_id.as_str(),
            DownloadEvent::Downloading { job_id } => job_id.as_str(),
            DownloadEvent::Converting { job_id, .. } => job_id.as_str(),
            DownloadEvent::Completed { job_id, .. } => job_id.as_str(),
            DownloadEvent::Cancelled { job_id } => job_id.as_str(),
            DownloadEvent::Failed { job_id, .. } => job_id.as_str(),
        }
    }
}

/// Each kind of result has a word of its own.
pub proof fn lemma_kinds_named(a: SearchKind, b: SearchKind)
    ensures
        kind_label(a) == kind_label(b) ==> a == b,
        kind_label(a) == match a {
            SearchKind::Track => "faixa"@,
            SearchKind::Album => "album"@,
            SearchKind::Playlist => "playlist"@,
            SearchKind::Unknown => "item"@,
        },
{
    reveal_strlit("faixa");
    reveal_strlit("album");
    reveal_strlit("playlist");
    reveal_strlit("item");
    assert("faixa"@[0] == 'f' && "album"@[0] == 'a' && "playlist"@[0] == 'p' && "item"@[0] == 'i');
}

} // verus!
