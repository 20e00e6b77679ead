//! The transfers workspace: download jobs, and the requests on their way to the service.

use vstd::prelude::*;

use crate::db;
use crate::db::albums;
use crate::db::records;
use crate::db::LibraryDb;
use crate::db::LibraryView;
use crate::model::AlbumDraft;
use crate::model::AlbumDraftView;
use crate::model::DownloadEvent;
use crate::model::DownloadEventView;
use crate::model::DownloadRequest;
use crate::model::DownloadRequestView;
use crate::model::TrackDraft;
use crate::model::TrackDraftView;
use crate::model;
use crate::text;
use crate::tui;
use crate::tui::Action;
use crate::tui::ActionView;
use crate::tui::App;
use crate::tui::AppView;
use crate::tui::JobEntry;
use crate::tui::JobEntryView;
use crate::tui::MAX_JOB_HISTORY;

verus! {

/// The position of a job, or the number of jobs.
pub open spec fn job_position(jobs: Seq<JobEntryView>, id: Seq<char>) -> int
    decreases jobs.len(),
{
    if jobs.len() == 0 || jobs[0].id == id {
        0
    } else {
        1 + job_position(jobs.skip(1), id)
    }
}

/// Whether a job that is in this state goes on by itself.
pub open spec fn under_way(state: Seq<char>) -> bool {
    state == "na fila"@ || state == "baixando"@ || text::begins_with(state, "convertendo"@)
}

/// What a job is called that comes of a request.
pub open spec fn request_title(request: DownloadRequestView) -> Seq<char> {
    match request.album {
        Some(album) => album.title,
        None => if request.items.len() > 0 {
            request.items[0].title
        } else {
            "Download"@
        },
    }
}

/// The library with the state of a job noted.
#[verifier::opaque]
pub open spec fn job_kept(
    view: LibraryView,
    id: Seq<char>,
    title: Seq<char>,
    state: Seq<char>,
    error: Option<Seq<char>>,
) -> LibraryView {
    LibraryView { jobs: records::job_noted(view.jobs, id, title, state, error), ..view }
}

/// The tracks with drafts stored one after the other, up to the first that cannot be; and why it
/// cannot.
pub open spec fn stored_in_turn(
    view: LibraryView,
    drafts: Seq<TrackDraftView>,
) -> (LibraryView, Option<Seq<char>>)
    decreases drafts.len(),
{
    if drafts.len() == 0 {
        (view, None)
    } else {
        let before = stored_in_turn(view, drafts.drop_last());
        match before.1 {
            Some(_) => before,
            None => match db::upsert_fault(before.0.tracks, drafts.last()) {
                Some(message) => (before.0, Some(message)),
                None => (
                    LibraryView {
                        tracks: db::upserted(before.0.tracks, drafts.last()),
                        ..before.0
                    },
                    None,
                ),
            },
        }
    }
}

/// What comes of storing what a download brought.
pub struct Delivery {
    pub db: LibraryView,
    /// What has to be kept.
    pub kept: Option<ActionView>,
    /// Why something could not be stored.
    pub fault: Option<Seq<char>>,
}

/// What comes of storing what a download brought: an album whole or not at all, single tracks in
/// turn.
#[verifier::opaque]
pub open spec fn delivered(
    view: LibraryView,
    drafts: Seq<TrackDraftView>,
    album: Option<AlbumDraftView>,
) -> Delivery {
    match album {
        Some(draft) => match albums::album_fault(view, draft, drafts) {
            Some(message) => Delivery { db: view, kept: None, fault: Some(message) },
            None => Delivery {
                db: albums::album_stored(view, draft, drafts),
                kept: Some(
                    ActionView::StoreAlbum { id: albums::album_id(view.albums, draft) as i64 },
                ),
                fault: None,
            },
        },
        None => {
            let stored = stored_in_turn(view, drafts);
            Delivery { db: stored.0, kept: Some(ActionView::StoreTracks), fault: stored.1 }
        },
    }
}

/// An optional action.
pub open spec fn shown_action(action: Option<Action>) -> Option<ActionView> {
    match action {
        Some(inner) => Some(inner@),
        None => None,
    }
}

impl AppView {
    /// One more job at the end of the list; the oldest one gives way where there are too many.
    #[verifier::opaque]
    pub open spec fn job_added(self, id: Seq<char>, title: Seq<char>) -> AppView {
        let full = self.jobs.len() >= MAX_JOB_HISTORY;
        let kept = if full {
            self.jobs.remove(0)
        } else {
            self.jobs
        };
        (AppView {
            jobs: kept.push(JobEntryView { id, title, state: "na fila"@, error: None }),
            job_index: if full {
                tui::previous_row(self.job_index)
            } else {
                self.job_index
            },
            db: job_kept(self.db, id, title, "queued"@, None),
            ..self
        }).asked(ActionView::StoreJob { job_id: id })
    }

    /// A job in another state.
    #[verifier::opaque]
    pub open spec fn job_moved(
        self,
        id: Seq<char>,
        state: Seq<char>,
        error: Option<Seq<char>>,
    ) -> AppView {
        let at = job_position(self.jobs, id);
        if at < self.jobs.len() {
            (AppView {
                jobs: self.jobs.update(at, JobEntryView { state, error, ..self.jobs[at] }),
                db: job_kept(self.db, id, self.jobs[at].title, state, error),
                ..self
            }).asked(ActionView::StoreJob { job_id: id })
        } else {
            self
        }
    }

    /// What the download service reports.
    #[verifier::opaque]
    pub open spec fn download_reported(self, event: DownloadEventView) -> AppView {
        match event {
            DownloadEventView::Queued { job_id, title } => self.job_added(job_id, title),
            DownloadEventView::Downloading { job_id } => self.job_moved(job_id, "baixando"@, None),
            DownloadEventView::Converting { job_id, current, total } => self.job_moved(
                job_id,
                "convertendo "@ + text::decimal_text(current as nat) + "/"@ + text::decimal_text(
                    total as nat,
                ),
                None,
            ),
            DownloadEventView::Completed { job_id, tracks, album } => {
                let delivery = delivered(self.db, tracks, album);
                let stored = AppView { db: delivery.db, ..self };
                let changed = match delivery.kept {
                    Some(action) => stored.asked(action),
                    None => stored,
                };
                match delivery.fault {
                    None => changed.job_moved(job_id, "concluido"@, None).refreshed(),
                    Some(message) => changed.job_moved(job_id, "erro"@, Some(message)),
                }
            },
            DownloadEventView::Cancelled { job_id } => self.job_moved(job_id, "cancelado"@, None),
            DownloadEventView::Failed { job_id, error } => self.job_moved(
                job_id,
                "erro"@,
                Some(error),
            ),
        }
    }

    /// The jobs without an old one that a request asks for again.
    pub open spec fn job_forgotten(self, id: Seq<char>) -> AppView {
        let at = job_position(self.jobs, id);
        if at < self.jobs.len() {
            AppView { jobs: self.jobs.remove(at), ..self }
        } else {
            self
        }
    }

    /// Whether a job is under way.
    pub open spec fn job_running(self, id: Seq<char>) -> bool {
        let at = job_position(self.jobs, id);
        at < self.jobs.len() && under_way(self.jobs[at].state)
    }

    /// The requests on their way: one whose job is under way is dropped, the next one is handed to
    /// the service, and those after it wait for its answer.
    pub open spec fn requests_sent(self) -> AppView
        decreases self.waiting.len(),
    {
        if self.waiting.len() == 0 {
            self
        } else {
            let request = self.waiting[0];
            let rest = AppView { waiting: self.waiting.skip(1), ..self };
            if self.job_running(request.job_id) {
                rest.requests_sent()
            } else {
                let cleared = rest.job_forgotten(request.job_id);
                if self.service {
                    cleared.asked(
                        ActionView::Enqueue { request, title: request_title(request) },
                    )
                } else {
                    (AppView {
                        status: "Servico de downloads indisponivel."@,
                        ..cleared
                    }).requests_sent()
                }
            }
        }
    }

    /// What the service answers to a request.
    #[verifier::opaque]
    pub open spec fn enqueue_answered(
        self,
        job_id: Seq<char>,
        title: Seq<char>,
        result: Result<(), Seq<char>>,
    ) -> AppView {
        match result {
            Ok(()) => self.download_reported(DownloadEventView::Queued { job_id, title }),
            Err(message) => self.said("Falha ao enfileirar: "@ + message),
        }.requests_sent()
    }

    /// Cancelling the selected job.
    #[verifier::opaque]
    pub open spec fn cancel_asked(self) -> AppView {
        if self.service && self.job_index < self.jobs.len() {
            self.asked(
                ActionView::Cancel {
                    job_id: self.jobs[self.job_index].id,
                    title: self.jobs[self.job_index].title,
                },
            )
        } else {
            self
        }
    }

    /// What the service answers to a cancellation.
    #[verifier::opaque]
    pub open spec fn cancel_answered(self, title: Seq<char>, found: bool) -> AppView {
        if found {
            self.said("Cancelando "@ + title + "..."@)
        } else {
            self
        }
    }
}

fn keep_job(db: &mut LibraryDb, id: &str, title: &str, state: &str, error: &Option<String>)
    requires
        tui::sound(old(db)@),
    ensures
        tui::sound(final(db)@),
        final(db)@ == job_kept(old(db)@, id@, title@, state@, text::shown(*error)),
{
    reveal(tui::sound);
    reveal(job_kept);
    match error {
        Some(message) => db.record_job(id, title, state, Some(message.as_str())),
        None => db.record_job(id, title, state, None),
    }
}

fn store_in_turn(db: &mut LibraryDb, drafts: &Vec<TrackDraft>) -> (result: Option<String>)
    requires
        old(db)@.well_formed(),
    ensures
        final(db)@.well_formed(),
        stored_in_turn(old(db)@, text::views(drafts@)) == (final(db)@, text::shown(result)),
{
    let ghost start = db@;
    let ghost all = text::views(drafts@);
    let mut i: usize = 0;
    while i < drafts.len()
        invariant
            all == text::views(drafts@),
            start == old(db)@,
            i <= drafts@.len(),
            db@.well_formed(),
            stored_in_turn(start, all.take(i as int)) == (db@, None::<Seq<char>>),
        decreases drafts@.len() - i,
    {
        proof {
            assert(all.take(i + 1).drop_last() =~= all.take(i as int));
            assert(all[i as int] == drafts@[i as int]@);
        }
        match db.upsert_track(&drafts[i]) {
            Ok(_) => {},
            Err(message) => {
                proof {
                    lemma_stops(start, all, i + 1);
                }
                return Some(message);
            },
        }
        i += 1;
    }
    assert(all.take(all.len() as int) =~= all);
    None
}

proof fn lemma_stops(view: LibraryView, drafts: Seq<TrackDraftView>, n: int)
    requires
        0 <= n <= drafts.len(),
        stored_in_turn(view, drafts.take(n)).1 is Some,
    ensures
        stored_in_turn(view, drafts) == stored_in_turn(view, drafts.take(n)),
    decreases drafts.len() - n,
{
    if n < drafts.len() {
        assert(drafts.take(n + 1).drop_last() =~= drafts.take(n));
        lemma_stops(view, drafts, n + 1);
    } else {
        assert(drafts.take(n) =~= drafts);
    }
}

fn store_download(db: &mut LibraryDb, drafts: &Vec<TrackDraft>, album: &Option<AlbumDraft>) -> (result: (
    Option<Action>,
    Option<String>,
))
    requires
        tui::sound(old(db)@),
    ensures
        tui::sound(final(db)@),
        delivered(old(db)@, text::views(drafts@), model::shown_album(*album)) == (Delivery {
            db: final(db)@,
            kept: shown_action(result.0),
            fault: text::shown(result.1),
        }),
{
    reveal(tui::sound);
    reveal(delivered);
    match album {
        Some(draft) => match db.upsert_album(draft, drafts) {
            Ok(id) => (Some(Action::StoreAlbum { id }), None),
            Err(message) => (None, Some(message)),
        },
        None => {
            let fault = store_in_turn(db, drafts);
            (Some(Action::StoreTracks), fault)
        },
    }
}

pub(crate) fn is_under_way(state: &str) -> (result: bool)
    ensures
        result == under_way(state@),
{
    text::same_text(state, "na fila") || text::same_text(state, "baixando") || text::has_prefix(
        state,
        "convertendo",
    )
}

fn title_of(request: &DownloadRequest) -> (result: String)
    ensures
        result@ == request_title(request@),
{
    match &request.album {
        Some(album) => album.title.clone(),
        None => if request.items.len() > 0 {
            assert(request@.items[0] == request.items@[0]@);
            request.items[0].title.clone()
        } else {
            "Download".to_owned()
        },
    }
}

impl App {
    fn find_job(&self, id: &str) -> (result: usize)
        ensures
            result == job_position(self@.jobs, id@),
            result <= self.jobs@.len(),
    {
        let mut i: usize = 0;
        assert(self@.jobs.skip(0) =~= self@.jobs);
        while i < self.jobs.len()
            invariant
                i <= self.jobs@.len(),
                job_position(self@.jobs, id@) == i + job_position(self@.jobs.skip(i as int), id@),
            decreases self.jobs@.len() - i,
        {
            assert(self@.jobs[i as int] == self.jobs@[i as int]@);
            if text::same_text(self.jobs[i].id.as_str(), id) {
                return i;
            }
            assert(self@.jobs.skip(i as int).skip(1) =~= self@.jobs.skip(i + 1));
            i += 1;
        }
        i
    }

    fn push_job(&mut self, entry: JobEntry)
        requires
            old(self)@.well_formed(),
        ensures
            final(self)@ == (AppView {
                jobs: (if old(self)@.jobs.len() >= MAX_JOB_HISTORY {
                    old(self)@.jobs.remove(0)
                } else {
                    old(self)@.jobs
                }).push(entry@),
                job_index: if old(self)@.jobs.len() >= MAX_JOB_HISTORY {
                    tui::previous_row(old(self)@.job_index)
                } else {
                    old(self)@.job_index
                },
                ..old(self)@
            }),
            final(self)@.well_formed(),
    {
        if self.jobs.len() >= MAX_JOB_HISTORY {
            self.jobs.remove(0);
            self.job_index = tui::previous_index(self.job_index);
            assert(text::views(self.jobs@) =~= old(self)@.jobs.remove(0));
        }
        let ghost kept = text::views(self.jobs@);
        self.jobs.push(entry);
        assert(text::views(self.jobs@) =~= kept.push(entry@));
    }

    fn add_job(&mut self, id: String, title: String)
        requires
            old(self)@.well_formed(),
        ensures
            final(self)@ == old(self)@.job_added(id@, title@),
            final(self)@.well_formed(),
    {
        reveal(AppView::job_added);
        let job_id = id.clone();
        keep_job(&mut self.db, id.as_str(), title.as_str(), "queued", &None);
        self.push_job(JobEntry { id, title, state: "na fila".to_owned(), error: None });
        self.ask(Action::StoreJob { job_id });
    }

    /// Moves a job into another state.
    pub fn update_job(&mut self, id: &str, state: &str, error: Option<String>)
        requires
            old(self)@.well_formed(),
        ensures
            final(self)@ == old(self)@.job_moved(id@, state@, text::shown(error)),
            final(self)@.well_formed(),
    {
        reveal(AppView::job_moved);
        let at: usize = self.find_job(id);
        if at >= self.jobs.len() {
            return;
        }
        assert(self@.jobs[at as int] == self.jobs@[at as int]@);
        let title = self.jobs[at].title.clone();
        let entry = JobEntry {
            id: self.jobs[at].id.clone(),
            title: self.jobs[at].title.clone(),
            state: state.to_owned(),
            error: text::copied(&error),
        };
        self.set_job(at, entry);
        let ghost jobs = self@.jobs;
        keep_job(&mut self.db, id, title.as_str(), state, &error);
        assert(self@ =~= (AppView { jobs, db: self@.db, ..old(self)@ }));
        self.ask(Action::StoreJob { job_id: id.to_owned() });
    }

    fn set_job(&mut self, at: usize, entry: JobEntry)
        requires
            at < old(self).jobs@.len(),
        ensures
            final(self)@ == (AppView {
                jobs: old(self)@.jobs.update(at as int, entry@),
                ..old(self)@
            }),
            old(self)@.well_formed() ==> final(self)@.well_formed(),
    {
        self.jobs.set(at, entry);
        assert(text::views(self.jobs@) =~= old(self)@.jobs.update(at as int, entry@));
    }

    fn store_completed(&mut self, job_id: &str, tracks: &Vec<TrackDraft>, album: &Option<AlbumDraft>)
        requires
            old(self)@.well_formed(),
        ensures
            final(self)@ == old(self)@.download_reported(
                DownloadEventView::Completed {
                    job_id: job_id@,
                    tracks: text::views(tracks@),
                    album: model::shown_album(*album),
                },
            ),
            final(self)@.well_formed(),
    {
        reveal(AppView::download_reported);
        let (kept, fault) = store_download(&mut self.db, tracks, album);
        assert(self@ =~= (AppView { db: self@.db, ..old(self)@ }));
        match kept {
            Some(action) => {
                self.ask(action);
            },
            None => {},
        }
        match fault {
            None => {
                self.update_job(job_id, "concluido", None);
                self.refresh_library();
            },
            Some(message) => {
                self.update_job(job_id, "erro", Some(message));
            },
        }
    }

    /// Takes in what the download service reports.
    pub fn handle_download(&mut self, event: DownloadEvent)
        requires
            old(self)@.well_formed(),
        ensures
            final(self)@ == old(self)@.download_reported(event@),
            final(self)@.well_formed(),
    {
        reveal(AppView::download_reported);
        match event {
            DownloadEvent::Queued { job_id, title } => {
                self.add_job(job_id, title);
            },
            DownloadEvent::Downloading { job_id } => {
                self.update_job(job_id.as_str(), "baixando", None);
            },
            DownloadEvent::Converting { job_id, current, total } => {
                let mut state = "convertendo ".to_owned();
                state.push_str(text::decimal(current as u64).as_str());
                state.push_str("/");
                state.push_str(text::decimal(total as u64).as_str());
                self.update_job(job_id.as_str(), state.as_str(), None);
            },
            DownloadEvent::Completed { job_id, tracks, album } => {
                self.store_completed(job_id.as_str(), &tracks, &album);
            },
            DownloadEvent::Cancelled { job_id } => {
                self.update_job(job_id.as_str(), "cancelado", None);
            },
            DownloadEvent::Failed { job_id, error } => {
                self.update_job(job_id.as_str(), "erro", Some(error));
            },
        }
    }

    fn take_request(&mut self) -> (result: DownloadRequest)
        requires
            old(self)@.well_formed(),
            old(self)@.waiting.len() > 0,
        ensures
            result@ == old(self)@.waiting[0],
            final(self)@ == (AppView { waiting: old(self)@.waiting.skip(1), ..old(self)@ }),
            final(self)@.well_formed(),
    {
        let request = self.waiting.remove(0);
        assert(text::views(self.waiting@) =~= old(self)@.waiting.skip(1));
        assert(self@ =~= (AppView { waiting: old(self)@.waiting.skip(1), ..old(self)@ }));
        request
    }

    fn forget_job(&mut self, id: &str)
        requires
            old(self)@.well_formed(),
        ensures
            final(self)@ == old(self)@.job_forgotten(id@),
            final(self)@.well_formed(),
    {
        let at: usize = self.find_job(id);
        if at < self.jobs.len() {
            self.jobs.remove(at);
            assert(text::views(self.jobs@) =~= old(self)@.jobs.remove(at as int));
            assert(self@ =~= old(self)@.job_forgotten(id@));
        }
    }

    fn is_running(&self, id: &str) -> (result: bool)
        ensures
            result == self@.job_running(id@),
    {
        let at: usize = self.find_job(id);
        if at < self.jobs.len() {
            assert(self@.jobs[at as int] == self.jobs@[at as int]@);
            is_under_way(self.jobs[at].state.as_str())
        } else {
            false
        }
    }

    /// Hands the next request to the service.
    pub fn send_requests(&mut self)
        requires
            old(self)@.well_formed(),
        ensures
            final(self)@ == old(self)@.requests_sent(),
            final(self)@.well_formed(),
    {
        while self.waiting.len() > 0
            invariant
                self@.well_formed(),
                self@.requests_sent() == old(self)@.requests_sent(),
            decreases self@.waiting.len(),
        {
            let ghost before = self@;
            let request = self.take_request();
            let running = self.is_running(request.job_id.as_str());
            assert(running == before.job_running(request@.job_id));
            if !running {
                self.forget_job(request.job_id.as_str());
                if self.service {
                    let title = title_of(&request);
                    self.ask(Action::Enqueue { request, title });
                    return;
                }
                self.tell_unavailable();
            }
        }
    }

    fn tell_unavailable(&mut self)
        ensures
            final(self)@ == (AppView {
                status: "Servico de downloads indisponivel."@,
                ..old(self)@
            }),
            old(self)@.well_formed() ==> final(self)@.well_formed(),
    {
        self.status = "Servico de downloads indisponivel.".to_owned();
    }

    /// Takes in what the service answers to a request.
    pub fn enqueue_finished(&mut self, job_id: String, title: String, result: Result<(), String>)
        requires
            old(self)@.well_formed(),
        ensures
            final(self)@ == old(self)@.enqueue_answered(
                job_id@,
                title@,
                match result {
                    Ok(()) => Ok(()),
                    Err(message) => Err(message@),
                },
            ),
            final(self)@.well_formed(),
    {
        reveal(AppView::enqueue_answered);
        match result {
            Ok(()) => {
                self.handle_download(DownloadEvent::Queued { job_id, title });
            },
            Err(message) => {
                self.say_with("Falha ao enfileirar: ", message.as_str());
            },
        }
        self.send_requests();
    }

    /// Cancels the selected job.
    pub fn cancel_selected(&mut self)
        requires
            old(self)@.well_formed(),
        ensures
            final(self)@ == old(self)@.cancel_asked(),
            final(self)@.well_formed(),
    {
        reveal(AppView::cancel_asked);
        let at: usize = self.job_index;
        if self.service && at < self.jobs.len() {
            assert(self@.jobs[at as int] == self.jobs@[at as int]@);
            let job_id = self.jobs[at].id.clone();
            let title = self.jobs[at].title.clone();
            self.ask(Action::Cancel { job_id, title });
        }
    }

    /// Takes in what the service answers to a cancellation.
    pub fn cancel_finished(&mut self, title: &str, found: bool)
        requires
            old(self)@.well_formed(),
        ensures
            final(self)@ == old(self)@.cancel_answered(title@, found),
            final(self)@.well_formed(),
    {
        reveal(AppView::cancel_answered);
        if found {
            self.say_of("Cancelando ", title, "...");
        }
    }
}

/// A request for a job that is under way sends nothing and changes no job.
pub proof fn lemma_no_second_job(app: AppView)
    requires
        app.waiting.len() == 1,
        app.job_running(app.waiting[0].job_id),
    ensures
        app.requests_sent() == (AppView { waiting: Seq::empty(), ..app }),
{
    let rest = AppView { waiting: app.waiting.skip(1), ..app };
    assert(app.waiting.skip(1) =~= Seq::empty());
    assert(rest.requests_sent() == rest);
}

proof fn lemma_job_position(jobs: Seq<JobEntryView>, id: Seq<char>)
    ensures
        0 <= job_position(jobs, id) <= jobs.len(),
        job_position(jobs, id) < jobs.len() ==> jobs[job_position(jobs, id)].id == id,
        forall|i: int| 0 <= i < job_position(jobs, id) ==> (#[trigger] jobs[i]).id != id,
    decreases jobs.len(),
{
    if jobs.len() > 0 && jobs[0].id != id {
        let rest = jobs.skip(1);
        lemma_job_position(rest, id);
        assert forall|i: int| 0 <= i < job_position(jobs, id) implies (#[trigger] jobs[i]).id
            != id by {
            if i > 0 {
                assert(rest[i - 1] == jobs[i]);
            }
        }
    }
}

/// A new job waits at the end of the list under its own title, and the library notes it; of five
/// hundred and twelve jobs the oldest gives way.
pub proof fn lemma_job_listed(app: AppView, id: Seq<char>, title: Seq<char>)
    ensures
        ({
            let after = app.job_added(id, title);
            &&& after.jobs.last().id == id
            &&& after.jobs.last().title == title
            &&& after.jobs.last().state == "na fila"@
            &&& after.jobs.last().error is None
            &&& app.jobs.len() < 512 ==> after.jobs.drop_last() == app.jobs
            &&& app.jobs.len() >= 512 ==> after.jobs.drop_last() == app.jobs.skip(1)
            &&& after.actions == app.actions.push(ActionView::StoreJob { job_id: id })
            &&& after.db.jobs == records::job_noted(app.db.jobs, id, title, "queued"@, None)
            &&& after.db.tracks == app.db.tracks
            &&& app.download_reported(DownloadEventView::Queued { job_id: id, title }) == after
        }),
{
    reveal(AppView::job_added);
    reveal(AppView::download_reported);
    reveal(AppView::asked);
    reveal(job_kept);
    let after = app.job_added(id, title);
    if app.jobs.len() >= 512 {
        assert(after.jobs.drop_last() =~= app.jobs.skip(1));
    } else {
        assert(after.jobs.drop_last() =~= app.jobs);
    }
}

/// A report changes the state of its own job and of no other; a job that is not listed changes
/// nothing.
pub proof fn lemma_job_moved(app: AppView, id: Seq<char>, state: Seq<char>, error: Option<Seq<char>>)
    ensures
        ({
            let after = app.job_moved(id, state, error);
            let at = job_position(app.jobs, id);
            let listed = exists|i: int| 0 <= i < app.jobs.len() && (#[trigger] app.jobs[i]).id == id;
            &&& !listed ==> after == app
            &&& listed ==> {
                &&& 0 <= at < app.jobs.len()
                &&& app.jobs[at].id == id
                &&& after.jobs.len() == app.jobs.len()
                &&& after.jobs[at].id == id
                &&& after.jobs[at].title == app.jobs[at].title
                &&& after.jobs[at].state == state
                &&& after.jobs[at].error == error
                &&& forall|i: int|
                    0 <= i < app.jobs.len() && i != at ==> #[trigger] after.jobs[i] == app.jobs[i]
                &&& after.actions == app.actions.push(ActionView::StoreJob { job_id: id })
                &&& after.db.jobs == records::job_noted(
                    app.db.jobs,
                    id,
                    app.jobs[at].title,
                    state,
                    error,
                )
                &&& after.db.tracks == app.db.tracks
            }
        }),
{
    reveal(AppView::job_moved);
    reveal(AppView::asked);
    reveal(job_kept);
    lemma_job_position(app.jobs, id);
}

/// Each report of the service puts its job into the state that it tells: fetching, converting so many
/// of so many, cancelled, or failed with its error.
pub proof fn lemma_reports_told(
    app: AppView,
    id: Seq<char>,
    current: usize,
    total: usize,
    error: Seq<char>,
)
    ensures
        app.download_reported(DownloadEventView::Downloading { job_id: id }) == app.job_moved(
            id,
            "baixando"@,
            None,
        ),
        app.download_reported(DownloadEventView::Converting { job_id: id, current, total })
            == app.job_moved(
            id,
            "convertendo "@ + text::decimal_text(current as nat) + "/"@ + text::decimal_text(
                total as nat,
            ),
            None,
        ),
        app.download_reported(DownloadEventView::Cancelled { job_id: id }) == app.job_moved(
            id,
            "cancelado"@,
            None,
        ),
        app.download_reported(DownloadEventView::Failed { job_id: id, error }) == app.job_moved(
            id,
            "erro"@,
            Some(error),
        ),
{
    reveal(AppView::download_reported);
}

proof fn lemma_in_turn(view: LibraryView, drafts: Seq<TrackDraftView>)
    requires
        db::drafts_fault(view.tracks, drafts) is None,
    ensures
        stored_in_turn(view, drafts).1 is None,
        stored_in_turn(view, drafts).0 == (LibraryView {
            tracks: db::all_upserted(view.tracks, drafts),
            ..view
        }),
    decreases drafts.len(),
{
    if drafts.len() > 0 {
        lemma_in_turn(view, drafts.drop_last());
    }
}

/// What a completed download brought is in the library: an album with all of its tracks, or every
/// single track; and its job is done. Where it could not be stored, the job says why.
pub proof fn lemma_completed_stored(
    app: AppView,
    id: Seq<char>,
    drafts: Seq<TrackDraftView>,
    album: Option<AlbumDraftView>,
)
    ensures
        ({
            let event = DownloadEventView::Completed { job_id: id, tracks: drafts, album };
            let after = app.download_reported(event);
            let listed = job_position(app.jobs, id) < app.jobs.len();
            let at = job_position(app.jobs, id);
            &&& album matches Some(draft) ==> (albums::album_fault(app.db, draft, drafts) is None
                ==> {
                &&& after.db.tracks == albums::album_stored(app.db, draft, drafts).tracks
                &&& after.db.albums == albums::album_stored(app.db, draft, drafts).albums
                &&& after.actions.contains(
                    ActionView::StoreAlbum { id: albums::album_id(app.db.albums, draft) },
                )
                &&& listed ==> after.jobs[at].state == "concluido"@ && after.jobs[at].error is None
            })
            &&& album matches Some(draft) ==> (albums::album_fault(
                app.db,
                draft,
                drafts,
            ) matches Some(message) ==> {
                &&& after.db.tracks == app.db.tracks
                &&& after.db.albums == app.db.albums
                &&& listed ==> after.jobs[at].state == "erro"@ && after.jobs[at].error == Some(
                    message,
                )
            })
            &&& album is None && db::drafts_fault(app.db.tracks, drafts) is None ==> {
                &&& after.db.tracks == db::all_upserted(app.db.tracks, drafts)
                &&& after.db.albums == app.db.albums
                &&& after.actions.contains(ActionView::StoreTracks)
                &&& listed ==> after.jobs[at].state == "concluido"@ && after.jobs[at].error is None
            }
            &&& after.db.playlists == app.db.playlists
            &&& after.db.queue == app.db.queue
        }),
{
    reveal(AppView::download_reported);
    reveal(AppView::job_moved);
    reveal(AppView::asked);
    reveal(AppView::refreshed);
    reveal(delivered);
    reveal(job_kept);
    lemma_job_position(app.jobs, id);
    let event = DownloadEventView::Completed { job_id: id, tracks: drafts, album };
    let after = app.download_reported(event);
    let delivery = delivered(app.db, drafts, album);
    if delivery.kept is Some {
        assert(after.actions[app.actions.len() as int] == delivery.kept->0);
    }
    if album is None {
        lemma_turn_spares(app.db, drafts);
        if db::drafts_fault(app.db.tracks, drafts) is None {
            lemma_in_turn(app.db, drafts);
        }
    }
}

proof fn lemma_turn_spares(view: LibraryView, drafts: Seq<TrackDraftView>)
    ensures
        stored_in_turn(view, drafts).0.playlists == view.playlists,
        stored_in_turn(view, drafts).0.queue == view.queue,
        stored_in_turn(view, drafts).0.albums == view.albums,
        stored_in_turn(view, drafts).0.jobs == view.jobs,
    decreases drafts.len(),
{
    if drafts.len() > 0 {
        lemma_turn_spares(view, drafts.drop_last());
    }
}

/// A request is handed to the service in its turn and whole, under the title of its album or of its
/// first item; what a finished job of the same name left in the list goes. Those behind it wait.
pub proof fn lemma_request_sent(app: AppView)
    requires
        app.waiting.len() > 0,
        app.service,
        !app.job_running(app.waiting[0].job_id),
    ensures
        ({
            let (request, after) = (app.waiting[0], app.requests_sent());
            &&& after.waiting == app.waiting.skip(1)
            &&& after.actions.len() == app.actions.len() + 1
            &&& after.actions.last() is Enqueue
            &&& after.actions.last()->Enqueue_request == request
            &&& request.album matches Some(album) ==> after.actions.last()->Enqueue_title
                == album.title
            &&& request.album is None && request.items.len() > 0
                ==> after.actions.last()->Enqueue_title == request.items[0].title
            &&& forall|i: int|
                0 <= i < app.jobs.len() && (#[trigger] app.jobs[i]).id != request.job_id
                    ==> after.jobs.contains(app.jobs[i])
        }),
{
    reveal(AppView::asked);
    let request = app.waiting[0];
    let after = app.requests_sent();
    let at = job_position(app.jobs, request.job_id);
    lemma_job_position(app.jobs, request.job_id);
    assert forall|i: int| 0 <= i < app.jobs.len() && (#[trigger] app.jobs[i]).id
        != request.job_id implies after.jobs.contains(app.jobs[i]) by {
        if at < app.jobs.len() {
            if i < at {
                assert(after.jobs[i] == app.jobs[i]);
            } else {
                assert(after.jobs[i - 1] == app.jobs[i]);
            }
        } else {
            assert(after.jobs[i] == app.jobs[i]);
        }
    }
}

/// A job is under way while it waits, is fetched or is converted, and in no other state.
pub proof fn lemma_states_under_way(rest: Seq<char>)
    ensures
        under_way("na fila"@),
        under_way("baixando"@),
        under_way("convertendo"@ + rest),
        !under_way("concluido"@),
        !under_way("cancelado"@),
        !under_way("erro"@),
{
    reveal_strlit("na fila");
    reveal_strlit("baixando");
    reveal_strlit("convertendo");
    reveal_strlit("concluido");
    reveal_strlit("cancelado");
    reveal_strlit("erro");
    text::lemma_occurs_between(Seq::empty(), "convertendo"@, rest);
    assert("concluido"@.len() == 9);
    assert("cancelado"@[0] == 'c' && "baixando"@[0] == 'b' && "erro"@[0] == 'e');
}

/// The job under the cursor is the one that is cancelled.
pub proof fn lemma_selected_cancelled(app: AppView)
    requires
        app.service,
        0 <= app.job_index < app.jobs.len(),
    ensures
        app.cancel_asked().actions == app.actions.push(
            ActionView::Cancel {
                job_id: app.jobs[app.job_index].id,
                title: app.jobs[app.job_index].title,
            },
        ),
        app.cancel_asked().jobs == app.jobs,
{
    reveal(AppView::cancel_asked);
    reveal(AppView::asked);
}

/// A request that the service took becomes a job under its title; one that it refused is told with the
/// reason; either way the next one has its turn. A cancellation is told where the job was found.
pub proof fn lemma_service_answers(
    app: AppView,
    id: Seq<char>,
    title: Seq<char>,
    message: Seq<char>,
)
    ensures
        app.enqueue_answered(id, title, Ok(())) == app.job_added(id, title).requests_sent(),
        app.enqueue_answered(id, title, Err(message)) == (AppView {
            status: "Falha ao enfileirar: "@ + message,
            ..app
        }).requests_sent(),
        text::occurs_in(app.cancel_answered(title, true).status, title),
        app.cancel_answered(title, true).jobs == app.jobs,
        app.cancel_answered(title, false) == app,
{
    reveal(AppView::enqueue_answered);
    reveal(AppView::cancel_answered);
    reveal(AppView::download_reported);
    reveal(AppView::said);
    text::lemma_occurs_between("Cancelando "@, title, "..."@);
}

/// Single tracks are stored one after another: those before the first that is refused are kept, and
/// the job says why it was refused.
pub proof fn lemma_stored_until_refused(
    app: AppView,
    id: Seq<char>,
    before: Seq<TrackDraftView>,
    refused: TrackDraftView,
    message: Seq<char>,
)
    requires
        db::drafts_fault(app.db.tracks, before) is None,
        db::upsert_fault(db::all_upserted(app.db.tracks, before), refused) == Some(message),
    ensures
        ({
            let event = DownloadEventView::Completed {
                job_id: id,
                tracks: before.push(refused),
                album: None,
            };
            let after = app.download_reported(event);
            let at = job_position(app.jobs, id);
            &&& after.db.tracks == db::all_upserted(app.db.tracks, before)
            &&& at < app.jobs.len() ==> after.jobs[at].state == "erro"@ && after.jobs[at].error
                == Some(message)
        }),
{
    reveal(AppView::download_reported);
    reveal(AppView::job_moved);
    reveal(AppView::asked);
    reveal(AppView::refreshed);
    reveal(delivered);
    reveal(job_kept);
    lemma_in_turn(app.db, before);
    lemma_job_position(app.jobs, id);
    assert(before.push(refused).drop_last() =~= before);
}

/// A job runs while the first entry of its name is under way; a name that is not listed does not.
pub proof fn lemma_job_running(app: AppView, id: Seq<char>, at: int)
    requires
        0 <= at <= app.jobs.len(),
        forall|i: int| 0 <= i < at ==> (#[trigger] app.jobs[i]).id != id,
    ensures
        at == app.jobs.len() ==> !app.job_running(id),
        at < app.jobs.len() && app.jobs[at].id == id ==> (app.job_running(id) <==> under_way(
            app.jobs[at].state,
        )),
{
    lemma_job_position(app.jobs, id);
    let found = job_position(app.jobs, id);
    if at < app.jobs.len() && app.jobs[at].id == id {
        assert(found == at) by {
            if found < at {
                assert(app.jobs[found].id != id);
            }
        }
    }
}

} // verus!
