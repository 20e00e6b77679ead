//! What came of the work in the background, and importing a folder.

use vstd::prelude::*;

use crate::db::import;
use crate::db::import::FoundPath;
use crate::db::import::FoundPathView;
use crate::db::LibraryDb;
use crate::db::LibraryView;
use crate::model::DownloadRequest;
use crate::model::DownloadRequestView;
use crate::model::SearchItem;
use crate::model::SearchItemView;
use crate::model::SearchKind;
use crate::player::PlayerEvent;
use crate::text;
use crate::tui;
use crate::tui::search;
use crate::tui::Action;
use crate::tui::ActionView;
use crate::tui::App;
use crate::tui::AppView;
use crate::tui::Screen;

verus! {

/// What came of preparing downloads.
pub enum Prepared {
    /// The results could not be resolved, or a helper program is missing.
    Failed(String),
    /// The download service could not be started.
    ServiceFailed(String),
    /// The service runs and gets these requests.
    Ready(Vec<DownloadRequest>),
}

/// The view of a [`Prepared`].
#[verifier::ext_equal]
pub enum PreparedView {
    Failed(Seq<char>),
    ServiceFailed(Seq<char>),
    Ready(Seq<DownloadRequestView>),
}

impl View for Prepared {
    type V = PreparedView;

    open spec fn view(&self) -> PreparedView {
        match *self {
            Prepared::Failed(message) => PreparedView::Failed(message@),
            Prepared::ServiceFailed(message) => PreparedView::ServiceFailed(message@),
            Prepared::Ready(requests) => PreparedView::Ready(text::views(requests@)),
        }
    }
}

/// What came of the work in the background.
pub enum BackgroundEvent {
    /// A search is over.
    Search { label: String, direct_url: bool, result: Result<Vec<SearchItem>, String> },
    /// A result was opened.
    Resolve { label: String, kind: SearchKind, result: Result<Vec<SearchItem>, String> },
    /// Downloads are prepared.
    DownloadTools(Prepared),
    /// The files below a folder.
    Import { root: FoundPath, files: Result<Vec<FoundPath>, String> },
    /// What was found for suggestions.
    Suggestions(Result<Vec<SearchItem>, String>),
}

/// The view of a [`BackgroundEvent`].
#[verifier::ext_equal]
pub enum BackgroundEventView {
    Search {
        label: Seq<char>,
        direct_url: bool,
        result: Result<Seq<SearchItemView>, Seq<char>>,
    },
    Resolve { label: Seq<char>, kind: SearchKind, result: Result<Seq<SearchItemView>, Seq<char>> },
    DownloadTools(PreparedView),
    Import { root: FoundPathView, files: Result<Seq<FoundPathView>, Seq<char>> },
    Suggestions(Result<Seq<SearchItemView>, Seq<char>>),
}

/// The files that were found, or why there are none.
pub open spec fn files_found(result: Result<Vec<FoundPath>, String>) -> Result<
    Seq<FoundPathView>,
    Seq<char>,
> {
    match result {
        Ok(files) => Ok(text::views(files@)),
        Err(message) => Err(message@),
    }
}

impl View for BackgroundEvent {
    type V = BackgroundEventView;

    open spec fn view(&self) -> BackgroundEventView {
        match *self {
            BackgroundEvent::Search { label, direct_url, result } => BackgroundEventView::Search {
                label: label@,
                direct_url,
                result: search::outcome(result),
            },
            BackgroundEvent::Resolve { label, kind, result } => BackgroundEventView::Resolve {
                label: label@,
                kind,
                result: search::outcome(result),
            },
            BackgroundEvent::DownloadTools(prepared) => BackgroundEventView::DownloadTools(
                prepared@,
            ),
            BackgroundEvent::Import { root, files } => BackgroundEventView::Import {
                root: root@,
                files: files_found(files),
            },
            BackgroundEvent::Suggestions(result) => BackgroundEventView::Suggestions(
                search::outcome(result),
            ),
        }
    }
}

/// The library once the files below a folder are imported, or why they are not; and how many were.
#[verifier::opaque]
pub open spec fn taken_in(
    view: LibraryView,
    root: FoundPathView,
    files: Seq<FoundPathView>,
) -> Result<(LibraryView, nat), Seq<char>> {
    let found = import::playable_files(files);
    match import::import_fault(view.tracks, found) {
        Some(message) => Err(message),
        None => Ok((import::imported(view, root, found), found.len())),
    }
}

impl AppView {
    /// Importing the folder that was typed.
    #[verifier::opaque]
    pub open spec fn import_submitted(self) -> AppView {
        let root = text::trimmed(self.input);
        if self.busy {
            self.said("Aguarde a operacao atual terminar."@)
        } else if root.len() == 0 {
            self.untyped()
        } else {
            (AppView { busy: true, ..self.untyped() }).said("Indexando "@ + root + "..."@).asked(
                ActionView::Import { root },
            )
        }
    }

    /// What was found below a folder.
    #[verifier::opaque]
    pub open spec fn import_answered(
        self,
        root: FoundPathView,
        result: Result<Seq<FoundPathView>, Seq<char>>,
    ) -> AppView {
        let ready = AppView { busy: false, ..self };
        match result {
            Ok(files) => match taken_in(self.db, root, files) {
                Ok((view, count)) => (AppView { db: view, ..ready }).asked(
                    ActionView::StoreTracks,
                ).refreshed().said(text::decimal_text(count) + " arquivo(s) indexado(s)."@),
                Err(message) => ready.said("Importacao falhou: "@ + message),
            },
            Err(message) => ready.said("Importacao falhou: "@ + message),
        }
    }

    /// What came of preparing downloads.
    #[verifier::opaque]
    pub open spec fn downloads_prepared(self, prepared: PreparedView) -> AppView {
        let ready = AppView { busy: false, ..self };
        match prepared {
            PreparedView::Failed(message) => ready.said("Bootstrap falhou: "@ + message),
            PreparedView::ServiceFailed(message) => ready.said(
                "Falha ao iniciar downloads: "@ + message,
            ),
            PreparedView::Ready(requests) => (AppView {
                service: true,
                waiting: self.waiting + requests,
                screen: Screen::Downloads,
                ..ready
            }).requests_sent(),
        }
    }

    /// What came of the work in the background.
    #[verifier::opaque]
    pub open spec fn background_done(self, event: BackgroundEventView) -> AppView {
        match event {
            BackgroundEventView::Search { label, direct_url, result } => self.search_answered(
                label,
                direct_url,
                result,
            ),
            BackgroundEventView::Resolve { label, kind, result } => self.resolve_answered(
                label,
                kind,
                result,
            ),
            BackgroundEventView::DownloadTools(prepared) => self.downloads_prepared(prepared),
            BackgroundEventView::Import { root, files } => self.import_answered(root, files),
            BackgroundEventView::Suggestions(result) => self.suggestions_answered(result),
        }
    }
}

fn take_in(db: &mut LibraryDb, root: &FoundPath, files: &Vec<FoundPath>) -> (result: Result<
    usize,
    String,
>)
    requires
        tui::sound(old(db)@),
    ensures
        tui::sound(final(db)@),
        match result {
            Ok(count) => taken_in(old(db)@, root@, text::views(files@)) == Ok::<_, Seq<char>>(
                (final(db)@, count as nat),
            ),
            Err(message) => taken_in(old(db)@, root@, text::views(files@)) == Err::<
                (LibraryView, nat),
                _,
            >(message@) && final(db)@ == old(db)@,
        },
{
    reveal(tui::sound);
    reveal(taken_in);
    db.scan_import_root(root, files)
}

impl App {
    /// Imports the folder that was typed.
    pub fn submit_import(&mut self)
        requires
            old(self)@.well_formed(),
        ensures
            final(self)@ == old(self)@.import_submitted(),
            final(self)@.well_formed(),
    {
        reveal(AppView::import_submitted);
        if self.busy {
            self.say("Aguarde a operacao atual terminar.");
            return;
        }
        let root = text::trim(self.input.as_str()).to_owned();
        self.stop_typing();
        if root.as_str().is_empty() {
            return;
        }
        self.set_busy(true);
        self.say_of("Indexando ", root.as_str(), "...");
        self.ask(Action::Import { root });
    }

    /// Takes in the files that were found below a folder.
    pub fn import_finished(&mut self, root: &FoundPath, result: Result<Vec<FoundPath>, String>)
        requires
            old(self)@.well_formed(),
        ensures
            final(self)@ == old(self)@.import_answered(root@, files_found(result)),
            final(self)@.well_formed(),
    {
        reveal(AppView::import_answered);
        self.set_busy(false);
        let ghost ready = self@;
        match result {
            Ok(files) => match take_in(&mut self.db, root, &files) {
                Ok(count) => {
                    assert(self@ =~= (AppView { db: self@.db, ..ready }));
                    self.ask(Action::StoreTracks);
                    self.refresh_library();
                    self.say_with(
                        text::decimal(count as u64).as_str(),
                        " arquivo(s) indexado(s).",
                    );
                },
                Err(message) => {
                    assert(self@ =~= ready);
                    self.say_with("Importacao falhou: ", message.as_str());
                },
            },
            Err(message) => {
                self.say_with("Importacao falhou: ", message.as_str());
            },
        }
    }

    fn accept_requests(&mut self, requests: Vec<DownloadRequest>)
        requires
            old(self)@.well_formed(),
        ensures
            final(self)@ == (AppView {
                service: true,
                waiting: old(self)@.waiting + text::views(requests@),
                screen: Screen::Downloads,
                ..old(self)@
            }),
            final(self)@.well_formed(),
    {
        let mut requests = requests;
        let ghost more = text::views(requests@);
        self.service = true;
        self.screen = Screen::Downloads;
        self.waiting.append(&mut requests);
        assert(text::views(self.waiting@) =~= old(self)@.waiting + more);
    }

    /// Takes note of what came of preparing downloads.
    pub fn prepare_finished(&mut self, prepared: Prepared)
        requires
            old(self)@.well_formed(),
        ensures
            final(self)@ == old(self)@.downloads_prepared(prepared@),
            final(self)@.well_formed(),
    {
        reveal(AppView::downloads_prepared);
        self.set_busy(false);
        match prepared {
            Prepared::Failed(message) => {
                self.say_with("Bootstrap falhou: ", message.as_str());
            },
            Prepared::ServiceFailed(message) => {
                self.say_with("Falha ao iniciar downloads: ", message.as_str());
            },
            Prepared::Ready(requests) => {
                self.accept_requests(requests);
                self.send_requests();
            },
        }
    }

    /// Takes note of what came of the work in the background.
    pub fn handle_background(&mut self, event: BackgroundEvent)
        requires
            old(self)@.well_formed(),
        ensures
            final(self)@ == old(self)@.background_done(event@),
            final(self)@.well_formed(),
    {
        reveal(AppView::background_done);
        match event {
            BackgroundEvent::Search { label, direct_url, result } => {
                self.search_finished(label.as_str(), direct_url, result);
            },
            BackgroundEvent::Resolve { label, kind, result } => {
                self.resolve_finished(label.as_str(), kind, result);
            },
            BackgroundEvent::DownloadTools(prepared) => {
                self.prepare_finished(prepared);
            },
            BackgroundEvent::Import { root, files } => {
                self.import_finished(&root, files);
            },
            BackgroundEvent::Suggestions(result) => {
                self.suggestions_finished(result);
            },
        }
    }

    /// Takes note of what the player reports; `roll` is the place that chance gives while
    /// shuffling.
    pub fn handle_player(&mut self, event: PlayerEvent, roll: usize)
        requires
            old(self)@.well_formed(),
            roll < old(self)@.queue.len() || roll == 0,
        ensures
            final(self)@ == match event {
                PlayerEvent::Ended => old(self)@.ended(roll as int),
                PlayerEvent::Error(error) => old(self)@.player_failed(error@),
            },
            final(self)@.well_formed(),
    {
        match event {
            PlayerEvent::Ended => {
                self.on_track_ended(roll);
            },
            PlayerEvent::Error(error) => {
                self.player_fault(error.as_str());
            },
        }
    }
}

/// Whatever comes back from the background, the next operation can be started.
pub proof fn lemma_ready_again(app: AppView, event: BackgroundEventView)
    ensures
        !app.background_done(event).busy,
{
    reveal(AppView::background_done);
    reveal(AppView::search_answered);
    reveal(AppView::resolve_answered);
    reveal(AppView::downloads_prepared);
    reveal(AppView::import_answered);
    reveal(AppView::suggestions_answered);
    reveal(AppView::refreshed);
    reveal(AppView::page_shown);
    reveal(AppView::page_saved);
    reveal(AppView::said);
    reveal(AppView::asked);
    match event {
        BackgroundEventView::DownloadTools(PreparedView::Ready(requests)) => {
            lemma_sending_keeps_busy(
                AppView {
                    service: true,
                    waiting: app.waiting + requests,
                    screen: Screen::Downloads,
                    busy: false,
                    ..app
                },
            );
        },
        _ => {},
    }
}

proof fn lemma_sending_keeps_busy(app: AppView)
    ensures
        app.requests_sent().busy == app.busy,
    decreases app.waiting.len(),
{
    reveal(AppView::asked);
    if app.waiting.len() > 0 {
        let request = app.waiting[0];
        let rest = AppView { waiting: app.waiting.skip(1), ..app };
        if app.job_running(request.job_id) {
            lemma_sending_keeps_busy(rest);
        } else if !app.service {
            lemma_sending_keeps_busy(
                AppView {
                    status: "Servico de downloads indisponivel."@,
                    ..rest.job_forgotten(request.job_id)
                },
            );
        }
    }
}

/// A folder that was typed is imported as it was typed, but for the whitespace around it; while
/// something else runs, or where nothing was typed, nothing is imported.
pub proof fn lemma_import_started(app: AppView)
    ensures
        ({
            let (root, after) = (text::trimmed(app.input), app.import_submitted());
            &&& !app.busy && root.len() > 0 ==> after.busy && after.input.len() == 0
                && after.actions == app.actions.push(ActionView::Import { root })
            &&& app.busy || root.len() == 0 ==> after.actions == app.actions && after.busy
                == app.busy
            &&& after.db == app.db
        }),
{
    reveal(AppView::import_submitted);
    reveal(AppView::untyped);
    reveal(AppView::said);
    reveal(AppView::asked);
}

/// What was found below a folder is imported and kept, and how many files that were is told; an
/// import that failed changes nothing in the library and tells why.
pub proof fn lemma_import_done(
    app: AppView,
    root: FoundPathView,
    files: Seq<FoundPathView>,
    message: Seq<char>,
)
    ensures
        ({
            let after = app.import_answered(root, Ok(files));
            let found = import::playable_files(files);
            &&& !after.busy
            &&& import::import_fault(app.db.tracks, found) is None ==> after.db == import::imported(
                app.db,
                root,
                found,
            ) && after.actions == app.actions.push(ActionView::StoreTracks) && text::begins_with(
                after.status,
                text::decimal_text(found.len()),
            ) && after.library == crate::tui::library::tracks_shown(
                after.db,
                crate::tui::library::filter_set(app.library_filter),
            )
            &&& import::import_fault(app.db.tracks, found) matches Some(fault) ==> after.db
                == app.db && after.actions == app.actions && text::ends_with(after.status, fault)
        }),
        app.import_answered(root, Err(message)).db == app.db,
        !app.import_answered(root, Err(message)).busy,
        text::ends_with(app.import_answered(root, Err(message)).status, message),
{
    reveal(AppView::import_answered);
    reveal(AppView::refreshed);
    reveal(AppView::said);
    reveal(AppView::asked);
    reveal(taken_in);
    let found = import::playable_files(files);
    text::lemma_occurs_between("Importacao falhou: "@, message, Seq::empty());
    text::lemma_occurs_between(
        Seq::empty(),
        text::decimal_text(found.len()),
        " arquivo(s) indexado(s)."@,
    );
    if let Some(fault) = import::import_fault(app.db.tracks, found) {
        text::lemma_occurs_between("Importacao falhou: "@, fault, Seq::empty());
    }
}

/// What is prepared for downloading waits behind what waited before, and is sent; a preparation that
/// failed sends nothing and tells why.
pub proof fn lemma_prepared_sent(
    app: AppView,
    requests: Seq<DownloadRequestView>,
    message: Seq<char>,
)
    ensures
        app.downloads_prepared(PreparedView::Ready(requests)) == (AppView {
            service: true,
            waiting: app.waiting + requests,
            screen: Screen::Downloads,
            busy: false,
            ..app
        }).requests_sent(),
        ({
            let failed = app.downloads_prepared(PreparedView::Failed(message));
            &&& failed.actions == app.actions
            &&& failed.waiting == app.waiting
            &&& !failed.busy
            &&& text::ends_with(failed.status, message)
        }),
        ({
            let failed = app.downloads_prepared(PreparedView::ServiceFailed(message));
            &&& failed.actions == app.actions
            &&& failed.waiting == app.waiting
            &&& !failed.busy
            &&& text::ends_with(failed.status, message)
        }),
{
    reveal(AppView::downloads_prepared);
    reveal(AppView::said);
    text::lemma_occurs_between("Bootstrap falhou: "@, message, Seq::empty());
    text::lemma_occurs_between("Falha ao iniciar downloads: "@, message, Seq::empty());
}

/// Each outcome of the work in the background goes to what asked for it.
pub proof fn lemma_outcomes_delivered(
    app: AppView,
    label: Seq<char>,
    direct_url: bool,
    kind: SearchKind,
    result: Result<Seq<SearchItemView>, Seq<char>>,
    prepared: PreparedView,
    root: FoundPathView,
    files: Result<Seq<FoundPathView>, Seq<char>>,
)
    ensures
        app.background_done(BackgroundEventView::Search { label, direct_url, result })
            == app.search_answered(label, direct_url, result),
        app.background_done(BackgroundEventView::Resolve { label, kind, result })
            == app.resolve_answered(label, kind, result),
        app.background_done(BackgroundEventView::DownloadTools(prepared)) == app.downloads_prepared(
            prepared,
        ),
        app.background_done(BackgroundEventView::Import { root, files }) == app.import_answered(
            root,
            files,
        ),
        app.background_done(BackgroundEventView::Suggestions(result)) == app.suggestions_answered(
            result,
        ),
{
    reveal(AppView::background_done);
}

} // verus!
