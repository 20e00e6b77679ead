//! The search workspace: results, the pages one can go back to, and what is chosen of them.

use vstd::prelude::*;

use crate::gather;
use crate::model;
use crate::model::SearchItem;
use crate::model::SearchItemView;
use crate::model::SearchKind;
use crate::selection::Selection;
use crate::source;
use crate::source::MAX_COLLECTION_ITEMS;
use crate::text;
use crate::tui;
use crate::tui::Action;
use crate::tui::ActionView;
use crate::tui::App;
use crate::tui::AppView;
use crate::tui::Screen;
use crate::tui::SearchPage;
use crate::tui::SearchPageView;
use crate::tui::MAX_SEARCH_HISTORY;

verus! {

/// What came back of a search, or why nothing did.
pub open spec fn outcome(result: Result<Vec<SearchItem>, String>) -> Result<
    Seq<SearchItemView>,
    Seq<char>,
> {
    match result {
        Ok(items) => Ok(text::views(items@)),
        Err(message) => Err(message@),
    }
}

/// The marked rows of a list, from the top.
pub open spec fn marked_items(items: Seq<SearchItemView>, marks: Set<int>) -> Seq<SearchItemView>
    decreases items.len(),
{
    if items.len() == 0 {
        Seq::empty()
    } else {
        let before = marked_items(items.drop_last(), marks);
        if marks.contains(items.len() - 1) {
            before.push(items.last())
        } else {
            before
        }
    }
}

/// The marked rows of a list, or the one under the cursor where none is marked.
pub open spec fn chosen_items(
    items: Seq<SearchItemView>,
    marks: Set<int>,
    index: int,
) -> Seq<SearchItemView> {
    if marks == Set::<int>::empty() {
        if 0 <= index < items.len() {
            seq![items[index]]
        } else {
            Seq::empty()
        }
    } else {
        marked_items(items, marks)
    }
}

/// Whether a kind of result stands for several tracks.
pub open spec fn stands_for_many(kind: SearchKind) -> bool {
    kind == SearchKind::Album || kind == SearchKind::Playlist
}

fn is_many(kind: SearchKind) -> (result: bool)
    ensures
        result == stands_for_many(kind),
{
    match kind {
        SearchKind::Album => true,
        SearchKind::Playlist => true,
        _ => false,
    }
}

/// The marked rows of a list, or the one under the cursor where none is marked.
pub fn choose_items(items: &Vec<SearchItem>, marks: &Selection, index: usize) -> (result: Vec<
    SearchItem,
>)
    ensures
        text::views(result@) == chosen_items(text::views(items@), marks@, index as int),
{
    let ghost all = text::views(items@);
    let mut result: Vec<SearchItem> = Vec::new();
    if marks.is_empty() {
        if index < items.len() {
            assert(all[index as int] == items@[index as int]@);
            result.push(items[index].clone());
        }
        assert(text::views(result@) =~= chosen_items(all, marks@, index as int));
        return result;
    }
    let mut i: usize = 0;
    assert(text::views(result@) =~= marked_items(all.take(0), marks@));
    while i < items.len()
        invariant
            all == text::views(items@),
            i <= items@.len(),
            text::views(result@) == marked_items(all.take(i as int), marks@),
        decreases items@.len() - i,
    {
        proof {
            assert(all.take(i + 1).drop_last() =~= all.take(i as int));
            assert(all[i as int] == items@[i as int]@);
        }
        if marks.contains(i) {
            let ghost before = result@;
            let item = items[i].clone();
            result.push(item);
            assert(text::views(result@) =~= text::views(before).push(item@));
        }
        i += 1;
    }
    assert(all.take(all.len() as int) =~= all);
    result
}

/// A page of results.
pub struct Page {
    pub title: Seq<char>,
    pub is_collection: bool,
    pub results: Seq<SearchItemView>,
}

impl AppView {
    /// The same with another page of results.
    #[verifier::opaque]
    pub open spec fn page_shown(self, page: Page) -> AppView {
        AppView {
            search_title: page.title,
            search_is_collection: page.is_collection,
            search_results: page.results,
            selected_results: Set::empty(),
            search_index: 0,
            screen: Screen::Search,
            ..self
        }
    }

    /// The page of results that is shown.
    pub open spec fn current_page(self) -> SearchPageView {
        SearchPageView {
            title: self.search_title,
            is_collection: self.search_is_collection,
            results: self.search_results,
            selected: self.selected_results,
            index: self.search_index,
        }
    }

    /// The page that is shown put away, to be gone back to; the oldest one gives way where there
    /// are too many.
    #[verifier::opaque]
    pub open spec fn page_saved(self) -> AppView {
        let kept = if self.search_history.len() >= MAX_SEARCH_HISTORY {
            self.search_history.remove(0)
        } else {
            self.search_history
        };
        AppView {
            search_history: kept.push(self.current_page()),
            search_title: Seq::empty(),
            search_results: Seq::empty(),
            selected_results: Set::empty(),
            ..self
        }
    }

    /// Whether everything but the page of results is well-formed: while a page is put away and
    /// the next one is not there yet, the cursor may lie on no row.
    pub open spec fn well_formed_beside_page(self) -> bool {
        (AppView { search_results: Seq::empty(), search_index: 0, ..self }).well_formed()
    }

    /// Going back to the page before.
    #[verifier::opaque]
    pub open spec fn page_restored(self) -> AppView {
        if self.busy {
            self.said("Aguarde a operacao atual terminar."@)
        } else if self.search_history.len() == 0 {
            self.said("Nao ha uma pagina anterior nesta busca."@)
        } else {
            let page = self.search_history.last();
            (AppView {
                search_history: self.search_history.drop_last(),
                search_title: page.title,
                search_is_collection: page.is_collection,
                search_results: page.results,
                selected_results: page.selected,
                search_index: tui::clamped(page.index, page.results.len() as int),
                ..self
            }).said("Pagina anterior restaurada."@)
        }
    }

    /// What a search found.
    #[verifier::opaque]
    pub open spec fn search_answered(
        self,
        label: Seq<char>,
        direct_url: bool,
        result: Result<Seq<SearchItemView>, Seq<char>>,
    ) -> AppView {
        let ready = AppView { busy: false, ..self };
        match result {
            Ok(items) => (AppView { search_history: Seq::empty(), ..ready }).page_shown(
                Page {
                    title: tui::label_of(label, 48),
                    is_collection: direct_url && items.len() > 1,
                    results: items,
                },
            ).said(
                text::decimal_text(items.len())
                    + " resultado(s). Enter abre, A baixa album completo."@,
            ),
            Err(message) => ready.said("Busca falhou: "@ + message),
        }
    }

    /// What a result that was opened holds.
    #[verifier::opaque]
    pub open spec fn resolve_answered(
        self,
        label: Seq<char>,
        kind: SearchKind,
        result: Result<Seq<SearchItemView>, Seq<char>>,
    ) -> AppView {
        let ready = AppView { busy: false, ..self };
        match result {
            Ok(items) => ready.page_saved().page_shown(
                Page {
                    title: tui::label_of(label, 48),
                    is_collection: stands_for_many(kind) || items.len() > 1,
                    results: items,
                },
            ).said(
                "Colecao aberta: "@ + text::decimal_text(items.len())
                    + " faixa(s). A baixa tudo, Esc volta."@,
            ),
            Err(message) => ready.said("Nao foi possivel abrir: "@ + message),
        }
    }

    /// Searching for what was typed.
    #[verifier::opaque]
    pub open spec fn search_submitted(self) -> AppView {
        let query = text::trimmed(self.input);
        if self.busy {
            self.said("Aguarde a operacao atual terminar."@)
        } else if query.len() == 0 {
            self.said("Digite artista, faixa, album ou URL."@)
        } else {
            (AppView { busy: true, ..self.untyped() }).said("Preparando busca..."@).asked(
                ActionView::Search { query, direct_url: source::http_url(query) },
            )
        }
    }

    /// Opening the result under the cursor.
    #[verifier::opaque]
    pub open spec fn result_opened(self) -> AppView {
        if self.busy {
            self.said("Aguarde a operacao atual terminar."@)
        } else if self.search_index < self.search_results.len() {
            let item = self.search_results[self.search_index];
            (AppView { busy: true, ..self }).said("Abrindo "@ + item.title + "..."@).asked(
                ActionView::Resolve { label: item.title, kind: item.kind, url: item.url },
            )
        } else {
            self
        }
    }

    /// Bringing items to be downloaded.
    #[verifier::opaque]
    pub open spec fn items_wanted(self, items: Seq<SearchItemView>) -> AppView {
        if items.len() > MAX_COLLECTION_ITEMS {
            self.said(
                "Selecao excede o limite de "@ + text::decimal_text(MAX_COLLECTION_ITEMS as nat)
                    + " faixas."@,
            )
        } else {
            let distinct = gather::distinct(items);
            (AppView { busy: true, ..self }).said(
                "Resolvendo e preparando "@ + text::decimal_text(distinct.len())
                    + " item(ns) para download..."@,
            ).asked(ActionView::Prepare { items: distinct })
        }
    }

    /// Downloading what is chosen of the results.
    #[verifier::opaque]
    pub open spec fn results_wanted(self) -> AppView {
        let items = chosen_items(self.search_results, self.selected_results, self.search_index);
        if self.busy {
            self.said("Aguarde a operacao atual terminar."@)
        } else if items.len() == 0 {
            self.said("Nenhum resultado selecionado."@)
        } else {
            self.items_wanted(items)
        }
    }

    /// Everything of the collection that is open, or the result under the cursor where it stands
    /// for a collection.
    #[verifier::opaque]
    pub open spec fn whole_collection(self) -> Option<Seq<SearchItemView>> {
        if self.search_is_collection && self.search_results.len() > 0 {
            Some(self.search_results)
        } else if self.search_index < self.search_results.len() && stands_for_many(
            self.search_results[self.search_index].kind,
        ) {
            Some(seq![self.search_results[self.search_index]])
        } else {
            None
        }
    }

    /// Downloading a whole collection.
    #[verifier::opaque]
    pub open spec fn collection_wanted(self) -> AppView {
        if self.busy {
            self.said("Aguarde a operacao atual terminar."@)
        } else {
            match self.whole_collection() {
                Some(items) => self.items_wanted(items),
                None => self.said(
                    "Abra um album/playlist ou selecione um resultado desse tipo para baixar tudo."@,
                ),
            }
        }
    }
}

impl App {
    pub(crate) fn set_busy(&mut self, busy: bool)
        ensures
            final(self)@ == (AppView { busy, ..old(self)@ }),
            old(self)@.well_formed() ==> final(self)@.well_formed(),
            final(self).player == old(self).player,
    {
        self.busy = busy;
        assert(self@ =~= (AppView { busy, ..old(self)@ }));
    }

    fn show_page(&mut self, title: String, is_collection: bool, results: Vec<SearchItem>)
        requires
            old(self)@.well_formed_beside_page(),
        ensures
            final(self)@ == old(self)@.page_shown(
                Page { title: title@, is_collection, results: text::views(results@) },
            ),
            final(self)@.well_formed(),
    {
        reveal(AppView::page_shown);
        self.search_title = title;
        self.search_is_collection = is_collection;
        self.search_results = results;
        self.selected_results = Selection::new();
        self.search_index = 0;
        self.screen = Screen::Search;
        assert(self@ =~= old(self)@.page_shown(
            Page { title: title@, is_collection, results: text::views(results@) },
        ));
    }

    /// Puts the page that is shown away, to be gone back to. The cursor stays where it is until
    /// another page is shown.
    pub fn save_search_page(&mut self)
        requires
            old(self)@.well_formed_beside_page(),
        ensures
            final(self)@ == old(self)@.page_saved(),
            final(self)@.well_formed_beside_page(),
    {
        reveal(AppView::page_saved);
        let ghost before = self@;
        if self.search_history.len() >= MAX_SEARCH_HISTORY {
            self.search_history.remove(0);
            assert(text::views(self.search_history@) =~= before.search_history.remove(0));
        }
        let ghost kept = text::views(self.search_history@);
        let mut title = String::new();
        std::mem::swap(&mut title, &mut self.search_title);
        let mut results: Vec<SearchItem> = Vec::new();
        std::mem::swap(&mut results, &mut self.search_results);
        let mut selected = Selection::new();
        std::mem::swap(&mut selected, &mut self.selected_results);
        let page = SearchPage {
            title,
            is_collection: self.search_is_collection,
            results,
            selected,
            index: self.search_index,
        };
        self.search_history.push(page);
        proof {
            reveal_strlit("");
            assert(page@ =~= before.current_page());
            assert(self.search_title@ =~= Seq::<char>::empty());
            assert(self@.search_results =~= Seq::<SearchItemView>::empty());
            assert(text::views(self.search_history@) =~= kept.push(page@));
            assert(self@ =~= before.page_saved());
        }
    }

    fn put_page(&mut self, page: SearchPage)
        requires
            old(self)@.well_formed(),
        ensures
            final(self)@ == (AppView {
                search_title: page@.title,
                search_is_collection: page@.is_collection,
                search_results: page@.results,
                selected_results: page@.selected,
                search_index: tui::clamped(page@.index, page@.results.len() as int),
                ..old(self)@
            }),
            final(self)@.well_formed(),
    {
        let index: usize = tui::library::clamp_row(page.index, page.results.len());
        self.search_title = page.title;
        self.search_is_collection = page.is_collection;
        self.search_results = page.results;
        self.selected_results = page.selected;
        self.search_index = index;
    }

    /// Goes back to the page before.
    pub fn back_search(&mut self)
        requires
            old(self)@.well_formed(),
        ensures
            final(self)@ == old(self)@.page_restored(),
            final(self)@.well_formed(),
    {
        reveal(AppView::page_restored);
        if self.busy {
            self.say("Aguarde a operacao atual terminar.");
            return;
        }
        let ghost history = self.search_history@;
        match self.search_history.pop() {
            None => {
                assert(self@ =~= old(self)@);
                self.say("Nao ha uma pagina anterior nesta busca.");
            },
            Some(page) => {
                assert(text::views(self.search_history@) =~= old(self)@.search_history.drop_last());
                assert(page@ == old(self)@.search_history.last());
                self.put_page(page);
                assert(self@ =~= (AppView {
                    search_history: old(self)@.search_history.drop_last(),
                    search_title: page@.title,
                    search_is_collection: page@.is_collection,
                    search_results: page@.results,
                    selected_results: page@.selected,
                    search_index: tui::clamped(page@.index, page@.results.len() as int),
                    ..old(self)@
                }));
                self.say("Pagina anterior restaurada.");
            },
        }
    }

    /// Shows what a search found.
    pub fn search_finished(
        &mut self,
        label: &str,
        direct_url: bool,
        result: Result<Vec<SearchItem>, String>,
    )
        requires
            old(self)@.well_formed(),
        ensures
            final(self)@ == old(self)@.search_answered(label@, direct_url, outcome(result)),
            final(self)@.well_formed(),
    {
        reveal(AppView::search_answered);
        self.set_busy(false);
        match result {
            Ok(items) => {
                let ghost ready = self@;
                self.search_history = Vec::new();
                assert(self@ =~= (AppView { search_history: Seq::empty(), ..ready }));
                let count: usize = items.len();
                self.show_page(tui::short_label(label, 48), direct_url && count > 1, items);
                self.say_with(
                    text::decimal(count as u64).as_str(),
                    " resultado(s). Enter abre, A baixa album completo.",
                );
            },
            Err(message) => {
                self.say_with("Busca falhou: ", message.as_str());
            },
        }
    }

    /// Shows what a result that was opened holds.
    pub fn resolve_finished(
        &mut self,
        label: &str,
        kind: SearchKind,
        result: Result<Vec<SearchItem>, String>,
    )
        requires
            old(self)@.well_formed(),
        ensures
            final(self)@ == old(self)@.resolve_answered(label@, kind, outcome(result)),
            final(self)@.well_formed(),
    {
        reveal(AppView::resolve_answered);
        self.set_busy(false);
        match result {
            Ok(items) => {
                self.save_search_page();
                let count: usize = items.len();
                self.show_page(tui::short_label(label, 48), is_many(kind) || count > 1, items);
                self.say_of(
                    "Colecao aberta: ",
                    text::decimal(count as u64).as_str(),
                    " faixa(s). A baixa tudo, Esc volta.",
                );
            },
            Err(message) => {
                self.say_with("Nao foi possivel abrir: ", message.as_str());
            },
        }
    }

    /// Searches for what was typed.
    pub fn submit_search(&mut self)
        requires
            old(self)@.well_formed(),
        ensures
            final(self)@ == old(self)@.search_submitted(),
            final(self)@.well_formed(),
    {
        reveal(AppView::search_submitted);
        if self.busy {
            self.say("Aguarde a operacao atual terminar.");
            return;
        }
        let query = text::trim(self.input.as_str()).to_owned();
        if query.as_str().is_empty() {
            self.say("Digite artista, faixa, album ou URL.");
            return;
        }
        let direct_url = source::is_http_url(query.as_str());
        self.stop_typing();
        self.set_busy(true);
        self.say("Preparando busca...");
        self.ask(Action::Search { query, direct_url });
    }

    /// Opens the result under the cursor.
    pub fn resolve_current(&mut self)
        requires
            old(self)@.well_formed(),
        ensures
            final(self)@ == old(self)@.result_opened(),
            final(self)@.well_formed(),
    {
        reveal(AppView::result_opened);
        if self.busy {
            self.say("Aguarde a operacao atual terminar.");
            return;
        }
        let row: usize = self.search_index;
        if row >= self.search_results.len() {
            return;
        }
        assert(self@.search_results[row as int] == self.search_results@[row as int]@);
        let item = self.search_results[row].clone();
        self.set_busy(true);
        self.say_of("Abrindo ", item.title.as_str(), "...");
        self.ask(Action::Resolve { label: item.title, kind: item.kind, url: item.url });
    }

    /// Brings items to be downloaded.
    pub fn start_download_items(&mut self, items: &Vec<SearchItem>)
        requires
            old(self)@.well_formed(),
        ensures
            final(self)@ == old(self)@.items_wanted(text::views(items@)),
            final(self)@.well_formed(),
    {
        reveal(AppView::items_wanted);
        if items.len() > MAX_COLLECTION_ITEMS {
            self.say_of(
                "Selecao excede o limite de ",
                text::decimal(MAX_COLLECTION_ITEMS as u64).as_str(),
                " faixas.",
            );
            return;
        }
        let distinct = gather::distinct_items(items);
        self.set_busy(true);
        self.say_of(
            "Resolvendo e preparando ",
            text::decimal(distinct.len() as u64).as_str(),
            " item(ns) para download...",
        );
        self.ask(Action::Prepare { items: distinct });
    }

    /// Downloads what is chosen of the results.
    pub fn start_selected_downloads(&mut self)
        requires
            old(self)@.well_formed(),
        ensures
            final(self)@ == old(self)@.results_wanted(),
            final(self)@.well_formed(),
    {
        reveal(AppView::results_wanted);
        if self.busy {
            self.say("Aguarde a operacao atual terminar.");
            return;
        }
        let items = choose_items(&self.search_results, &self.selected_results, self.search_index);
        if items.len() == 0 {
            self.say("Nenhum resultado selecionado.");
            return;
        }
        self.start_download_items(&items);
    }

    /// Everything of the collection that is open, or the result under the cursor where it stands
    /// for a collection.
    pub fn full_collection_items(&self) -> (result: Option<Vec<SearchItem>>)
        requires
            self@.well_formed(),
        ensures
            match result {
                Some(items) => self@.whole_collection() == Some(text::views(items@)),
                None => self@.whole_collection() is None,
            },
    {
        reveal(AppView::whole_collection);
        if self.search_is_collection && self.search_results.len() > 0 {
            return Some(model::copied_items(&self.search_results));
        }
        let row: usize = self.search_index;
        if row >= self.search_results.len() {
            return None;
        }
        assert(self@.search_results[row as int] == self.search_results@[row as int]@);
        if is_many(self.search_results[row].kind) {
            let mut items: Vec<SearchItem> = Vec::new();
            items.push(self.search_results[row].clone());
            assert(text::views(items@) =~= seq![self@.search_results[row as int]]);
            Some(items)
        } else {
            None
        }
    }

    /// Downloads a whole collection.
    pub fn download_full_collection(&mut self)
        requires
            old(self)@.well_formed(),
        ensures
            final(self)@ == old(self)@.collection_wanted(),
            final(self)@.well_formed(),
    {
        reveal(AppView::collection_wanted);
        if self.busy {
            self.say("Aguarde a operacao atual terminar.");
            return;
        }
        match self.full_collection_items() {
            Some(items) => {
                self.start_download_items(&items);
            },
            None => {
                self.say(
                    "Abra um album/playlist ou selecione um resultado desse tipo para baixar tudo.",
                );
            },
        }
    }
}

/// Going back from a result that was opened restores the page it was opened from: its title, its
/// results, what was selected there and where the cursor was.
pub proof fn lemma_page_round_trip(
    app: AppView,
    label: Seq<char>,
    kind: SearchKind,
    items: Seq<SearchItemView>,
)
    requires
        app.well_formed(),
    ensures
        app.resolve_answered(label, kind, Ok(items)).page_restored().current_page()
            == app.current_page(),
        app.resolve_answered(label, kind, Ok(items)).page_restored().search_history
            == if app.search_history.len() >= MAX_SEARCH_HISTORY {
            app.search_history.remove(0)
        } else {
            app.search_history
        },
{
    reveal(AppView::said);
    reveal(AppView::page_shown);
    reveal(AppView::page_saved);
    reveal(AppView::page_restored);
    reveal(AppView::resolve_answered);
    let opened = app.resolve_answered(label, kind, Ok(items));
    let kept = if app.search_history.len() >= MAX_SEARCH_HISTORY {
        app.search_history.remove(0)
    } else {
        app.search_history
    };
    assert(opened.search_history == kept.push(app.current_page()));
    assert(opened.search_history.drop_last() =~= kept);
}

/// While something runs in the background nothing else is started: every such key only says so.
pub proof fn lemma_one_at_a_time(app: AppView)
    requires
        app.busy,
    ensures
        app.search_submitted() == app.said("Aguarde a operacao atual terminar."@),
        app.result_opened() == app.said("Aguarde a operacao atual terminar."@),
        app.results_wanted() == app.said("Aguarde a operacao atual terminar."@),
        app.collection_wanted() == app.said("Aguarde a operacao atual terminar."@),
        app.page_restored() == app.said("Aguarde a operacao atual terminar."@),
{
    reveal(AppView::search_submitted);
    reveal(AppView::result_opened);
    reveal(AppView::results_wanted);
    reveal(AppView::collection_wanted);
    reveal(AppView::page_restored);
}

/// Whatever is chosen, at most five hundred items are prepared at once, and none of them twice.
pub proof fn lemma_prepared_bounded(app: AppView, items: Seq<SearchItemView>)
    ensures
        app.items_wanted(items).actions == app.actions || (items.len() <= MAX_COLLECTION_ITEMS
            && gather::distinct(items).len() <= MAX_COLLECTION_ITEMS && app.items_wanted(
            items,
        ).actions == app.actions.push(ActionView::Prepare { items: gather::distinct(items) })),
        forall|i: int, j: int|
            0 <= i < j < gather::distinct(items).len() ==> !gather::same_item(
                #[trigger] gather::distinct(items)[i],
                #[trigger] gather::distinct(items)[j],
            ),
{
    reveal(AppView::said);
    reveal(AppView::asked);
    reveal(AppView::items_wanted);
    gather::lemma_distinct(items);
}

/// What was typed is searched for as it is, but for the whitespace around it: one search, and the
/// line is empty again. Nothing is searched for where nothing was typed.
pub proof fn lemma_search_started(app: AppView)
    requires
        !app.busy,
    ensures
        text::trimmed(app.input).len() > 0 ==> app.search_submitted().busy
            && app.search_submitted().input.len() == 0 && app.search_submitted().input_mode
            == tui::InputMode::Idle && app.search_submitted().actions == app.actions.push(
            ActionView::Search {
                query: text::trimmed(app.input),
                direct_url: source::http_url(text::trimmed(app.input)),
            },
        ),
        text::trimmed(app.input).len() == 0 ==> !app.search_submitted().busy
            && app.search_submitted().actions == app.actions,
        app.search_submitted().search_results == app.search_results,
{
    reveal(AppView::search_submitted);
    reveal(AppView::untyped);
    reveal(AppView::said);
    reveal(AppView::asked);
}

/// What a search found is shown, all of it and in its order, from the top and with nothing marked;
/// a search that failed leaves what was shown and tells why.
pub proof fn lemma_results_shown(
    app: AppView,
    label: Seq<char>,
    direct_url: bool,
    items: Seq<SearchItemView>,
    message: Seq<char>,
)
    ensures
        ({
            let found = app.search_answered(label, direct_url, Ok(items));
            &&& found.search_results == items
            &&& found.search_index == 0
            &&& found.selected_results == Set::<int>::empty()
            &&& found.screen == Screen::Search
            &&& found.search_title == tui::label_of(label, 48)
            &&& found.search_is_collection == (direct_url && items.len() > 1)
            &&& found.search_history.len() == 0
            &&& !found.busy
            &&& found.actions == app.actions
            &&& text::begins_with(found.status, text::decimal_text(items.len()))
        }),
        ({
            let failed = app.search_answered(label, direct_url, Err(message));
            &&& failed.search_results == app.search_results
            &&& failed.search_index == app.search_index
            &&& failed.selected_results == app.selected_results
            &&& failed.search_history == app.search_history
            &&& !failed.busy
            &&& text::ends_with(failed.status, message)
        }),
{
    reveal(AppView::search_answered);
    reveal(AppView::page_shown);
    reveal(AppView::said);
    text::lemma_occurs_between("Busca falhou: "@, message, Seq::empty());
    text::lemma_occurs_between(
        Seq::empty(),
        text::decimal_text(items.len()),
        " resultado(s). Enter abre, A baixa album completo."@,
    );
}

/// The result under the cursor is opened by its own link.
pub proof fn lemma_result_opened(app: AppView)
    requires
        !app.busy,
        0 <= app.search_index < app.search_results.len(),
    ensures
        ({
            let item = app.search_results[app.search_index];
            &&& app.result_opened().busy
            &&& app.result_opened().actions == app.actions.push(
                ActionView::Resolve { label: item.title, kind: item.kind, url: item.url },
            )
            &&& app.result_opened().search_results == app.search_results
        }),
{
    reveal(AppView::result_opened);
    reveal(AppView::said);
    reveal(AppView::asked);
}

/// What a result that was opened holds is shown, all of it and in its order; it counts as a
/// collection where it is an album or a playlist or has more than one track. One that could not be
/// opened leaves what was shown.
pub proof fn lemma_opened_shown(
    app: AppView,
    label: Seq<char>,
    kind: SearchKind,
    items: Seq<SearchItemView>,
    message: Seq<char>,
)
    ensures
        ({
            let opened = app.resolve_answered(label, kind, Ok(items));
            &&& opened.search_results == items
            &&& opened.search_index == 0
            &&& opened.selected_results == Set::<int>::empty()
            &&& opened.search_title == tui::label_of(label, 48)
            &&& opened.search_is_collection <==> kind == SearchKind::Album || kind
                == SearchKind::Playlist || items.len() > 1
            &&& opened.search_history.len() > 0
            &&& opened.search_history.last().results == app.search_results
            &&& !opened.busy
        }),
        ({
            let failed = app.resolve_answered(label, kind, Err(message));
            &&& failed.search_results == app.search_results
            &&& failed.search_history == app.search_history
            &&& !failed.busy
            &&& text::ends_with(failed.status, message)
        }),
{
    reveal(AppView::resolve_answered);
    reveal(AppView::page_saved);
    reveal(AppView::page_shown);
    reveal(AppView::said);
    text::lemma_occurs_between("Nao foi possivel abrir: "@, message, Seq::empty());
}

/// Whether `places` are the marked rows of a list, from the top.
pub open spec fn marked_places(count: nat, marks: Set<int>, places: Seq<int>) -> bool {
    &&& forall|k: int|
        0 <= k < places.len() ==> 0 <= #[trigger] places[k] < count && marks.contains(places[k])
    &&& forall|j: int, k: int|
        0 <= j < k < places.len() ==> #[trigger] places[j] < #[trigger] places[k]
    &&& forall|i: int| 0 <= i < count && #[trigger] marks.contains(i) ==> places.contains(i)
}

/// The marked rows are taken, each of them and no other, from the top.
pub proof fn lemma_marked_taken(items: Seq<SearchItemView>, marks: Set<int>)
    ensures
        exists|places: Seq<int>|
            #[trigger] marked_places(items.len(), marks, places) && places.len() == marked_items(
                items,
                marks,
            ).len() && forall|k: int|
                0 <= k < places.len() ==> #[trigger] marked_items(items, marks)[k]
                    == items[places[k]],
    decreases items.len(),
{
    if items.len() == 0 {
        let none = Seq::<int>::empty();
        assert(marked_places(items.len(), marks, none));
    } else {
        let rest = items.drop_last();
        let last = items.len() - 1;
        lemma_marked_taken(rest, marks);
        let before = choose|places: Seq<int>|
            #[trigger] marked_places(rest.len(), marks, places) && places.len() == marked_items(
                rest,
                marks,
            ).len() && forall|k: int|
                0 <= k < places.len() ==> #[trigger] marked_items(rest, marks)[k]
                    == rest[places[k]];
        let places = if marks.contains(last) {
            before.push(last)
        } else {
            before
        };
        assert forall|i: int| 0 <= i < items.len() && #[trigger] marks.contains(
            i,
        ) implies places.contains(i) by {
            if i < last {
                let k = choose|k: int| 0 <= k < before.len() && before[k] == i;
                assert(places[k] == i);
            } else {
                assert(places[before.len() as int] == last);
            }
        }
        assert forall|k: int| 0 <= k < places.len() implies 0 <= #[trigger] places[k] < items.len()
            && marks.contains(places[k]) && marked_items(items, marks)[k] == items[places[k]] by {
            if k < before.len() {
                assert(before[k] == places[k]);
                assert(marked_items(rest, marks)[k] == rest[before[k]]);
            }
        }
        assert(marked_places(items.len(), marks, places));
    }
}

/// What is downloaded is what is marked, and the row under the cursor only where nothing is.
pub proof fn lemma_chosen(items: Seq<SearchItemView>, marks: Set<int>, index: int)
    ensures
        (exists|i: int| marks.contains(i)) ==> chosen_items(items, marks, index) == marked_items(
            items,
            marks,
        ),
        (forall|i: int| !marks.contains(i)) && 0 <= index < items.len() ==> chosen_items(
            items,
            marks,
            index,
        ) == seq![items[index]],
{
    if forall|i: int| !marks.contains(i) {
        assert(marks =~= Set::<int>::empty());
    }
}

/// What is wanted is prepared, each item once; more than five hundred items are refused, and then
/// nothing is prepared.
pub proof fn lemma_wanted_prepared(app: AppView, items: Seq<SearchItemView>)
    ensures
        items.len() <= 500 ==> app.items_wanted(items).busy && app.items_wanted(items).actions
            == app.actions.push(ActionView::Prepare { items: gather::distinct(items) }),
        items.len() > 500 ==> app.items_wanted(items).actions == app.actions && app.items_wanted(
            items,
        ).busy == app.busy,
        !app.busy && chosen_items(
            app.search_results,
            app.selected_results,
            app.search_index,
        ).len() > 0 ==> app.results_wanted() == app.items_wanted(
            chosen_items(app.search_results, app.selected_results, app.search_index),
        ),
        !app.busy && chosen_items(
            app.search_results,
            app.selected_results,
            app.search_index,
        ).len() == 0 ==> app.results_wanted().actions == app.actions,
{
    reveal(AppView::items_wanted);
    reveal(AppView::results_wanted);
    reveal(AppView::said);
    reveal(AppView::asked);
}

/// A whole collection is every track of the one that is open, and else the album or playlist under
/// the cursor; a single track is none.
pub proof fn lemma_collection_wanted(app: AppView)
    requires
        !app.busy,
        0 <= app.search_index,
    ensures
        ({
            let open = app.search_is_collection && app.search_results.len() > 0;
            let many = app.search_index < app.search_results.len() && (
            app.search_results[app.search_index].kind == SearchKind::Album
                || app.search_results[app.search_index].kind == SearchKind::Playlist);
            &&& open ==> app.collection_wanted() == app.items_wanted(app.search_results)
            &&& !open && many ==> app.collection_wanted() == app.items_wanted(
                seq![app.search_results[app.search_index]],
            )
            &&& !open && !many ==> app.collection_wanted().actions == app.actions
        }),
{
    reveal(AppView::collection_wanted);
    reveal(AppView::whole_collection);
    reveal(AppView::said);
}

} // verus!
