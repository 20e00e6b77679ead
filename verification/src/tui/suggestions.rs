//! The suggestions workspace: new tracks by the artists of the library.

use vstd::prelude::*;

use crate::gather;
use crate::model::SearchItem;
use crate::model::SearchItemView;
use crate::model::SearchKind;
use crate::model::Track;
use crate::model::TrackView;
use crate::paths;
use crate::selection::Selection;
use crate::text;
use crate::tui::search;
use crate::tui::Action;
use crate::tui::ActionView;
use crate::tui::App;
use crate::tui::AppView;

verus! {

/// How many artists are asked for.
pub const MAX_SUGGESTION_ARTISTS: usize = 3;

/// How many tracks are suggested.
pub const MAX_SUGGESTIONS: usize = 20;

/// What is searched for on account of a track: its artist, or the name of its file where the artist
/// is not known.
pub open spec fn seed(track: TrackView) -> Seq<char> {
    if track.artist == "Desconhecido"@ {
        match paths::stem(track.path) {
            Some(name) => name,
            None => track.title,
        }
    } else {
        track.artist
    }
}

/// What is searched for on account of a library: the first few that differ.
pub open spec fn seeds(tracks: Seq<TrackView>) -> Seq<Seq<char>>
    decreases tracks.len(),
{
    if tracks.len() == 0 {
        Seq::empty()
    } else {
        let before = seeds(tracks.drop_last());
        if before.len() >= MAX_SUGGESTION_ARTISTS || before.contains(seed(tracks.last())) {
            before
        } else {
            before.push(seed(tracks.last()))
        }
    }
}

/// Whether a library holds what a result leads to.
pub open spec fn owned(tracks: Seq<TrackView>, item: SearchItemView) -> bool {
    exists|i: int|
        0 <= i < tracks.len() && (#[trigger] tracks[i]).provider == Some(item.provider)
            && tracks[i].source_id == Some(item.source_id)
}

/// The first few single tracks among results that a library does not hold, none of them twice.
pub open spec fn fresh(tracks: Seq<TrackView>, items: Seq<SearchItemView>) -> Seq<SearchItemView>
    decreases items.len(),
{
    if items.len() == 0 {
        Seq::empty()
    } else {
        let before = fresh(tracks, items.drop_last());
        let item = items.last();
        if before.len() < MAX_SUGGESTIONS && item.kind == SearchKind::Track && !owned(tracks, item)
            && !gather::listed(before, item) {
            before.push(item)
        } else {
            before
        }
    }
}

/// No more than three artists are asked for, and none twice.
pub proof fn lemma_seeds(tracks: Seq<TrackView>)
    ensures
        seeds(tracks).len() <= MAX_SUGGESTION_ARTISTS,
        seeds(tracks).no_duplicates(),
        tracks.len() > 0 ==> seeds(tracks).len() > 0,
        forall|i: int|
            0 <= i < seeds(tracks).len() ==> exists|k: int|
                0 <= k < tracks.len() && #[trigger] seeds(tracks)[i] == seed(#[trigger] tracks[k]),
    decreases tracks.len(),
{
    if tracks.len() > 0 {
        let rest = tracks.drop_last();
        let before = seeds(rest);
        let after = seeds(tracks);
        lemma_seeds(rest);
        assert forall|i: int| 0 <= i < after.len() implies exists|k: int|
            0 <= k < tracks.len() && #[trigger] after[i] == seed(#[trigger] tracks[k]) by {
            if i < before.len() {
                assert(after[i] == before[i]);
                let k = choose|k: int| 0 <= k < rest.len() && before[i] == seed(#[trigger] rest[k]);
                assert(tracks[k] == rest[k]);
            } else {
                assert(after[i] == seed(tracks[tracks.len() - 1]));
            }
        }
    }
}

/// No more than twenty tracks are suggested; none of them is in the library, none comes twice, and
/// all of them were found.
pub proof fn lemma_fresh(tracks: Seq<TrackView>, items: Seq<SearchItemView>)
    ensures
        fresh(tracks, items).len() <= MAX_SUGGESTIONS,
        forall|i: int|
            0 <= i < fresh(tracks, items).len() ==> !owned(
                tracks,
                #[trigger] fresh(tracks, items)[i],
            ) && items.contains(fresh(tracks, items)[i]) && fresh(tracks, items)[i].kind
                == SearchKind::Track,
        forall|i: int, j: int|
            0 <= i < j < fresh(tracks, items).len() ==> !gather::same_item(
                #[trigger] fresh(tracks, items)[i],
                #[trigger] fresh(tracks, items)[j],
            ),
    decreases items.len(),
{
    if items.len() > 0 {
        let rest = items.drop_last();
        let before = fresh(tracks, rest);
        let after = fresh(tracks, items);
        lemma_fresh(tracks, rest);
        assert forall|i: int| 0 <= i < after.len() implies !owned(tracks, #[trigger] after[i])
            && items.contains(after[i]) && after[i].kind == SearchKind::Track by {
            if i < before.len() {
                assert(after[i] == before[i]);
                let k = choose|k: int| 0 <= k < rest.len() && rest[k] == before[i];
                assert(items[k] == after[i]);
            } else {
                assert(items[items.len() - 1] == after[i]);
            }
        }
    }
}

fn seed_of(track: &Track) -> (result: String)
    ensures
        result@ == seed(track@),
{
    if text::same_text(track.artist.as_str(), "Desconhecido") {
        match paths::stem_of(track.path.as_str()) {
            Some(name) => name,
            None => track.title.clone(),
        }
    } else {
        track.artist.clone()
    }
}

fn holds_text(texts: &Vec<String>, sought: &str) -> (result: bool)
    ensures
        result == text::views(texts@).contains(sought@),
{
    let mut i: usize = 0;
    while i < texts.len()
        invariant
            i <= texts@.len(),
            forall|k: int| 0 <= k < i ==> #[trigger] text::views(texts@)[k] != sought@,
        decreases texts@.len() - i,
    {
        assert(text::views(texts@)[i as int] == texts@[i as int]@);
        if text::same_text(texts[i].as_str(), sought) {
            return true;
        }
        i += 1;
    }
    false
}

/// What is searched for on account of a library.
pub fn suggestion_seeds(tracks: &Vec<Track>) -> (result: Vec<String>)
    ensures
        text::views(result@) == seeds(text::views(tracks@)),
{
    let ghost all = text::views(tracks@);
    let mut result: Vec<String> = Vec::new();
    let mut i: usize = 0;
    assert(text::views(result@) =~= seeds(all.take(0)));
    while i < tracks.len()
        invariant
            all == text::views(tracks@),
            i <= tracks@.len(),
            text::views(result@) == seeds(all.take(i as int)),
        decreases tracks@.len() - i,
    {
        proof {
            assert(all.take(i + 1).drop_last() =~= all.take(i as int));
            assert(all[i as int] == tracks@[i as int]@);
        }
        if result.len() < MAX_SUGGESTION_ARTISTS {
            let name = seed_of(&tracks[i]);
            if !holds_text(&result, name.as_str()) {
                let ghost before = result@;
                result.push(name);
                assert(text::views(result@) =~= text::views(before).push(name@));
            }
        }
        i += 1;
    }
    assert(all.take(all.len() as int) =~= all);
    result
}

fn same_optional(value: &Option<String>, sought: &str) -> (result: bool)
    ensures
        result == (text::shown(*value) == Some(sought@)),
{
    match value {
        Some(inner) => text::same_text(inner.as_str(), sought),
        None => false,
    }
}

fn is_owned(tracks: &Vec<Track>, item: &SearchItem) -> (result: bool)
    ensures
        result == owned(text::views(tracks@), item@),
{
    let ghost all = text::views(tracks@);
    let mut i: usize = 0;
    while i < tracks.len()
        invariant
            all == text::views(tracks@),
            i <= tracks@.len(),
            forall|k: int|
                0 <= k < i ==> !((#[trigger] all[k]).provider == Some(item@.provider)
                    && all[k].source_id == Some(item@.source_id)),
        decreases tracks@.len() - i,
    {
        assert(all[i as int] == tracks@[i as int]@);
        if same_optional(&tracks[i].provider, item.provider.as_str()) && same_optional(
            &tracks[i].source_id,
            item.source_id.as_str(),
        ) {
            return true;
        }
        i += 1;
    }
    false
}

fn is_single(kind: SearchKind) -> (result: bool)
    ensures
        result == (kind == SearchKind::Track),
{
    match kind {
        SearchKind::Track => true,
        _ => false,
    }
}

/// The first few single tracks among results that a library does not hold.
pub fn fresh_items(tracks: &Vec<Track>, items: &Vec<SearchItem>) -> (result: Vec<SearchItem>)
    ensures
        text::views(result@) == fresh(text::views(tracks@), text::views(items@)),
{
    let ghost rows = text::views(tracks@);
    let ghost all = text::views(items@);
    let mut result: Vec<SearchItem> = Vec::new();
    let mut i: usize = 0;
    assert(text::views(result@) =~= fresh(rows, all.take(0)));
    while i < items.len()
        invariant
            rows == text::views(tracks@),
            all == text::views(items@),
            i <= items@.len(),
            text::views(result@) == fresh(rows, all.take(i as int)),
        decreases items@.len() - i,
    {
        proof {
            assert(all.take(i + 1).drop_last() =~= all.take(i as int));
            assert(all[i as int] == items@[i as int]@);
        }
        if result.len() < MAX_SUGGESTIONS && is_single(items[i].kind) && !is_owned(
            tracks,
            &items[i],
        ) && !gather::is_listed(&result, &items[i]) {
            let ghost before = result@;
            let item = items[i].clone();
            result.push(item);
            assert(text::views(result@) =~= text::views(before).push(item@));
        }
        i += 1;
    }
    assert(all.take(all.len() as int) =~= all);
    result
}

impl AppView {
    /// Asking for suggestions.
    #[verifier::opaque]
    pub open spec fn suggestions_asked(self) -> AppView {
        if self.busy {
            self.said("Aguarde a operacao atual terminar."@)
        } else if self.db.tracks.len() == 0 {
            self.said("Adicione musicas a biblioteca para receber sugestoes."@)
        } else {
            (AppView { busy: true, suggestions_loaded: true, ..self }).said(
                "Buscando sugestoes..."@,
            ).asked(ActionView::Suggest { queries: seeds(self.db.tracks) })
        }
    }

    /// What was found for suggestions.
    #[verifier::opaque]
    pub open spec fn suggestions_answered(
        self,
        result: Result<Seq<SearchItemView>, Seq<char>>,
    ) -> AppView {
        let ready = AppView { busy: false, ..self };
        match result {
            Ok(items) => {
                let suggested = fresh(self.db.tracks, items);
                (AppView {
                    suggestions: suggested,
                    selected_suggestions: Set::empty(),
                    suggestion_index: 0,
                    ..ready
                }).said(
                    text::decimal_text(suggested.len())
                        + " sugestao(oes). x marca, d baixa, R atualiza."@,
                )
            },
            Err(message) => ready.said("Sugestoes falharam: "@ + message),
        }
    }

    /// Downloading what is chosen of the suggestions.
    #[verifier::opaque]
    pub open spec fn suggestions_wanted(self) -> AppView {
        let items = search::chosen_items(
            self.suggestions,
            self.selected_suggestions,
            self.suggestion_index,
        );
        if self.busy {
            self.said("Aguarde a operacao atual terminar."@)
        } else if items.len() == 0 {
            self.said("Nenhuma sugestao selecionada."@)
        } else {
            self.items_wanted(items)
        }
    }
}

impl App {
    /// Asks for suggestions.
    pub fn ask_suggestions(&mut self)
        requires
            old(self)@.well_formed(),
        ensures
            final(self)@ == old(self)@.suggestions_asked(),
            final(self)@.well_formed(),
    {
        reveal(AppView::suggestions_asked);
        if self.busy {
            self.say("Aguarde a operacao atual terminar.");
            return;
        }
        let rows = self.db.track_rows();
        let count: usize = rows.len();
        let queries = suggestion_seeds(rows);
        if count == 0 {
            self.say("Adicione musicas a biblioteca para receber sugestoes.");
            return;
        }
        self.busy = true;
        self.suggestions_loaded = true;
        assert(self@ =~= (AppView { busy: true, suggestions_loaded: true, ..old(self)@ }));
        self.say("Buscando sugestoes...");
        self.ask(Action::Suggest { queries });
    }

    fn show_suggestions(&mut self, suggested: Vec<SearchItem>)
        requires
            old(self)@.well_formed(),
        ensures
            final(self)@ == (AppView {
                suggestions: text::views(suggested@),
                selected_suggestions: Set::empty(),
                suggestion_index: 0,
                ..old(self)@
            }),
            final(self)@.well_formed(),
    {
        self.suggestions = suggested;
        self.selected_suggestions = Selection::new();
        self.suggestion_index = 0;
        assert(self@ =~= (AppView {
            suggestions: text::views(suggested@),
            selected_suggestions: Set::empty(),
            suggestion_index: 0,
            ..old(self)@
        }));
    }

    /// Shows what was found for suggestions.
    pub fn suggestions_finished(&mut self, result: Result<Vec<SearchItem>, String>)
        requires
            old(self)@.well_formed(),
        ensures
            final(self)@ == old(self)@.suggestions_answered(search::outcome(result)),
            final(self)@.well_formed(),
    {
        reveal(AppView::suggestions_answered);
        self.set_busy(false);
        match result {
            Ok(items) => {
                let suggested = fresh_items(self.db.track_rows(), &items);
                let count: usize = suggested.len();
                self.show_suggestions(suggested);
                self.say_with(
                    text::decimal(count as u64).as_str(),
                    " sugestao(oes). x marca, d baixa, R atualiza.",
                );
            },
            Err(message) => {
                self.say_with("Sugestoes falharam: ", message.as_str());
            },
        }
    }

    /// Downloads what is chosen of the suggestions.
    pub fn download_suggestions(&mut self)
        requires
            old(self)@.well_formed(),
        ensures
            final(self)@ == old(self)@.suggestions_wanted(),
            final(self)@.well_formed(),
    {
        reveal(AppView::suggestions_wanted);
        if self.busy {
            self.say("Aguarde a operacao atual terminar.");
            return;
        }
        let items = search::choose_items(
            &self.suggestions,
            &self.selected_suggestions,
            self.suggestion_index,
        );
        if items.len() == 0 {
            self.say("Nenhuma sugestao selecionada.");
            return;
        }
        self.start_download_items(&items);
    }
}

/// A library is asked about by its artists: each of them, in the order of the tracks, until there are
/// three; for a track by nobody known it is the name of its file, or its
/// title where there is no such name.
pub proof fn lemma_seeds_of_library(tracks: Seq<TrackView>, k: int)
    requires
        0 <= k < tracks.len(),
    ensures
        tracks[k].artist != "Desconhecido"@ ==> seed(tracks[k]) == tracks[k].artist,
        tracks[k].artist == "Desconhecido"@ ==> (paths::stem(tracks[k].path) matches Some(name)
            ==> seed(tracks[k]) == name),
        tracks[k].artist == "Desconhecido"@ && paths::stem(tracks[k].path) is None ==> seed(
            tracks[k],
        ) == tracks[k].title,
        seeds(tracks).len() < 3 ==> seeds(tracks).contains(seed(tracks[k])),
        seeds(tracks)[0] == seed(tracks[0]),
    decreases tracks.len(),
{
    let rest = tracks.drop_last();
    let (before, after) = (seeds(rest), seeds(tracks));
    if rest.len() > 0 {
        lemma_seeds_of_library(
            rest,
            if k < rest.len() {
                k
            } else {
                0
            },
        );
        lemma_seeds(rest);
        assert(rest[0] == tracks[0]);
        assert(after[0] == before[0]);
        if after.len() < 3 {
            if k < rest.len() {
                assert(rest[k] == tracks[k]);
                let i = choose|i: int| 0 <= i < before.len() && before[i] == seed(tracks[k]);
                assert(after[i] == seed(tracks[k]));
            } else if !before.contains(seed(tracks[k])) {
                assert(after[before.len() as int] == seed(tracks[k]));
            }
        }
    } else {
        assert(rest =~= Seq::<TrackView>::empty());
        assert(before =~= Seq::<Seq<char>>::empty());
        assert(after[0] == seed(tracks[0]));
    }
}

/// As long as there are fewer than twenty, every single track that was found and is not in the
/// library is suggested.
pub proof fn lemma_nothing_left_out(tracks: Seq<TrackView>, items: Seq<SearchItemView>, k: int)
    requires
        0 <= k < items.len(),
        items[k].kind == SearchKind::Track,
        forall|i: int|
            0 <= i < tracks.len() ==> !((#[trigger] tracks[i]).provider == Some(items[k].provider)
                && tracks[i].source_id == Some(items[k].source_id)),
        fresh(tracks, items).len() < 20,
    ensures
        exists|j: int|
            0 <= j < fresh(tracks, items).len() && (#[trigger] fresh(tracks, items)[j]).provider
                == items[k].provider && fresh(tracks, items)[j].source_id == items[k].source_id,
    decreases items.len(),
{
    let rest = items.drop_last();
    let (before, after) = (fresh(tracks, rest), fresh(tracks, items));
    if k < rest.len() {
        assert(rest[k] == items[k]);
        lemma_nothing_left_out(tracks, rest, k);
        let j = choose|j: int|
            0 <= j < before.len() && (#[trigger] before[j]).provider == rest[k].provider
                && before[j].source_id == rest[k].source_id;
        assert(after[j] == before[j]);
    } else {
        assert(!owned(tracks, items[k]));
        if gather::listed(before, items[k]) {
            let j = choose|j: int|
                0 <= j < before.len() && gather::same_item(#[trigger] before[j], items[k]);
            assert(after[j] == before[j]);
        } else {
            assert(after[before.len() as int] == items[k]);
        }
    }
}

/// Suggestions are asked for by what the library holds and shown without what it holds; nothing is
/// marked and the cursor is at the top. A search that failed leaves those that were shown.
pub proof fn lemma_suggestions_shown(app: AppView, items: Seq<SearchItemView>, message: Seq<char>)
    ensures
        !app.busy && app.db.tracks.len() > 0 ==> app.suggestions_asked().busy
            && app.suggestions_asked().suggestions_loaded && app.suggestions_asked().actions
            == app.actions.push(ActionView::Suggest { queries: seeds(app.db.tracks) }),
        app.busy || app.db.tracks.len() == 0 ==> app.suggestions_asked().actions == app.actions,
        app.suggestions_answered(Ok(items)).suggestions == fresh(app.db.tracks, items),
        app.suggestions_answered(Ok(items)).selected_suggestions == Set::<int>::empty(),
        app.suggestions_answered(Ok(items)).suggestion_index == 0,
        !app.suggestions_answered(Ok(items)).busy,
        app.suggestions_answered(Err(message)).suggestions == app.suggestions,
        !app.suggestions_answered(Err(message)).busy,
        text::ends_with(app.suggestions_answered(Err(message)).status, message),
{
    reveal(AppView::suggestions_asked);
    reveal(AppView::suggestions_answered);
    reveal(AppView::said);
    reveal(AppView::asked);
    text::lemma_occurs_between("Sugestoes falharam: "@, message, Seq::empty());
}

/// What is chosen of the suggestions is what is downloaded.
pub proof fn lemma_suggestions_wanted(app: AppView)
    requires
        !app.busy,
    ensures
        ({
            let chosen = search::chosen_items(
                app.suggestions,
                app.selected_suggestions,
                app.suggestion_index,
            );
            &&& chosen.len() > 0 ==> app.suggestions_wanted() == app.items_wanted(chosen)
            &&& chosen.len() == 0 ==> app.suggestions_wanted().actions == app.actions
        }),
{
    reveal(AppView::suggestions_wanted);
    reveal(AppView::said);
}

/// Three artists at most are asked about, and twenty tracks at most are suggested.
pub proof fn lemma_suggestion_limits(tracks: Seq<TrackView>, items: Seq<SearchItemView>)
    ensures
        seeds(tracks).len() <= 3,
        fresh(tracks, items).len() <= 20,
{
    lemma_seeds(tracks);
    lemma_fresh(tracks, items);
}

} // verus!
