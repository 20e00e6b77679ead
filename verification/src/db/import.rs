//! Taking the files of a folder into the catalogue, and finding out which of them are gone.

use vstd::prelude::*;

use crate::db;
use crate::db::LibraryDb;
use crate::db::LibraryView;
use crate::db::MAX_IMPORT_FILES;
use crate::model::TrackDraft;
use crate::model::TrackDraftView;
use crate::model::TrackView;
use crate::order;
use crate::order::Key;
use crate::order::KeyView;
use crate::paths;
use crate::scan;
use crate::text;

verus! {

/// Whether the ending of a file's name, without regard to case, is that of a format that can be
/// played.
pub open spec fn playable_ending(ending: Seq<char>) -> bool {
    let lower = text::ascii_lower_text(ending);
    ||| lower == "opus"@
    ||| lower == "ogg"@
    ||| lower == "oga"@
    ||| lower == "mp3"@
    ||| lower == "flac"@
    ||| lower == "aac"@
    ||| lower == "m4a"@
    ||| lower == "wav"@
    ||| lower == "webm"@
}

/// Whether a file can be played, by its name.
pub open spec fn playable(path: Seq<char>) -> bool {
    match paths::extension(path) {
        Some(ending) => playable_ending(ending),
        None => false,
    }
}

/// Whether a file can be played, by its name.
pub fn is_supported_audio(path: &str) -> (result: bool)
    ensures
        result == playable(path@),
{
    match paths::extension_of(path) {
        Some(ending) => {
            let lower = text::ascii_lowered(ending.as_str());
            let value = lower.as_str();
            text::same_text(value, "opus") || text::same_text(value, "ogg") || text::same_text(
                value,
                "oga",
            ) || text::same_text(value, "mp3") || text::same_text(value, "flac")
                || text::same_text(value, "aac") || text::same_text(value, "m4a")
                || text::same_text(value, "wav") || text::same_text(value, "webm")
        },
        None => false,
    }
}

/// A path as it was found on disk. One that is Unicode is its text; one that is not has only a text
/// that stands for it, though the name of its file, up to the ending, may be Unicode all the same.
pub struct FoundPath {
    pub text: String,
    pub exact: bool,
    pub named: bool,
}

/// The view of a [`FoundPath`].
#[verifier::ext_equal]
pub struct FoundPathView {
    pub text: Seq<char>,
    pub exact: bool,
    pub named: bool,
}

impl View for FoundPath {
    type V = FoundPathView;

    open spec fn view(&self) -> FoundPathView {
        FoundPathView { text: self.text@, exact: self.exact, named: self.named }
    }
}

/// A path that is its text.
pub open spec fn exact_path(text: Seq<char>) -> FoundPathView {
    FoundPathView { text, exact: true, named: true }
}

impl FoundPath {
    /// A path that is its text.
    pub fn of(text: &str) -> (result: FoundPath)
        ensures
            result@ == exact_path(text@),
    {
        FoundPath { text: text.to_owned(), exact: true, named: true }
    }

    fn copy(&self) -> (result: FoundPath)
        ensures
            result@ == self@,
    {
        FoundPath { text: self.text.clone(), exact: self.exact, named: self.named }
    }
}

/// What is known of an imported file: its name serves as its title, where that is Unicode.
pub open spec fn import_draft(file: FoundPathView) -> TrackDraftView {
    TrackDraftView {
        provider: None,
        source_id: None,
        title: match paths::stem(file.text) {
            Some(name) => if file.exact || file.named {
                name
            } else {
                "Faixa sem titulo"@
            },
            None => "Faixa sem titulo"@,
        },
        artist: "Desconhecido"@,
        album: None,
        path: file.text,
        duration_seconds: None,
        imported: true,
    }
}

fn draft_of_file(file: &FoundPath) -> (result: TrackDraft)
    ensures
        result@ == import_draft(file@),
{
    let title = match paths::stem_of(file.text.as_str()) {
        Some(name) => if file.exact || file.named {
            name
        } else {
            "Faixa sem titulo".to_owned()
        },
        None => "Faixa sem titulo".to_owned(),
    };
    TrackDraft {
        provider: None,
        source_id: None,
        title,
        artist: "Desconhecido".to_owned(),
        album: None,
        path: file.text.clone(),
        duration_seconds: None,
        imported: true,
    }
}

/// Whether a file was found whose path is this text.
pub open spec fn found_exactly(found: Seq<FoundPathView>, path: Seq<char>) -> bool {
    exists|i: int| 0 <= i < found.len() && (#[trigger] found[i]).exact && found[i].text == path
}

/// The files that can be played, in order; one whose path is its text is taken once.
pub open spec fn playable_files(files: Seq<FoundPathView>) -> Seq<FoundPathView>
    decreases files.len(),
{
    if files.len() == 0 {
        Seq::empty()
    } else {
        let earlier = playable_files(files.drop_last());
        let file = files.last();
        if playable(file.text) && !(file.exact && found_exactly(earlier, file.text)) {
            earlier.push(file)
        } else {
            earlier
        }
    }
}

/// The drafts of a list of files.
pub open spec fn import_drafts(files: Seq<FoundPathView>) -> Seq<TrackDraftView> {
    Seq::new(files.len(), |i: int| import_draft(files[i]))
}

/// The tracks after a look through `root`: an imported one that lies there has its file exactly
/// where that was found, and no other track changes. No path lies in a folder whose own path is not
/// its text.
pub open spec fn marked(
    tracks: Seq<TrackView>,
    root: FoundPathView,
    found: Seq<FoundPathView>,
) -> Seq<TrackView> {
    Seq::new(
        tracks.len(),
        |i: int|
            if tracks[i].imported && root.exact && paths::within(root.text, tracks[i].path) {
                TrackView { available: found_exactly(found, tracks[i].path), ..tracks[i] }
            } else {
                tracks[i]
            },
    )
}

/// The folders that are imported, with one more unless it is there.
pub open spec fn with_root(roots: Seq<Seq<char>>, root: Seq<char>) -> Seq<Seq<char>> {
    if roots.contains(root) {
        roots
    } else {
        roots.push(root)
    }
}

/// Why a folder cannot be imported, if it cannot.
pub open spec fn import_fault(tracks: Seq<TrackView>, found: Seq<FoundPathView>) -> Option<
    Seq<char>,
> {
    if found.len() > MAX_IMPORT_FILES {
        Some(
            "a importacao excedeu o limite de "@ + text::decimal_text(MAX_IMPORT_FILES as nat)
                + " arquivos de audio"@,
        )
    } else {
        db::drafts_fault(tracks, import_drafts(found))
    }
}

/// The library once a folder is imported.
pub open spec fn imported(
    view: LibraryView,
    root: FoundPathView,
    found: Seq<FoundPathView>,
) -> LibraryView {
    LibraryView {
        tracks: marked(db::all_upserted(view.tracks, import_drafts(found)), root, found),
        roots: with_root(view.roots, root.text),
        ..view
    }
}

fn path_keys(list: &Vec<String>) -> (result: Vec<Key>)
    ensures
        result@.len() == list@.len(),
        text::views(result@) == keys_of_paths(text::views(list@)),
{
    let ghost all = text::views(list@);
    let mut keys: Vec<Key> = Vec::new();
    let mut i: usize = 0;
    while i < list.len()
        invariant
            all == text::views(list@),
            i <= list@.len(),
            keys@.len() == i,
            forall|k: int|
                0 <= k < i ==> (#[trigger] keys@[k])@ == (KeyView {
                    first: all[k],
                    second: Seq::empty(),
                }),
        decreases list@.len() - i,
    {
        keys.push(path_key(list[i].as_str()));
        i += 1;
    }
    assert(text::views(keys@) =~= keys_of_paths(all));
    keys
}

fn path_key(path: &str) -> (result: Key)
    ensures
        result@ == (KeyView { first: path@, second: Seq::empty() }),
{
    let key = Key { first: text::chars_of(path), second: Vec::new() };
    assert(key@ =~= (KeyView { first: path@, second: Seq::empty() }));
    key
}

fn keep_playable(files: &Vec<FoundPath>) -> (result: Vec<FoundPath>)
    ensures
        text::views(result@) == playable_files(text::views(files@)),
{
    let ghost all = text::views(files@);
    let mut keys: Vec<Key> = Vec::new();
    let mut fit: Vec<bool> = Vec::new();
    let mut keep: Vec<bool> = Vec::new();
    let mut k: usize = 0;
    while k < files.len()
        invariant
            all == text::views(files@),
            k <= files@.len(),
            keys@.len() == k,
            fit@.len() == k,
            keep@.len() == k,
            forall|p: int| 0 <= p < k ==> (#[trigger] keys@[p])@ == file_keys(all)[p],
            forall|p: int| 0 <= p < k ==> #[trigger] fit@[p] == playable(all[p].text),
            forall|p: int|
                0 <= p < k ==> #[trigger] keep@[p] == (playable(all[p].text) && all[p].exact),
        decreases files@.len() - k,
    {
        assert(all[k as int] == files@[k as int]@);
        let playing = is_supported_audio(files[k].text.as_str());
        keys.push(path_key(files[k].text.as_str()));
        fit.push(playing);
        keep.push(playing && files[k].exact);
        k += 1;
    }
    assert(text::views(keys@) =~= file_keys(all));
    let first = order::first_rows(&keys, &keep);
    let mut result: Vec<FoundPath> = Vec::new();
    let mut i: usize = 0;
    assert(text::views(result@) =~= playable_files(all.take(0)));
    while i < files.len()
        invariant
            all == text::views(files@),
            fit@.len() == all.len(),
            keep@.len() == all.len(),
            first@.len() == all.len(),
            forall|p: int| 0 <= p < all.len() ==> #[trigger] fit@[p] == playable(all[p].text),
            forall|p: int|
                0 <= p < all.len() ==> #[trigger] keep@[p] == (playable(all[p].text)
                    && all[p].exact),
            forall|p: int|
                0 <= p < all.len() ==> #[trigger] first@[p] == order::first_of(
                    file_keys(all),
                    keep@,
                    p,
                ),
            i <= files@.len(),
            text::views(result@) == playable_files(all.take(i as int)),
        decreases files@.len() - i,
    {
        let ghost before = result@;
        proof {
            assert(all.take(i + 1).drop_last() =~= all.take(i as int));
            assert(all[i as int] == files@[i as int]@);
            lemma_first_file(all, keep@, i as int);
        }
        if first[i] || (fit[i] && !files[i].exact) {
            let file = files[i].copy();
            result.push(file);
            assert(text::views(result@) =~= text::views(before).push(file@));
        }
        i += 1;
    }
    assert(all.take(all.len() as int) =~= all);
    result
}

/// What a list of files is ordered by.
spec fn file_keys(files: Seq<FoundPathView>) -> Seq<KeyView> {
    Seq::new(files.len(), |i: int| KeyView { first: files[i].text, second: Seq::empty() })
}

proof fn lemma_first_file(files: Seq<FoundPathView>, keep: Seq<bool>, i: int)
    requires
        keep.len() == files.len(),
        forall|p: int|
            0 <= p < files.len() ==> #[trigger] keep[p] == (playable(files[p].text)
                && files[p].exact),
        0 <= i < files.len(),
    ensures
        order::first_of(file_keys(files), keep, i) == (keep[i] && !found_exactly(
            playable_files(files.take(i)),
            files[i].text,
        )),
{
    let earlier = files.take(i);
    let keys = file_keys(files);
    lemma_playable_files(earlier);
    if keep[i] {
        if found_exactly(earlier, files[i].text) {
            assert(found_exactly(playable_files(earlier), files[i].text));
            let q = choose|q: int|
                0 <= q < earlier.len() && (#[trigger] earlier[q]).exact && earlier[q].text
                    == files[i].text;
            assert(earlier[q] == files[q]);
            assert(keep[q]);
            assert(keys[q] == keys[i]);
        } else {
            assert(!found_exactly(playable_files(earlier), files[i].text));
            assert forall|q: int| 0 <= q < i && #[trigger] keep[q] implies keys[q] != keys[i] by {
                assert(earlier[q] == files[q]);
                assert(keys[q].first == files[q].text);
            }
        }
    }
}

/// Whether no two of the files whose paths are their texts have the same one.
pub open spec fn distinct_files(files: Seq<FoundPathView>) -> bool {
    forall|i: int, j: int|
        0 <= i < j < files.len() && (#[trigger] files[i]).exact && (#[trigger] files[j]).exact
            ==> files[i].text != files[j].text
}

/// What is imported is what can be played of what was found, and no file twice.
pub proof fn lemma_playable_files(files: Seq<FoundPathView>)
    ensures
        distinct_files(playable_files(files)),
        forall|path: Seq<char>| #[trigger]
            found_exactly(playable_files(files), path) <==> found_exactly(files, path) && playable(
                path,
            ),
        forall|file: FoundPathView|
            !file.exact ==> (#[trigger] playable_files(files).contains(file) <==> files.contains(
                file,
            ) && playable(file.text)),
    decreases files.len(),
{
    if files.len() > 0 {
        let rest = files.drop_last();
        let earlier = playable_files(rest);
        let taken = playable_files(files);
        lemma_playable_files(rest);
        assert(files =~= rest.push(files.last()));
        assert forall|path: Seq<char>| #[trigger]
            found_exactly(taken, path) <==> found_exactly(files, path) && playable(path) by {
            lemma_found_push(rest, files.last(), path);
            lemma_found_push(earlier, files.last(), path);
        }
        assert forall|file: FoundPathView| !file.exact implies (#[trigger] taken.contains(file)
            <==> files.contains(file) && playable(file.text)) by {
            lemma_contains_push(rest, files.last(), file);
            lemma_contains_push(earlier, files.last(), file);
        }
        assert forall|i: int, j: int|
            0 <= i < j < taken.len() && (#[trigger] taken[i]).exact && (
            #[trigger] taken[j]).exact implies taken[i].text != taken[j].text by {
            assert(earlier[i] == taken[i]);
            if j < earlier.len() {
                assert(earlier[j] == taken[j]);
            }
        }
    }
}

proof fn lemma_found_push(found: Seq<FoundPathView>, file: FoundPathView, path: Seq<char>)
    ensures
        found_exactly(found.push(file), path) == (found_exactly(found, path) || (file.exact
            && file.text == path)),
{
    let longer = found.push(file);
    if found_exactly(found, path) {
        let i = choose|i: int|
            0 <= i < found.len() && (#[trigger] found[i]).exact && found[i].text == path;
        assert(longer[i] == found[i]);
    }
    if file.exact && file.text == path {
        assert(longer[found.len() as int] == file);
    }
    if found_exactly(longer, path) {
        let i = choose|i: int|
            0 <= i < longer.len() && (#[trigger] longer[i]).exact && longer[i].text == path;
        if i < found.len() {
            assert(found[i] == longer[i]);
        }
    }
}

/// Marking tracks keeps their identifiers, paths and sources.
proof fn lemma_marked_keeps(
    tracks: Seq<TrackView>,
    root: FoundPathView,
    found: Seq<FoundPathView>,
)
    requires
        db::growing_tracks(tracks),
        db::distinct_paths(tracks),
    ensures
        db::growing_tracks(marked(tracks, root, found)),
        db::distinct_paths(marked(tracks, root, found)),
        db::distinct_sources(tracks) ==> db::distinct_sources(marked(tracks, root, found)),
        forall|id: i64| db::known(tracks, id) ==> #[trigger] db::known(marked(tracks, root, found), id),
{
    let after = marked(tracks, root, found);
    assert forall|i: int, j: int| 0 <= i < j < after.len() implies (#[trigger] after[i]).path != (
    #[trigger] after[j]).path && after[i].id < after[j].id by {
        assert(after[i].path == tracks[i].path && after[j].path == tracks[j].path);
        assert(after[i].id == tracks[i].id && after[j].id == tracks[j].id);
    }
    assert forall|i: int| 0 <= i < after.len() implies (#[trigger] after[i]).id > 0 by {
        assert(after[i].id == tracks[i].id);
    }
    assert forall|id: i64| db::known(tracks, id) implies #[trigger] db::known(after, id) by {
        let i = db::row_of(tracks, id);
        assert(after[i].id == id);
    }
}

/// A look through a folder never touches a track that lies elsewhere or was not imported: such a
/// track has its file after it exactly where it had it before.
pub proof fn lemma_others_untouched(
    tracks: Seq<TrackView>,
    root: FoundPathView,
    found: Seq<FoundPathView>,
    i: int,
)
    requires
        0 <= i < tracks.len(),
        !tracks[i].imported || !root.exact || !paths::within(root.text, tracks[i].path),
    ensures
        marked(tracks, root, found)[i] == tracks[i],
{
}

proof fn lemma_contains_push<T>(list: Seq<T>, item: T, sought: T)
    ensures
        list.push(item).contains(sought) == (list.contains(sought) || item == sought),
{
    let longer = list.push(item);
    if list.contains(sought) {
        let i = choose|i: int| 0 <= i < list.len() && list[i] == sought;
        assert(longer[i] == sought);
    }
    if item == sought {
        assert(longer[list.len() as int] == sought);
    }
}

/// The place of the last draft with this path, or less than nothing where there is none.
spec fn last_draft(drafts: Seq<TrackDraftView>, path: Seq<char>) -> int
    decreases drafts.len(),
{
    if drafts.len() == 0 {
        -1
    } else if drafts.last().path == path {
        drafts.len() - 1
    } else {
        last_draft(drafts.drop_last(), path)
    }
}

proof fn lemma_last_draft(drafts: Seq<TrackDraftView>, path: Seq<char>)
    ensures
        -1 <= last_draft(drafts, path) < drafts.len(),
        last_draft(drafts, path) >= 0 ==> drafts[last_draft(drafts, path)].path == path,
        forall|k: int|
            last_draft(drafts, path) < k < drafts.len() ==> (#[trigger] drafts[k]).path != path,
    decreases drafts.len(),
{
    if drafts.len() > 0 && drafts.last().path != path {
        let rest = drafts.drop_last();
        lemma_last_draft(rest, path);
        assert forall|k: int| last_draft(drafts, path) < k < drafts.len() implies (
        #[trigger] drafts[k]).path != path by {
            if k < rest.len() {
                assert(rest[k] == drafts[k]);
            }
        }
    }
}

/// Whether some track lies at a path.
spec fn present(tracks: Seq<TrackView>, path: Seq<char>) -> bool {
    exists|i: int| 0 <= i < tracks.len() && (#[trigger] tracks[i]).path == path
}

/// What storing drafts makes of the rows: one holds the last draft of its path, and one whose path
/// no draft has is as before.
proof fn lemma_stored(tracks: Seq<TrackView>, drafts: Seq<TrackDraftView>)
    requires
        db::growing_tracks(tracks),
        db::distinct_paths(tracks),
        db::drafts_fault(tracks, drafts) is None,
    ensures
        ({
            let after = db::all_upserted(tracks, drafts);
            &&& tracks.len() <= after.len()
            &&& forall|i: int|
                0 <= i < tracks.len() ==> (#[trigger] after[i]).path == tracks[i].path && after[i].id
                    == tracks[i].id
            &&& forall|i: int|
                0 <= i < after.len() && last_draft(drafts, (#[trigger] after[i]).path) >= 0
                    ==> after[i] == db::row_from(
                    drafts[last_draft(drafts, after[i].path)],
                    after[i].id,
                )
            &&& forall|i: int|
                0 <= i < after.len() && last_draft(drafts, (#[trigger] after[i]).path) < 0 ==> i
                    < tracks.len() && after[i] == tracks[i]
            &&& forall|k: int|
                0 <= k < drafts.len() ==> present(after, (#[trigger] drafts[k]).path)
        }),
    decreases drafts.len(),
{
    if drafts.len() > 0 {
        let rest = drafts.drop_last();
        let draft = drafts.last();
        let before = db::all_upserted(tracks, rest);
        let after = db::all_upserted(tracks, drafts);
        lemma_stored(tracks, rest);
        db::lemma_drafts_keep(tracks, rest);
        db::lemma_upsert_keeps(before, draft);
        db::lemma_path_row(before, draft.path);
        let at = db::path_row(before, draft.path);
        assert(after[at] == db::row_from(draft, after[at].id));
        assert forall|i: int| 0 <= i < after.len() && i != at implies #[trigger] after[i]
            == before[i] && last_draft(drafts, after[i].path) == last_draft(rest, before[i].path) by {
            assert(after[i].path != after[at].path);
        }
        assert forall|i: int|
            0 <= i < after.len() && last_draft(drafts, (#[trigger] after[i]).path) >= 0 implies after[i]
            == db::row_from(drafts[last_draft(drafts, after[i].path)], after[i].id) by {
            if i != at {
                lemma_last_draft(rest, before[i].path);
                assert(rest[last_draft(rest, before[i].path)] == drafts[last_draft(
                    drafts,
                    after[i].path,
                )]);
            }
        }
        assert forall|i: int|
            0 <= i < after.len() && last_draft(drafts, (#[trigger] after[i]).path) < 0 implies i
            < tracks.len() && after[i] == tracks[i] by {
            if i != at {
                assert(after[i] == before[i]);
            }
        }
        assert forall|k: int| 0 <= k < drafts.len() implies present(
            after,
            (#[trigger] drafts[k]).path,
        ) by {
            if k < rest.len() {
                assert(rest[k] == drafts[k]);
                let i = choose|i: int|
                    0 <= i < before.len() && (#[trigger] before[i]).path == rest[k].path;
                assert(after[i].path == before[i].path);
            } else {
                assert(after[at].path == draft.path);
            }
        }
        assert forall|i: int| 0 <= i < tracks.len() implies (#[trigger] after[i]).path
            == tracks[i].path && after[i].id == tracks[i].id by {
            assert(before[i].path == tracks[i].path);
        }
    }
}

/// A path at which no track lies after files were stored is that of none of them.
proof fn lemma_unseen(tracks: Seq<TrackView>, found: Seq<FoundPathView>, path: Seq<char>)
    requires
        db::growing_tracks(tracks),
        db::distinct_paths(tracks),
        db::drafts_fault(tracks, import_drafts(found)) is None,
        db::path_row(db::all_upserted(tracks, import_drafts(found)), path) >= db::all_upserted(
            tracks,
            import_drafts(found),
        ).len(),
    ensures
        !found_exactly(found, path),
{
    let drafts = import_drafts(found);
    let after = db::all_upserted(tracks, drafts);
    lemma_stored(tracks, drafts);
    db::lemma_path_row(after, path);
    if found_exactly(found, path) {
        let k = choose|k: int|
            0 <= k < found.len() && (#[trigger] found[k]).exact && found[k].text == path;
        assert(present(after, drafts[k].path));
    }
}

/// Files that all have tracks can be stored, and no row comes to the others.
proof fn lemma_no_new_rows(tracks: Seq<TrackView>, found: Seq<FoundPathView>)
    requires
        db::growing_tracks(tracks),
        db::distinct_paths(tracks),
        forall|k: int| 0 <= k < found.len() ==> present(tracks, (#[trigger] found[k]).text),
    ensures
        db::drafts_fault(tracks, import_drafts(found)) is None,
        db::all_upserted(tracks, import_drafts(found)).len() == tracks.len(),
    decreases found.len(),
{
    if found.len() > 0 {
        let rest = found.drop_last();
        let draft = import_draft(found.last());
        assert(import_drafts(found).drop_last() =~= import_drafts(rest));
        assert(import_drafts(found).last() == draft);
        assert forall|k: int| 0 <= k < rest.len() implies present(
            tracks,
            (#[trigger] rest[k]).text,
        ) by {
            assert(rest[k] == found[k]);
        }
        lemma_no_new_rows(tracks, rest);
        lemma_stored(tracks, import_drafts(rest));
        let before = db::all_upserted(tracks, import_drafts(rest));
        assert(present(tracks, found[found.len() - 1].text));
        let i = choose|i: int|
            0 <= i < tracks.len() && (#[trigger] tracks[i]).path == draft.path;
        assert(before[i].path == draft.path);
        db::lemma_path_row(before, draft.path);
    }
}

/// Whether the track of a file that was found is there, and has its file.
pub open spec fn taken_in(tracks: Seq<TrackView>, file: FoundPathView) -> bool {
    exists|i: int|
        0 <= i < tracks.len() && #[trigger] tracks[i] == db::row_from(
            import_draft(file),
            tracks[i].id,
        )
}

/// Whether no file that was found later has the same text.
pub open spec fn last_of_text(found: Seq<FoundPathView>, k: int) -> bool {
    forall|j: int| k < j < found.len() ==> (#[trigger] found[j]).text != found[k].text
}

/// After an import every file that was found and whose path is its text is an imported track that
/// has its file; and a track that was imported from the folder has its file exactly where that was
/// found. A file with a path that is not Unicode can have the same text as another one: the last
/// of them gives the track its title.
pub proof fn lemma_import_marks(
    view: LibraryView,
    root: FoundPathView,
    found: Seq<FoundPathView>,
)
    requires
        view.well_formed(),
        import_fault(view.tracks, found) is None,
    ensures
        forall|k: int|
            0 <= k < found.len() && (#[trigger] found[k]).exact && last_of_text(found, k)
                ==> taken_in(imported(view, root, found).tracks, found[k]),
        root.exact ==> forall|i: int|
            0 <= i < imported(view, root, found).tracks.len() && (#[trigger] imported(
                view,
                root,
                found,
            ).tracks[i]).imported && paths::within(
                root.text,
                imported(view, root, found).tracks[i].path,
            ) ==> imported(view, root, found).tracks[i].available == found_exactly(
                found,
                imported(view, root, found).tracks[i].path,
            ),
{
    let drafts = import_drafts(found);
    let stored = db::all_upserted(view.tracks, drafts);
    let after = imported(view, root, found).tracks;
    lemma_stored(view.tracks, drafts);
    assert forall|k: int|
        0 <= k < found.len() && (#[trigger] found[k]).exact && last_of_text(
            found,
            k,
        ) implies taken_in(after, found[k]) by {
        assert(present(stored, drafts[k].path));
        let i = choose|i: int|
            0 <= i < stored.len() && (#[trigger] stored[i]).path == drafts[k].path;
        lemma_last_draft(drafts, stored[i].path);
        let last = last_draft(drafts, stored[i].path);
        if last < k {
            assert(drafts[k].path != stored[i].path);
        }
        if last > k {
            assert(found[last].text != found[k].text);
            assert(drafts[last].path == found[last].text);
        }
        assert(stored[i] == db::row_from(drafts[k], stored[i].id));
        assert(found_exactly(found, stored[i].path));
        assert(after[i] == db::row_from(import_draft(found[k]), after[i].id));
    }
}

/// Importing a folder again, with the same files in it, changes nothing.
pub proof fn lemma_import_again(
    view: LibraryView,
    root: FoundPathView,
    found: Seq<FoundPathView>,
)
    requires
        view.well_formed(),
        import_fault(view.tracks, found) is None,
    ensures
        import_fault(imported(view, root, found).tracks, found) is None,
        imported(imported(view, root, found), root, found) == imported(view, root, found),
{
    let drafts = import_drafts(found);
    let stored = db::all_upserted(view.tracks, drafts);
    let once = imported(view, root, found);
    db::lemma_drafts_keep(view.tracks, drafts);
    lemma_marked_keeps(stored, root, found);
    lemma_stored(view.tracks, drafts);
    assert forall|k: int| 0 <= k < found.len() implies present(
        once.tracks,
        (#[trigger] found[k]).text,
    ) by {
        assert(present(stored, drafts[k].path));
        let i = choose|i: int|
            0 <= i < stored.len() && (#[trigger] stored[i]).path == drafts[k].path;
        assert(once.tracks[i].path == found[k].text);
    }
    lemma_no_new_rows(once.tracks, found);
    lemma_stored(once.tracks, drafts);
    let again = db::all_upserted(once.tracks, drafts);
    assert forall|i: int| 0 <= i < again.len() implies marked(again, root, found)[i]
        == #[trigger] once.tracks[i] by {
        assert(once.tracks[i].path == stored[i].path && once.tracks[i].id == stored[i].id);
        assert(again[i].path == once.tracks[i].path && again[i].id == once.tracks[i].id);
        if last_draft(drafts, stored[i].path) >= 0 {
            assert(again[i] == stored[i]);
        } else {
            assert(again[i] == once.tracks[i]);
        }
    }
    assert(marked(again, root, found) =~= once.tracks);
    assert(with_root(once.roots, root.text) == once.roots) by {
        lemma_contains_push(view.roots, root.text, root.text);
    }
    assert(imported(once, root, found) =~= once);
}

impl LibraryDb {
    /// Remembers a folder that is imported.
    pub fn add_import_root(&mut self, root: &str)
        requires
            old(self)@.well_formed(),
        ensures
            final(self)@.well_formed(),
            final(self)@ == (LibraryView {
                roots: with_root(old(self)@.roots, root@),
                ..old(self)@
            }),
    {
        if !paths::lists(&self.roots, root) {
            self.roots.push(root.to_owned());
            assert(self@.roots =~= old(self)@.roots.push(root@));
        }
        assert(self@ =~= (LibraryView { roots: with_root(old(self)@.roots, root@), ..old(self)@ }));
    }

    /// Stores the drafts of all found files; the result tells of each track whether a file was
    /// found whose path is its own. Where one cannot be stored, the tracks may be left halfway.
    fn put_files(&mut self, found: &Vec<FoundPath>) -> (result: Result<Vec<bool>, String>)
        requires
            db::growing_tracks(old(self)@.tracks),
            db::distinct_paths(old(self)@.tracks),
            distinct_files(text::views(found@)),
        ensures
            match result {
                Ok(touched) => db::drafts_fault(
                    old(self)@.tracks,
                    import_drafts(text::views(found@)),
                ) is None && final(self)@ == db::with_tracks(
                    old(self)@,
                    db::all_upserted(old(self)@.tracks, import_drafts(text::views(found@))),
                ) && touched@.len() == final(self)@.tracks.len() && forall|i: int|
                    0 <= i < touched@.len() ==> #[trigger] touched@[i] == found_exactly(
                        text::views(found@),
                        final(self)@.tracks[i].path,
                    ),
                Err(message) => db::drafts_fault(
                    old(self)@.tracks,
                    import_drafts(text::views(found@)),
                ) == Some(message@) && exists|rows: Seq<TrackView>| final(self)@
                    == #[trigger] db::with_tracks(old(self)@, rows),
            },
    {
        let ghost all = text::views(found@);
        let ghost drafts = import_drafts(all);
        let ghost start = self@;
        let mut touched: Vec<bool> = Vec::new();
        let mut keys: Vec<Key> = Vec::new();
        let mut keep: Vec<bool> = Vec::new();
        let mut k: usize = 0;
        while k < self.tracks.len()
            invariant
                *self == *old(self),
                k <= self.tracks@.len(),
                touched@.len() == k,
                keys@.len() == k,
                keep@.len() == k,
                forall|i: int| 0 <= i < k ==> !#[trigger] touched@[i],
                forall|i: int| 0 <= i < k ==> #[trigger] keep@[i],
                forall|i: int|
                    0 <= i < k ==> (#[trigger] keys@[i])@ == (KeyView {
                        first: self@.tracks[i].path,
                        second: Seq::empty(),
                    }),
            decreases self.tracks@.len() - k,
        {
            assert(self@.tracks[k as int] == self.tracks@[k as int]@);
            touched.push(false);
            keys.push(path_key(self.tracks[k].path.as_str()));
            keep.push(true);
            k += 1;
        }
        let places = order::listing(&keys, &keep);
        let ghost listed = order::positions(places@);
        let mut blurred: Vec<usize> = Vec::new();
        let mut n: usize = 0;
        proof {
            assert(drafts.take(0) =~= Seq::<TrackDraftView>::empty());
            assert(all.take(0) =~= Seq::<FoundPathView>::empty());
            assert forall|i: int| 0 <= i < places@.len() implies (#[trigger] places@[i])
                < keys@.len() by {
                assert(listed[i] == places@[i]);
            }
        }
        while n < found.len()
            invariant
                all == text::views(found@),
                drafts == import_drafts(all),
                start == old(self)@,
                db::growing_tracks(start.tracks),
                db::distinct_paths(start.tracks),
                distinct_files(all),
                keys@.len() == start.tracks.len(),
                keep@.len() == start.tracks.len(),
                listed == order::positions(places@),
                order::is_listing(text::views(keys@), keep@, listed),
                forall|i: int| 0 <= i < places@.len() ==> (#[trigger] places@[i]) < keys@.len(),
                forall|i: int| 0 <= i < start.tracks.len() ==> #[trigger] keep@[i],
                forall|i: int|
                    0 <= i < start.tracks.len() ==> (#[trigger] keys@[i])@ == (KeyView {
                        first: start.tracks[i].path,
                        second: Seq::empty(),
                    }),
                start.tracks.len() <= self@.tracks.len(),
                forall|i: int|
                    0 <= i < start.tracks.len() ==> (#[trigger] self@.tracks[i]).path
                        == start.tracks[i].path,
                forall|i: int|
                    start.tracks.len() <= i < self@.tracks.len() ==> found_exactly(
                        all.take(n as int),
                        (#[trigger] self@.tracks[i]).path,
                    ) || blurred@.contains(i as usize),
                forall|m: int|
                    0 <= m < blurred@.len() ==> (#[trigger] blurred@[m]) < self@.tracks.len(),
                n <= found@.len(),
                db::drafts_fault(start.tracks, drafts.take(n as int)) is None,
                self@ == db::with_tracks(
                    start,
                    db::all_upserted(start.tracks, drafts.take(n as int)),
                ),
                touched@.len() == self@.tracks.len(),
                forall|i: int|
                    0 <= i < touched@.len() ==> #[trigger] touched@[i] == found_exactly(
                        all.take(n as int),
                        self@.tracks[i].path,
                    ),
            decreases found@.len() - n,
        {
            let ghost before = self@;
            let ghost seen = touched@;
            let ghost blurs = blurred@;
            let draft = draft_of_file(&found[n]);
            proof {
                assert(all[n as int] == found@[n as int]@);
                assert(drafts.take(n + 1).drop_last() =~= drafts.take(n as int));
                assert(drafts.take(n + 1).last() == draft@);
                assert(all.take(n + 1) =~= all.take(n as int).push(all[n as int]));
                db::lemma_drafts_keep(start.tracks, drafts.take(n as int));
            }
            let row: usize = if found[n].exact {
                let at = order::find_row(&keys, &places, &path_key(found[n].text.as_str()));
                let row: usize = match at {
                    Some(row) => row,
                    None => self.find_among(&blurred, found[n].text.as_str()),
                };
                proof {
                    assert(self@.tracks.len() == self.tracks@.len());
                    if at is Some {
                        assert(self@.tracks[row as int].path == draft@.path);
                    } else if row == self@.tracks.len() {
                        assert forall|i: int| 0 <= i < self@.tracks.len() implies (
                        #[trigger] self@.tracks[i]).path != draft@.path by {
                            if i < start.tracks.len() {
                                assert(keep@[i]);
                                assert(listed.contains(i));
                                let m = choose|m: int| 0 <= m < listed.len() && listed[m] == i;
                                assert(keys@[places@[m] as int]@.first == start.tracks[i].path);
                            } else if found_exactly(all.take(n as int), self@.tracks[i].path) {
                                let m = choose|m: int|
                                    0 <= m < n && (#[trigger] all.take(n as int)[m]).exact
                                        && all.take(n as int)[m].text == self@.tracks[i].path;
                                assert(all[m] == all.take(n as int)[m]);
                                assert(all[m].text != all[n as int].text);
                            } else {
                                assert(blurred@.contains(i as usize));
                                let m = choose|m: int|
                                    0 <= m < blurred@.len() && blurred@[m] == i as usize;
                                assert(self@.tracks[blurred@[m] as int].path != draft@.path);
                            }
                        }
                    }
                    db::lemma_path_row_is(self@.tracks, draft@.path, row as int);
                }
                row
            } else {
                self.find_path(found[n].text.as_str())
            };
            let count: usize = self.tracks.len();
            assert(count == before.tracks.len());
            match self.put_at(&draft, row) {
                Ok(at) => {
                    proof {
                        db::lemma_upsert_keeps(before.tracks, draft@);
                        db::lemma_path_row(before.tracks, draft@.path);
                    }
                    if at < touched.len() {
                        if found[n].exact {
                            touched.set(at, true);
                        }
                    } else {
                        touched.push(found[n].exact);
                        if !found[n].exact {
                            blurred.push(at);
                        }
                    }
                    proof {
                        assert(self@ =~= db::with_tracks(
                            start,
                            db::all_upserted(start.tracks, drafts.take(n + 1)),
                        ));
                        assert(blurs.len() < blurred@.len() ==> blurred@[blurs.len() as int] == at);
                        assert forall|i: int|
                            start.tracks.len() <= i < self@.tracks.len() implies found_exactly(
                            all.take(n + 1),
                            (#[trigger] self@.tracks[i]).path,
                        ) || blurred@.contains(i as usize) by {
                            lemma_found_push(
                                all.take(n as int),
                                all[n as int],
                                self@.tracks[i].path,
                            );
                            if i < before.tracks.len() {
                                assert(self@.tracks[i].path == before.tracks[i].path);
                                if blurs.contains(i as usize) {
                                    let m = choose|m: int|
                                        0 <= m < blurs.len() && blurs[m] == i as usize;
                                    assert(blurred@[m] == i as usize);
                                }
                            }
                        }
                        assert forall|i: int| 0 <= i < touched@.len() implies #[trigger] touched@[i]
                            == found_exactly(all.take(n + 1), self@.tracks[i].path) by {
                            lemma_found_push(
                                all.take(n as int),
                                all[n as int],
                                self@.tracks[i].path,
                            );
                            if i < before.tracks.len() {
                                assert(seen[i] == found_exactly(
                                    all.take(n as int),
                                    before.tracks[i].path,
                                ));
                                assert(self@.tracks[i].path == before.tracks[i].path);
                            }
                            if i != at {
                                assert(self@.tracks[i].path != draft@.path) by {
                                    if i < at {
                                        assert(self@.tracks[i].path != self@.tracks[at as int].path);
                                    } else {
                                        assert(self@.tracks[at as int].path != self@.tracks[i].path);
                                    }
                                }
                            } else if at == before.tracks.len() && !all[n as int].exact {
                                assert(import_drafts(all.take(n as int)) =~= drafts.take(n as int));
                                lemma_unseen(start.tracks, all.take(n as int), draft@.path);
                            }
                        }
                    }
                },
                Err(message) => {
                    proof {
                        db::lemma_fault_stays(start.tracks, drafts, n + 1);
                        assert(self@ =~= db::with_tracks(start, self@.tracks));
                    }
                    return Err(message);
                },
            }
            n += 1;
        }
        assert(drafts.take(drafts.len() as int) =~= drafts);
        assert(all.take(all.len() as int) =~= all);
        Ok(touched)
    }

    /// The row of the track at a path, sought among some rows only; the number of tracks where none
    /// of them is it.
    fn find_among(&self, rows: &Vec<usize>, path: &str) -> (result: usize)
        requires
            forall|m: int| 0 <= m < rows@.len() ==> (#[trigger] rows@[m]) < self@.tracks.len(),
        ensures
            result <= self@.tracks.len(),
            result < self@.tracks.len() ==> self@.tracks[result as int].path == path@,
            result == self@.tracks.len() ==> forall|m: int|
                0 <= m < rows@.len() ==> self@.tracks[(#[trigger] rows@[m]) as int].path != path@,
    {
        let mut i: usize = 0;
        while i < rows.len()
            invariant
                i <= rows@.len(),
                forall|m: int| 0 <= m < rows@.len() ==> (#[trigger] rows@[m]) < self@.tracks.len(),
                forall|m: int|
                    0 <= m < i ==> self@.tracks[(#[trigger] rows@[m]) as int].path != path@,
            decreases rows@.len() - i,
        {
            let row: usize = rows[i];
            assert(self@.tracks[row as int] == self.tracks@[row as int]@);
            if text::same_text(self.tracks[row].path.as_str(), path) {
                return row;
            }
            i += 1;
        }
        self.tracks.len()
    }

    /// Imports the files that were found below `root`: those that can be played are stored, those
    /// that were imported before and are not among them lose their file, and nothing else changes.
    /// Gives the number of files stored, or changes nothing.
    pub fn scan_import_root(&mut self, root: &FoundPath, files: &Vec<FoundPath>) -> (result: Result<
        usize,
        String,
    >)
        requires
            old(self)@.well_formed(),
        ensures
            final(self)@.well_formed(),
            match result {
                Ok(count) => {
                    let found = playable_files(text::views(files@));
                    import_fault(old(self)@.tracks, found) is None && count == found.len() && final(
                        self)@ == imported(old(self)@, root@, found)
                },
                Err(message) => import_fault(
                    old(self)@.tracks,
                    playable_files(text::views(files@)),
                ) == Some(message@) && final(self)@ == old(self)@,
            },
    {
        let found = keep_playable(files);
        let ghost paths_found = text::views(found@);
        let ghost start = self@;
        if found.len() > MAX_IMPORT_FILES {
            let mut message = "a importacao excedeu o limite de ".to_owned();
            message.push_str(text::decimal(MAX_IMPORT_FILES as u64).as_str());
            message.push_str(" arquivos de audio");
            return Err(message);
        }
        let saved = db::copied_tracks(&self.tracks);
        proof {
            lemma_playable_files(text::views(files@));
        }
        let touched = match self.put_files(&found) {
            Ok(touched) => touched,
            Err(message) => {
                self.tracks = saved;
                assert(self@ =~= start);
                return Err(message);
            },
        };
        let ghost stored = self@.tracks;
        proof {
            db::lemma_drafts_keep(start.tracks, import_drafts(paths_found));
            lemma_marked_keeps(stored, root@, paths_found);
        }
        let mut i: usize = 0;
        while i < self.tracks.len()
            invariant
                start == old(self)@,
                stored == db::all_upserted(start.tracks, import_drafts(paths_found)),
                self@ == db::with_tracks(start, self@.tracks),
                self@.tracks.len() == stored.len(),
                touched@.len() == stored.len(),
                i <= stored.len(),
                forall|k: int|
                    0 <= k < touched@.len() ==> #[trigger] touched@[k] == found_exactly(
                        paths_found,
                        stored[k].path,
                    ),
                forall|k: int|
                    0 <= k < i ==> (#[trigger] self@.tracks[k]) == marked(
                        stored,
                        root@,
                        paths_found,
                    )[k],
                forall|k: int|
                    i <= k < stored.len() ==> (#[trigger] self@.tracks[k]) == stored[k],
            decreases stored.len() - i,
        {
            let ghost before = self@;
            assert(self@.tracks[i as int] == self.tracks@[i as int]@);
            if self.tracks[i].imported && root.exact && paths::lies_within(
                root.text.as_str(),
                self.tracks[i].path.as_str(),
            ) {
                let mut row = self.tracks[i].clone();
                row.available = touched[i];
                self.tracks.set(i, row);
                proof {
                    assert(self@.tracks =~= before.tracks.update(i as int, row@));
                    assert(self@ =~= db::with_tracks(start, self@.tracks));
                    assert(row@ =~= marked(stored, root@, paths_found)[i as int]);
                }
            }
            i += 1;
        }
        proof {
            assert(self@.tracks =~= marked(stored, root@, paths_found));
            db::lemma_more_known(start, self@);
        }
        self.add_import_root(root.text.as_str());
        assert(self@ =~= imported(start, root@, paths_found));
        Ok(found.len())
    }

    /// The folders that are imported, in the order of their paths.
    pub fn import_roots(&self) -> (result: Vec<String>)
        ensures
            text::views(result@) == db::picked(
                self@.roots,
                order::listing_of(
                    keys_of_paths(self@.roots),
                    db::everything(self@.roots.len()),
                ),
            ),
            order::is_listing(
                keys_of_paths(self@.roots),
                db::everything(self@.roots.len()),
                order::listing_of(keys_of_paths(self@.roots), db::everything(self@.roots.len())),
            ),
    {
        let keys = path_keys(&self.roots);
        let mut keep: Vec<bool> = Vec::new();
        let mut i: usize = 0;
        while i < self.roots.len()
            invariant
                i <= self.roots@.len(),
                keep@.len() == i,
                forall|k: int| 0 <= k < i ==> #[trigger] keep@[k],
            decreases self.roots@.len() - i,
        {
            keep.push(true);
            i += 1;
        }
        assert(text::views(keys@) =~= keys_of_paths(self@.roots));
        assert(keep@ =~= db::everything(self@.roots.len()));
        let places = order::listing(&keys, &keep);
        let ghost all = order::positions(places@);
        let mut result: Vec<String> = Vec::new();
        let mut k: usize = 0;
        while k < places.len()
            invariant
                k <= places@.len(),
                all == order::positions(places@),
                order::is_listing(
                    keys_of_paths(self@.roots),
                    db::everything(self@.roots.len()),
                    all,
                ),
                result@.len() == k,
                forall|m: int| 0 <= m < k ==> (#[trigger] result@[m])@ == self@.roots[all[m]],
            decreases places@.len() - k,
        {
            let place: usize = places[k];
            assert(all[k as int] == place);
            assert(0 <= all[k as int] < keys_of_paths(self@.roots).len());
            assert(self@.roots[place as int] == self.roots@[place as int]@);
            result.push(self.roots[place].clone());
            k += 1;
        }
        assert(text::views(result@) =~= db::picked(self@.roots, all));
        result
    }
}

/// What a list of paths is ordered by.
pub open spec fn keys_of_paths(roots: Seq<Seq<char>>) -> Seq<KeyView> {
    Seq::new(roots.len(), |i: int| KeyView { first: roots[i], second: Seq::empty() })
}

proof fn lemma_last_piece(path: Seq<char>)
    requires
        text::ends_with(path, ".part"@),
    ensures
        text::ends_with(scan::pieces(path, '/').last(), ".part"@),
        scan::pieces(path, '/').len() > 0,
    decreases path.len(),
{
    reveal_strlit(".part");
    scan::lemma_position_of(path, '/');
    let at = scan::position_of(path, '/');
    if at < path.len() {
        assert(path.subrange(path.len() - 5, path.len() as int)[at - (path.len() - 5)] == path[at]
            || at < path.len() - 5);
        let rest = path.skip(at + 1);
        assert(rest.subrange(rest.len() - 5, rest.len() as int) =~= path.subrange(
            path.len() - 5,
            path.len() as int,
        ));
        lemma_last_piece(rest);
        assert(scan::pieces(path, '/').last() == scan::pieces(rest, '/').last());
    }
}

/// A file that is still being written, whose name ends in `.part`, is never taken for a track.
pub proof fn lemma_part_files_ignored(path: Seq<char>)
    requires
        text::ends_with(path, ".part"@),
    ensures
        !playable(path),
{
    reveal_strlit(".part");
    reveal_strlit("..");
    reveal_strlit(".");
    reveal_strlit("opus");
    reveal_strlit("ogg");
    reveal_strlit("oga");
    reveal_strlit("mp3");
    reveal_strlit("flac");
    reveal_strlit("aac");
    reveal_strlit("m4a");
    reveal_strlit("wav");
    reveal_strlit("webm");
    lemma_last_piece(path);
    let pieces = scan::pieces(path, '/');
    let name = pieces.last();
    let tail = name.subrange(name.len() - 5, name.len() as int);
    assert(tail =~= ".part"@);
    reveal(Seq::filter);
    assert(paths::parts(path).last() == name);
    let n = name.len() as int;
    assert(name[n - 1] == tail[4] && name[n - 2] == tail[3] && name[n - 3] == tail[2] && name[n - 4]
        == tail[1] && name[n - 5] == tail[0]);
    reveal_with_fuel(paths::last_position, 6);
    assert(paths::last_position(name, '.') == n - 5);
    let ending = name.skip(n - 4);
    assert(text::ascii_lower_text(ending)[0] == 'p');
    assert(text::ascii_lower_text(ending).len() == 4);
}

/// The files of nine formats are imported, whatever the case of their endings, and no others.
pub proof fn lemma_nine_formats(folder: Seq<char>, start: Seq<char>, ending: Seq<char>)
    requires
        !start.contains('/'),
        !ending.contains('/'),
        !ending.contains('.'),
        start.len() > 0,
        ending.len() > 0,
    ensures
        playable(folder + seq!['/'] + (start + seq!['.'] + ending)) <==> {
            let lower = text::ascii_lower_text(ending);
            ||| lower == "opus"@
            ||| lower == "ogg"@
            ||| lower == "oga"@
            ||| lower == "mp3"@
            ||| lower == "flac"@
            ||| lower == "aac"@
            ||| lower == "m4a"@
            ||| lower == "wav"@
            ||| lower == "webm"@
        },
        !start.contains('.') ==> !playable(folder + seq!['/'] + start),
{
    paths::lemma_stem_and_ending(folder, start, ending);
}

/// An imported file is titled by its name without the ending, is by nobody known and belongs to no
/// album; its track is marked as imported and lies at its path.
pub proof fn lemma_import_titles(folder: Seq<char>, start: Seq<char>, ending: Seq<char>)
    requires
        !start.contains('/'),
        !ending.contains('/'),
        !ending.contains('.'),
        start.len() > 0,
        ending.len() > 0,
    ensures
        ({
            let path = folder + seq!['/'] + (start + seq!['.'] + ending);
            let draft = import_draft(exact_path(path));
            &&& draft.title == start
            &&& draft.artist == "Desconhecido"@
            &&& draft.album is None
            &&& draft.path == path
            &&& draft.imported
            &&& draft.provider is None
            &&& draft.source_id is None
            &&& draft.duration_seconds is None
        }),
{
    paths::lemma_stem_and_ending(folder, start, ending);
}

/// A folder is remembered once: behind those that were there, unless it is among them.
pub proof fn lemma_root_remembered(roots: Seq<Seq<char>>, root: Seq<char>)
    ensures
        with_root(roots, root).contains(root),
        roots.contains(root) ==> with_root(roots, root) == roots,
        !roots.contains(root) ==> with_root(roots, root) == roots.push(root),
        with_root(with_root(roots, root), root) == with_root(roots, root),
{
    lemma_contains_push(roots, root, root);
}

/// An import brings a hundred thousand files at most; no more and no fewer are refused for their
/// number.
pub proof fn lemma_import_limit(tracks: Seq<TrackView>, found: Seq<FoundPathView>)
    ensures
        found.len() > 100000 ==> import_fault(tracks, found) is Some,
        found.len() <= 100000 ==> import_fault(tracks, found) == db::drafts_fault(
            tracks,
            import_drafts(found),
        ),
{
}

} // verus!
