//! Searching and resolving on YouTube: what the extractor is asked, and what its answer means.

use vstd::prelude::*;

use crate::chapters;
use crate::chapters::ChapterView;
use crate::json;
use crate::json::Json;
use crate::json::JsonTree;
use crate::model::AlbumDraft;
use crate::model::AlbumDraftView;
use crate::model::MediaSegment;
use crate::model::SearchItem;
use crate::model::SearchItemView;
use crate::model::SearchKind;
use crate::seconds::Seconds;
use crate::text;

verus! {

/// The most items that one collection may yield.
pub const MAX_COLLECTION_ITEMS: usize = 500;

/// The most bytes of JSON that the extractor may write.
pub const MAX_JSON_BYTES: usize = 16777216;

/// The most bytes of error output that the extractor may write.
pub const MAX_ERROR_BYTES: usize = 262144;

/// How many seconds the extractor may take.
pub const EXTRACT_TIMEOUT_SECONDS: u64 = 90;

/// The scheme of a URL, and its host where it has one; nothing where a text is not a URL.
pub uninterp spec fn url_parts(value: Seq<char>) -> Option<(Seq<char>, Option<Seq<char>>)>;

/// What matters of a URL.
#[derive(PartialEq, Eq, Debug)]
pub struct UrlParts {
    pub scheme: String,
    pub host: Option<String>,
}

impl View for UrlParts {
    type V = (Seq<char>, Option<Seq<char>>);

    open spec fn view(&self) -> (Seq<char>, Option<Seq<char>>) {
        (self.scheme@, text::shown(self.host))
    }
}

/// What matters of a text that may be a URL.
pub open spec fn shown_parts(parts: Option<UrlParts>) -> Option<(Seq<char>, Option<Seq<char>>)> {
    match parts {
        Some(found) => Some(found@),
        None => None,
    }
}

/// `url::Url::parse`, then `scheme` and `host_str` of what it yields: all three depend on the text
/// alone.
#[verifier::external_body]
fn open_url(value: &str) -> (result: Option<UrlParts>)
    ensures
        shown_parts(result) == url_parts(value@),
{
    match url::Url::parse(value) {
        Ok(url) => Some(
            UrlParts {
                scheme: url.scheme().to_string(),
                host: url.host_str().map(str::to_string),
            },
        ),
        Err(_) => None,
    }
}

/// Whether a scheme is that of the web.
pub open spec fn web_scheme(scheme: Seq<char>) -> bool {
    scheme == "http"@ || scheme == "https"@
}

/// Whether a host belongs to YouTube, whatever the case of its ASCII letters.
pub open spec fn youtube_host(host: Seq<char>) -> bool {
    let lower = text::ascii_lower_text(host);
    lower == "youtu.be"@ || lower == "youtube.com"@ || text::ends_with(lower, ".youtube.com"@)
}

/// Whether the parts are those of a URL of the web.
pub open spec fn web_link(parts: Option<(Seq<char>, Option<Seq<char>>)>) -> bool {
    match parts {
        Some((scheme, _)) => web_scheme(scheme),
        None => false,
    }
}

/// Whether the parts are those of a URL of YouTube.
pub open spec fn youtube_link(parts: Option<(Seq<char>, Option<Seq<char>>)>) -> bool {
    match parts {
        Some((scheme, Some(host))) => web_scheme(scheme) && youtube_host(host),
        _ => false,
    }
}

/// Whether a text is a URL of the web.
pub open spec fn http_url(value: Seq<char>) -> bool {
    web_link(url_parts(value))
}

/// Whether a text is a URL of YouTube.
pub open spec fn youtube_url(value: Seq<char>) -> bool {
    youtube_link(url_parts(value))
}

impl UrlParts {
    /// Whether the scheme is that of the web.
    pub fn is_web(&self) -> (result: bool)
        ensures
            result == web_link(Some(self@)),
    {
        text::same_text(self.scheme.as_str(), "http") || text::same_text(
            self.scheme.as_str(),
            "https",
        )
    }

    /// Whether this is a URL of YouTube.
    pub fn is_youtube(&self) -> (result: bool)
        ensures
            result == youtube_link(Some(self@)),
    {
        match &self.host {
            Some(host) => {
                let lower = text::ascii_lowered(host.as_str());
                self.is_web() && (text::same_text(lower.as_str(), "youtu.be") || text::same_text(
                    lower.as_str(),
                    "youtube.com",
                ) || text::has_suffix(lower.as_str(), ".youtube.com"))
            },
            None => false,
        }
    }
}

/// Whether a text is a URL of the web.
pub fn is_http_url(value: &str) -> (result: bool)
    ensures
        result == http_url(value@),
{
    match open_url(value) {
        Some(parts) => parts.is_web(),
        None => false,
    }
}

/// Whether a text is a URL of YouTube.
pub fn is_youtube_url(value: &str) -> (result: bool)
    ensures
        result == youtube_url(value@),
{
    match open_url(value) {
        Some(parts) => parts.is_youtube(),
        None => false,
    }
}

/// The first of two optional values that is there.
pub open spec fn either<T>(first: Option<T>, second: Option<T>) -> Option<T> {
    match first {
        Some(_) => first,
        None => second,
    }
}

/// An optional text, or another one where it is missing.
pub open spec fn text_or(value: Option<Seq<char>>, other: Seq<char>) -> Seq<char> {
    match value {
        Some(t) => t,
        None => other,
    }
}

/// What an entry of the extractor's answer stands for.
pub open spec fn entry_kind(entry: JsonTree, title: Seq<char>) -> SearchKind {
    let listed = entry.items("entries"@) is Some;
    let tab = text::occurs_in(text_or(entry.text("ie_key"@), Seq::empty()), "Tab"@);
    if entry.text("album"@) is Some && (listed || tab) {
        SearchKind::Album
    } else if listed || entry.text("_type"@) == Some("playlist"@) || tab {
        SearchKind::Playlist
    } else if chapters::album_marked(title) {
        SearchKind::Unknown
    } else {
        SearchKind::Track
    }
}

/// Where an entry is found.
pub open spec fn entry_url(entry: JsonTree, source_id: Seq<char>) -> Seq<char> {
    let listed = match entry.text("url"@) {
        Some(url) => if http_url(url) {
            Some(url)
        } else {
            None
        },
        None => None,
    };
    match either(either(entry.text("webpage_url"@), entry.text("original_url"@)), listed) {
        Some(url) => text::bounded_text(url, 4096),
        None => "https://www.youtube.com/watch?v="@ + source_id,
    }
}

/// Who an entry is by.
pub open spec fn entry_artist(entry: JsonTree) -> Option<Seq<char>> {
    either(either(entry.text("artist"@), entry.text("uploader"@)), entry.text("channel"@))
}

/// The item that an entry of the extractor's answer describes; none where it has no identifier.
pub open spec fn item_of(entry: JsonTree) -> Option<SearchItemView> {
    match entry.text("id"@) {
        None => None,
        Some(id) => {
            let source_id = text::bounded_text(id, 128);
            let title = text::bounded_text(text_or(entry.text("title"@), "Sem titulo"@), 512);
            Some(
                SearchItemView {
                    provider: "youtube"@,
                    source_id,
                    kind: entry_kind(entry, title),
                    title,
                    artist: text::bounded_text(text_or(entry_artist(entry), "Desconhecido"@), 256),
                    album: match entry.text("album"@) {
                        Some(album) => Some(text::bounded_text(album, 512)),
                        None => None,
                    },
                    duration_seconds: match entry.number("duration"@) {
                        Some(duration) => Some(duration.whole_seconds()),
                        None => None,
                    },
                    url: entry_url(entry, source_id),
                    segment: None,
                    album_identity: None,
                },
            )
        },
    }
}

fn find_artist<'a>(entry: &'a Json) -> (result: Option<&'a str>)
    ensures
        match result {
            Some(artist) => entry_artist(entry@) == Some(artist@),
            None => entry_artist(entry@) is None,
        },
{
    match entry.get_text("artist") {
        Some(artist) => Some(artist),
        None => match entry.get_text("uploader") {
            Some(artist) => Some(artist),
            None => entry.get_text("channel"),
        },
    }
}

fn find_url(entry: &Json, source_id: &str) -> (result: String)
    ensures
        result@ == entry_url(entry@, source_id@),
{
    let listed = match entry.get_text("url") {
        Some(url) => if is_http_url(url) {
            Some(url)
        } else {
            None
        },
        None => None,
    };
    let known = match entry.get_text("webpage_url") {
        Some(url) => Some(url),
        None => match entry.get_text("original_url") {
            Some(url) => Some(url),
            None => listed,
        },
    };
    match known {
        Some(url) => text::bounded(url, 4096),
        None => {
            let mut url = "https://www.youtube.com/watch?v=".to_owned();
            url.push_str(source_id);
            url
        },
    }
}

fn find_kind(entry: &Json, title: &str) -> (result: SearchKind)
    ensures
        result == entry_kind(entry@, title@),
{
    let listed = entry.get_items("entries").is_some();
    let tab = match entry.get_text("ie_key") {
        Some(key) => text::contains_text(key, "Tab"),
        None => text::contains_text("", "Tab"),
    };
    proof {
        reveal_strlit("");
        assert(""@ =~= Seq::<char>::empty());
    }
    let playlist = match entry.get_text("_type") {
        Some(entry_type) => text::same_text(entry_type, "playlist"),
        None => false,
    };
    if entry.get_text("album").is_some() && (listed || tab) {
        SearchKind::Album
    } else if listed || playlist || tab {
        SearchKind::Playlist
    } else if chapters::has_album_marker(title) {
        SearchKind::Unknown
    } else {
        SearchKind::Track
    }
}

/// Reads one entry of the extractor's answer.
pub fn normalize_item(entry: &Json) -> (result: Option<SearchItem>)
    ensures
        match result {
            Some(item) => item_of(entry@) == Some(item@),
            None => item_of(entry@) is None,
        },
{
    let source_id = match entry.get_text("id") {
        Some(id) => text::bounded(id, 128),
        None => {
            return None;
        },
    };
    let title = match entry.get_text("title") {
        Some(title) => text::bounded(title, 512),
        None => text::bounded("Sem titulo", 512),
    };
    let artist = match find_artist(entry) {
        Some(artist) => text::bounded(artist, 256),
        None => text::bounded("Desconhecido", 256),
    };
    let album = match entry.get_text("album") {
        Some(album) => Some(text::bounded(album, 512)),
        None => None,
    };
    let kind = find_kind(entry, title.as_str());
    let url = find_url(entry, source_id.as_str());
    let duration_seconds = match entry.get_number("duration") {
        Some(duration) => Some(duration.whole()),
        None => None,
    };
    Some(
        SearchItem {
            provider: "youtube".to_owned(),
            source_id,
            kind,
            title,
            artist,
            album,
            duration_seconds,
            url,
            segment: None,
            album_identity: None,
        },
    )
}

/// The album that the root of an answer stands for.
pub open spec fn album_of(root: JsonTree) -> Option<AlbumDraftView> {
    match item_of(root) {
        Some(item) => if item.kind == SearchKind::Album {
            Some(
                AlbumDraftView {
                    provider: item.provider,
                    source_id: item.source_id,
                    title: text_or(item.album, item.title),
                    artist: item.artist,
                },
            )
        } else {
            None
        },
        None => None,
    }
}

/// The album that the root of an answer stands for.
pub fn collection_album(root: &Json) -> (result: Option<AlbumDraft>)
    ensures
        match result {
            Some(album) => album_of(root@) == Some(album@),
            None => album_of(root@) is None,
        },
{
    match normalize_item(root) {
        Some(item) => {
            if item.kind == SearchKind::Album {
                let title = match item.album {
                    Some(album) => album,
                    None => item.title,
                };
                Some(
                    AlbumDraft {
                        provider: item.provider,
                        source_id: item.source_id,
                        title,
                        artist: item.artist,
                    },
                )
            } else {
                None
            }
        },
        None => None,
    }
}

/// The parts of a recording: from its chapter list where that has entries, and else from the
/// timestamps in its description.
pub open spec fn parts_of(root: JsonTree, duration: Seconds) -> Option<Seq<ChapterView>> {
    match root.items("chapters"@) {
        Some(list) => if list.len() > 0 {
            chapters::structured_parts(list, duration)
        } else {
            described_parts(root, duration)
        },
        None => described_parts(root, duration),
    }
}

/// The parts that the description of a recording lists.
pub open spec fn described_parts(root: JsonTree, duration: Seconds) -> Option<Seq<ChapterView>> {
    match root.text("description"@) {
        Some(description) => chapters::timestamp_parts(description, duration),
        None => None,
    }
}

/// The album that a recording with parts stands for.
pub open spec fn recording_album(root: JsonTree, base: SearchItemView) -> AlbumDraftView {
    AlbumDraftView {
        provider: base.provider,
        source_id: base.source_id,
        title: match root.text("album"@) {
            Some(title) => text::bounded_text(title, 512),
            None => chapters::album_title(base.title),
        },
        artist: text::bounded_text(
            text_or(either(root.text("album_artist"@), entry_artist(root)), base.artist),
            256,
        ),
    }
}

/// The item that stands for one part of a recording.
pub open spec fn part_item(
    base: SearchItemView,
    album: AlbumDraftView,
    part: ChapterView,
    index: int,
) -> SearchItemView {
    SearchItemView {
        provider: base.provider,
        source_id: chapters::chapter_id(base.source_id, index as nat, part.start),
        kind: SearchKind::Track,
        title: text::bounded_text(part.title, 512),
        artist: album.artist,
        album: Some(album.title),
        duration_seconds: Some(part.start.seconds_until(part.end)),
        url: base.url,
        segment: Some(
            MediaSegment {
                start_seconds: part.start,
                end_seconds: part.end,
                position: (index + 1) as u32,
            },
        ),
        album_identity: Some(album),
    }
}

/// The items that a recording with parts yields.
pub open spec fn chapter_items(root: JsonTree) -> Option<Seq<SearchItemView>> {
    match (item_of(root), root.number("duration"@)) {
        (Some(base), Some(duration)) => if duration.units() > 0 {
            match parts_of(root, duration) {
                Some(parts) => Some(
                    Seq::new(
                        parts.len(),
                        |i: int| part_item(base, recording_album(root, base), parts[i], i),
                    ),
                ),
                None => None,
            }
        } else {
            None
        },
        _ => None,
    }
}

proof fn lemma_segments(
    starts: Seq<chapters::StartView>,
    duration: Seconds,
    validate_ends: bool,
)
    ensures
        match chapters::segments(starts, duration, validate_ends) {
            Some(parts) => sound_parts(parts, duration),
            None => true,
        },
{
    if let Some(parts) = chapters::segments(starts, duration, validate_ends) {
        assert forall|i: int| 0 <= i < parts.len() implies sound_part(#[trigger] parts[i], duration)
            && (i > 0 ==> parts[i - 1].start.units() < parts[i].start.units()) by {
            assert(chapters::fits(starts, i, duration, validate_ends));
        }
    }
}

/// Whether a part lies inside its recording and ends after it begins.
pub open spec fn sound_part(part: ChapterView, duration: Seconds) -> bool {
    &&& part.start.finite()
    &&& part.end.finite()
    &&& 0 <= part.start.units() < part.end.units() <= duration.units()
}

/// Whether the parts of a recording are at least two and at most [`MAX_COLLECTION_ITEMS`], each of
/// them sound and beginning after the one before it.
pub open spec fn sound_parts(parts: Seq<ChapterView>, duration: Seconds) -> bool {
    &&& 2 <= parts.len() <= MAX_COLLECTION_ITEMS
    &&& forall|i: int|
        0 <= i < parts.len() ==> sound_part(#[trigger] parts[i], duration) && (i > 0
            ==> parts[i - 1].start.units() < parts[i].start.units())
}

/// Every list of parts that a recording yields is sound.
pub proof fn lemma_parts_sound(root: JsonTree, duration: Seconds)
    ensures
        match parts_of(root, duration) {
            Some(parts) => sound_parts(parts, duration),
            None => true,
        },
{
    if let Some(list) = root.items("chapters"@) {
        lemma_segments(
            Seq::new(list.len(), |i: int| chapters::structured_start(list[i], duration)->0),
            duration,
            true,
        );
    }
    if let Some(description) = root.text("description"@) {
        if let Some(starts) = chapters::stamped_starts(
            crate::scan::pieces(description, '\n'),
        ) {
            lemma_segments(starts, duration, false);
        }
    }
}

fn find_parts(root: &Json, duration: Seconds) -> (result: Option<Vec<chapters::Chapter>>)
    ensures
        match result {
            Some(parts) => parts_of(root@, duration) == Some(text::views(parts@)),
            None => parts_of(root@, duration) is None,
        },
{
    match root.get_items("chapters") {
        Some(list) => {
            if list.len() > 0 {
                return chapters::structured_chapters(list, duration);
            }
        },
        None => {},
    }
    match root.get_text("description") {
        Some(description) => chapters::timestamp_chapters(description, duration),
        None => None,
    }
}

fn find_recording_album(root: &Json, base: &SearchItem) -> (result: AlbumDraft)
    ensures
        result@ == recording_album(root@, base@),
{
    let title = match root.get_text("album") {
        Some(title) => text::bounded(title, 512),
        None => chapters::normalize_album_title(base.title.as_str()),
    };
    let artist = match root.get_text("album_artist") {
        Some(artist) => text::bounded(artist, 256),
        None => match find_artist(root) {
            Some(artist) => text::bounded(artist, 256),
            None => text::bounded(base.artist.as_str(), 256),
        },
    };
    AlbumDraft { provider: base.provider.clone(), source_id: base.source_id.clone(), title, artist }
}

/// Reads a recording that has parts, one item for each.
pub fn normalize_chapters(root: &Json) -> (result: Option<Vec<SearchItem>>)
    ensures
        match result {
            Some(items) => chapter_items(root@) == Some(text::views(items@)),
            None => chapter_items(root@) is None,
        },
{
    let base = match normalize_item(root) {
        Some(base) => base,
        None => {
            return None;
        },
    };
    let duration = match root.get_number("duration") {
        Some(duration) => duration,
        None => {
            return None;
        },
    };
    if !Seconds::zero().before(duration) {
        return None;
    }
    let parts = match find_parts(root, duration) {
        Some(parts) => parts,
        None => {
            return None;
        },
    };
    let album = find_recording_album(root, &base);
    let ghost list = text::views(parts@);
    proof {
        lemma_parts_sound(root@, duration);
    }
    let mut items: Vec<SearchItem> = Vec::new();
    let mut index: usize = 0;
    while index < parts.len()
        invariant
            list == text::views(parts@),
            sound_parts(list, duration),
            album@ == recording_album(root@, base@),
            index <= parts@.len(),
            items@.len() == index,
            forall|i: int|
                0 <= i < index ==> (#[trigger] items@[i])@ == part_item(base@, album@, list[i], i),
        decreases parts@.len() - index,
    {
        assert(list[index as int] == parts@[index as int]@);
        assert(sound_part(list[index as int], duration));
        let part = &parts[index];
        let item = SearchItem {
            provider: base.provider.clone(),
            source_id: chapters::chapter_source_id(base.source_id.as_str(), index, part.start),
            kind: SearchKind::Track,
            title: text::bounded(part.title.as_str(), 512),
            artist: album.artist.clone(),
            album: Some(album.title.clone()),
            duration_seconds: Some(part.start.span(part.end)),
            url: base.url.clone(),
            segment: Some(
                MediaSegment {
                    start_seconds: part.start,
                    end_seconds: part.end,
                    position: (index + 1) as u32,
                },
            ),
            album_identity: Some(album.clone()),
        };
        items.push(item);
        index += 1;
    }
    assert(text::views(items@) =~= chapter_items(root@)->0);
    Some(items)
}

/// An item of a collection that is an album.
pub open spec fn in_album(item: SearchItemView, album: Option<AlbumDraftView>) -> SearchItemView {
    match album {
        Some(draft) => SearchItemView {
            album: Some(draft.title),
            album_identity: Some(draft),
            ..item
        },
        None => item,
    }
}

/// The items that the entries of a collection describe, in order.
pub open spec fn entry_items(entries: Seq<JsonTree>, album: Option<AlbumDraftView>) -> Seq<
    SearchItemView,
>
    decreases entries.len(),
{
    if entries.len() == 0 {
        Seq::empty()
    } else {
        let before = entry_items(entries.drop_last(), album);
        match item_of(entries.last()) {
            Some(item) => before.push(in_album(item, album)),
            None => before,
        }
    }
}

/// The items that an answer describes before they are counted.
pub open spec fn listed_items(root: JsonTree) -> Seq<SearchItemView> {
    match root.items("entries"@) {
        Some(entries) => entry_items(entries, album_of(root)),
        None => match item_of(root) {
            Some(item) => seq![item],
            None => Seq::empty(),
        },
    }
}

/// The items that an answer of the extractor yields: the parts of one recording where it has any
/// and they were asked for, and else at most [`MAX_COLLECTION_ITEMS`] of its entries.
pub open spec fn answer(root: JsonTree, inspect_video: bool) -> Option<Seq<SearchItemView>> {
    if inspect_video && root.items("entries"@) is None && chapter_items(root) is Some {
        chapter_items(root)
    } else if listed_items(root).len() == 0 {
        None
    } else if listed_items(root).len() <= MAX_COLLECTION_ITEMS {
        Some(listed_items(root))
    } else {
        Some(listed_items(root).take(MAX_COLLECTION_ITEMS as int))
    }
}

fn collect_entries(entries: &Vec<Json>, album: &Option<AlbumDraft>) -> (result: Vec<SearchItem>)
    ensures
        text::views(result@) == entry_items(
            text::views(entries@),
            crate::model::shown_album(*album),
        ),
{
    let ghost trees = text::views(entries@);
    let ghost draft = crate::model::shown_album(*album);
    let mut items: Vec<SearchItem> = Vec::new();
    let mut i: usize = 0;
    assert(text::views(items@) =~= Seq::<SearchItemView>::empty());
    while i < entries.len()
        invariant
            trees == text::views(entries@),
            draft == crate::model::shown_album(*album),
            i <= entries@.len(),
            text::views(items@) == entry_items(trees.take(i as int), draft),
        decreases entries@.len() - i,
    {
        let ghost before = items@;
        proof {
            assert(trees.take(i + 1).drop_last() =~= trees.take(i as int));
            assert(trees[i as int] == entries@[i as int]@);
        }
        match normalize_item(&entries[i]) {
            Some(item) => {
                let ghost plain = item@;
                let mut item = item;
                match album {
                    Some(album) => {
                        item.album = Some(album.title.clone());
                        item.album_identity = Some(album.clone());
                    },
                    None => {},
                }
                assert(item@ == in_album(plain, draft));
                items.push(item);
                assert(text::views(items@) =~= text::views(before).push(in_album(plain, draft)));
            },
            None => {},
        }
        i += 1;
    }
    assert(trees.take(trees.len() as int) =~= trees);
    items
}

/// Reads an answer of the extractor.
pub fn normalize(root: &Json, inspect_video: bool) -> (result: Result<Vec<SearchItem>, String>)
    ensures
        match result {
            Ok(items) => answer(root@, inspect_video) == Some(text::views(items@)),
            Err(message) => answer(root@, inspect_video) is None && message@
                == "nenhum resultado encontrado"@,
        },
{
    let entries = root.get_items("entries");
    if inspect_video && entries.is_none() {
        match normalize_chapters(root) {
            Some(items) => {
                return Ok(items);
            },
            None => {},
        }
    }
    let mut items: Vec<SearchItem> = match entries {
        Some(list) => {
            let album = collection_album(root);
            collect_entries(list, &album)
        },
        None => {
            let mut single: Vec<SearchItem> = Vec::new();
            match normalize_item(root) {
                Some(item) => {
                    single.push(item);
                    assert(text::views(single@) =~= seq![item@]);
                },
                None => {
                    assert(text::views(single@) =~= Seq::<SearchItemView>::empty());
                },
            }
            single
        },
    };
    assert(text::views(items@) == listed_items(root@));
    if items.len() == 0 {
        return Err("nenhum resultado encontrado".to_owned());
    }
    let ghost all = items@;
    if items.len() > MAX_COLLECTION_ITEMS {
        items.truncate(MAX_COLLECTION_ITEMS);
        assert(text::views(items@) =~= text::views(all).take(MAX_COLLECTION_ITEMS as int));
    }
    Ok(items)
}

/// What the extractor is asked to do.
#[derive(PartialEq, Eq, Debug)]
pub struct Extraction {
    /// The arguments of the program, in order.
    pub arguments: Vec<String>,
    /// Whether the parts of a single recording are wanted.
    pub inspect_video: bool,
}

/// `limit`, at least one and at most `most`.
pub open spec fn clamped(limit: nat, most: nat) -> nat {
    if limit < 1 {
        1
    } else if limit > most {
        most
    } else {
        limit
    }
}

/// The arguments that make the extractor describe `input` as JSON.
pub open spec fn extract_arguments(input: Seq<char>, limit: nat, flat: bool) -> Seq<Seq<char>> {
    seq![
        "--ignore-config"@,
        "--dump-single-json"@,
        "--skip-download"@,
        "--no-warnings"@,
        "--socket-timeout"@,
        "10"@,
        "--retries"@,
        "2"@,
        "--extractor-retries"@,
        "2"@,
        "--playlist-end"@,
        text::decimal_text(clamped(limit, MAX_COLLECTION_ITEMS as nat)),
        if flat {
            "--flat-playlist"@
        } else {
            "--no-flat-playlist"@
        },
        "--"@,
        input,
    ]
}

/// The access to YouTube through its extractor program.
#[derive(PartialEq, Eq, Debug)]
pub struct YouTubeProvider {
    /// The path of the program.
    pub executable: String,
}

impl YouTubeProvider {
    /// An access through the program at `executable`.
    pub fn new(executable: String) -> (result: Self)
        ensures
            result.executable == executable,
    {
        YouTubeProvider { executable }
    }

    /// The arguments that make the extractor describe `input` as JSON.
    pub fn extract(&self, input: &str, limit: usize, flat: bool) -> (result: Vec<String>)
        ensures
            text::views(result@) == extract_arguments(input@, limit as nat, flat),
    {
        let bound: usize = if limit < 1 {
            1
        } else if limit > MAX_COLLECTION_ITEMS {
            MAX_COLLECTION_ITEMS
        } else {
            limit
        };
        let mut arguments: Vec<String> = Vec::new();
        arguments.push("--ignore-config".to_owned());
        arguments.push("--dump-single-json".to_owned());
        arguments.push("--skip-download".to_owned());
        arguments.push("--no-warnings".to_owned());
        arguments.push("--socket-timeout".to_owned());
        arguments.push("10".to_owned());
        arguments.push("--retries".to_owned());
        arguments.push("2".to_owned());
        arguments.push("--extractor-retries".to_owned());
        arguments.push("2".to_owned());
        arguments.push("--playlist-end".to_owned());
        arguments.push(text::decimal(bound as u64));
        if flat {
            arguments.push("--flat-playlist".to_owned());
        } else {
            arguments.push("--no-flat-playlist".to_owned());
        }
        arguments.push("--".to_owned());
        arguments.push(input.to_owned());
        assert(text::views(arguments@) =~= extract_arguments(input@, limit as nat, flat));
        arguments
    }

    /// What to ask for the words of a search, `parts` being those of the URL that they are: a link
    /// is resolved, and other words are searched for.
    pub fn search_as(&self, words: &str, limit: usize, parts: &Option<UrlParts>) -> (result: Result<
        Extraction,
        String,
    >)
        ensures
            words_ask(words@, limit as nat, shown_parts(*parts), result),
    {
        if words.is_empty() {
            return Err("digite algo para buscar".to_owned());
        }
        let web = match parts {
            Some(found) => found.is_web(),
            None => false,
        };
        if web {
            return self.resolve_as(words, parts);
        }
        let bound: usize = if limit < 1 {
            1
        } else if limit > 50 {
            50
        } else {
            limit
        };
        let mut input = "ytsearch".to_owned();
        input.push_str(text::decimal(bound as u64).as_str());
        input.push_str(":");
        input.push_str(words);
        Ok(
            Extraction {
                arguments: self.extract(input.as_str(), bound, true),
                inspect_video: false,
            },
        )
    }

    /// What to ask for a link, `parts` being those of the URL that it is.
    pub fn resolve_as(&self, url: &str, parts: &Option<UrlParts>) -> (result: Result<
        Extraction,
        String,
    >)
        ensures
            link_asks(url@, shown_parts(*parts), result),
    {
        let youtube = match parts {
            Some(found) => found.is_youtube(),
            None => false,
        };
        if !youtube {
            return Err("use uma URL publica do YouTube ou YouTube Music".to_owned());
        }
        Ok(
            Extraction {
                arguments: self.extract(url, MAX_COLLECTION_ITEMS, false),
                inspect_video: true,
            },
        )
    }

    /// Reads what the extractor wrote.
    pub fn interpret(
        &self,
        success: bool,
        output: &[u8],
        errors: &str,
        inspect_video: bool,
    ) -> (result: Result<Vec<SearchItem>, String>)
        ensures
            match result {
                Ok(items) => success && match json::json_document(output@) {
                    Ok(root) => answer(root, inspect_video) == Some(text::views(items@)),
                    Err(_) => false,
                },
                Err(message) => if !success {
                    message@ == "yt-dlp: "@ + text::trimmed(errors@)
                } else {
                    match json::json_document(output@) {
                        Ok(root) => answer(root, inspect_video) is None && message@
                            == "nenhum resultado encontrado"@,
                        Err(fault) => message@ == "yt-dlp retornou JSON invalido: "@ + fault,
                    }
                },
            },
    {
        if !success {
            let mut message = "yt-dlp: ".to_owned();
            message.push_str(text::trim(errors));
            return Err(message);
        }
        match json::parse(output) {
            Ok(root) => normalize(&root, inspect_video),
            Err(fault) => {
                let mut message = "yt-dlp retornou JSON invalido: ".to_owned();
                message.push_str(fault.as_str());
                Err(message)
            },
        }
    }
}

/// A place where music can be searched for.
pub trait SourceProvider {
    /// What to ask for a search.
    fn search(&self, query: &str, limit: usize) -> Result<Extraction, String>;

    /// What to ask for a link.
    fn resolve(&self, url: &str) -> Result<Extraction, String>;
}

impl SourceProvider for YouTubeProvider {
    /// What to ask for a search: a link is resolved, and other words are searched for.
    fn search(&self, query: &str, limit: usize) -> (result: Result<Extraction, String>)
        ensures
            search_asks(query@, limit as nat, result),
    {
        let words = text::trim(query);
        self.search_as(words, limit, &open_url(words))
    }

    /// What to ask for a link.
    fn resolve(&self, url: &str) -> (result: Result<Extraction, String>)
        ensures
            resolve_asks(url@, result),
    {
        self.resolve_as(url, &open_url(url))
    }
}

/// What a link makes the extractor do, by the parts of the URL that it is.
pub open spec fn link_asks(
    url: Seq<char>,
    parts: Option<(Seq<char>, Option<Seq<char>>)>,
    result: Result<Extraction, String>,
) -> bool {
    match result {
        Ok(extraction) => youtube_link(parts) && extraction.inspect_video && text::views(
            extraction.arguments@,
        ) == extract_arguments(url, MAX_COLLECTION_ITEMS as nat, false),
        Err(message) => !youtube_link(parts) && message@
            == "use uma URL publica do YouTube ou YouTube Music"@,
    }
}

/// What a link makes the extractor do.
pub open spec fn resolve_asks(url: Seq<char>, result: Result<Extraction, String>) -> bool {
    link_asks(url, url_parts(url), result)
}

/// What the words of a search make the extractor do, by the parts of the URL that they are.
pub open spec fn words_ask(
    words: Seq<char>,
    limit: nat,
    parts: Option<(Seq<char>, Option<Seq<char>>)>,
    result: Result<Extraction, String>,
) -> bool {
    if words.len() == 0 {
        result matches Err(message) && message@ == "digite algo para buscar"@
    } else if web_link(parts) {
        link_asks(words, parts, result)
    } else {
        result matches Ok(extraction) && !extraction.inspect_video && text::views(
            extraction.arguments@,
        ) == extract_arguments(
            "ytsearch"@ + text::decimal_text(clamped(limit, 50)) + ":"@ + words,
            clamped(limit, 50),
            true,
        )
    }
}

/// What a search makes the extractor do.
pub open spec fn search_asks(
    query: Seq<char>,
    limit: nat,
    result: Result<Extraction, String>,
) -> bool {
    let words = text::trimmed(query);
    words_ask(words, limit, url_parts(words), result)
}

/// Whatever the extractor is asked, it is asked for something on YouTube: for the results of a
/// search there, or for a link that leads there.
pub proof fn lemma_only_youtube(query: Seq<char>, limit: nat, result: Result<Extraction, String>)
    requires
        search_asks(query, limit, result),
        result is Ok,
    ensures
        ({
            let input = text::views(result->Ok_0.arguments@).last();
            youtube_url(input) || input == "ytsearch"@ + text::decimal_text(clamped(limit, 50))
                + ":"@ + text::trimmed(query)
        }),
{
}

/// The parts that a description lists begin at zero.
pub proof fn lemma_described_from_zero(root: JsonTree, duration: Seconds)
    requires
        described_parts(root, duration) is Some,
    ensures
        described_parts(root, duration)->0[0].start.units() == 0,
{
}

/// The tracks that a recording is cut into are numbered from one, belong to one album and have
/// identifiers of their own.
pub proof fn lemma_tracks_of_recording(root: JsonTree)
    requires
        chapter_items(root) is Some,
    ensures
        2 <= chapter_items(root)->0.len() <= MAX_COLLECTION_ITEMS,
        forall|i: int|
            0 <= i < chapter_items(root)->0.len() ==> {
                let item = #[trigger] chapter_items(root)->0[i];
                &&& item.segment is Some
                &&& item.segment->0.position == i + 1
                &&& item.album_identity is Some
                &&& item.album_identity == chapter_items(root)->0[0].album_identity
            },
        forall|i: int, j: int|
            0 <= i < j < chapter_items(root)->0.len() ==> (#[trigger] chapter_items(
                root,
            )->0[i]).source_id != (#[trigger] chapter_items(root)->0[j]).source_id,
{
    let base = item_of(root)->0;
    let duration = root.number("duration"@)->0;
    lemma_parts_sound(root, duration);
    let parts = parts_of(root, duration)->0;
    let items = chapter_items(root)->0;
    assert forall|i: int, j: int| 0 <= i < j < items.len() implies (#[trigger] items[i]).source_id
        != (#[trigger] items[j]).source_id by {
        chapters::lemma_ids_differ(
            base.source_id,
            i as nat,
            j as nat,
            parts[i].start,
            parts[j].start,
        );
    }
}

/// A single recording without a sound list of parts stays a single track, whatever its title says:
/// it is not cut and belongs to no album of its own.
pub proof fn lemma_single_stays_single(root: JsonTree, inspect_video: bool)
    requires
        root.items("entries"@) is None,
        chapter_items(root) is None || !inspect_video,
        answer(root, inspect_video) is Some,
    ensures
        answer(root, inspect_video)->0.len() == 1,
        answer(root, inspect_video)->0[0].segment is None,
        answer(root, inspect_video)->0[0].album_identity is None,
{
}

/// However long a collection is, no more than five hundred items of it are taken.
pub proof fn lemma_answer_bounded(root: JsonTree, inspect_video: bool)
    requires
        answer(root, inspect_video) is Some,
    ensures
        1 <= answer(root, inspect_video)->0.len() <= MAX_COLLECTION_ITEMS,
{
}

/// What is searched for stands alone behind the end of the options, so that it is never taken for
/// one, and no other argument depends on it.
pub proof fn lemma_input_is_last(input: Seq<char>, other: Seq<char>, limit: nat, flat: bool)
    ensures
        extract_arguments(input, limit, flat).last() == input,
        extract_arguments(input, limit, flat)[13] == "--"@,
        extract_arguments(input, limit, flat).len() == 15,
        extract_arguments(input, limit, flat).drop_last() == extract_arguments(
            other,
            limit,
            flat,
        ).drop_last(),
{
    assert(extract_arguments(input, limit, flat).drop_last() =~= extract_arguments(
        other,
        limit,
        flat,
    ).drop_last());
}

/// An item tells what its entry tells, field by field: who it is by is the artist, and only for want
/// of one the uploader, and for want of both the channel. An entry without an identifier yields no
/// item.
pub proof fn lemma_item_tells_its_entry(entry: JsonTree)
    ensures
        entry.text("id"@) is None ==> item_of(entry) is None,
        entry.text("id"@) is Some ==> item_of(entry) is Some && {
            let item = item_of(entry)->0;
            &&& item.provider == "youtube"@
            &&& item.source_id == text::bounded_text(entry.text("id"@)->0, 128)
            &&& entry.text("title"@) matches Some(title) ==> item.title == text::bounded_text(
                title,
                512,
            )
            &&& entry.text("title"@) is None ==> item.title == "Sem titulo"@
            &&& entry.text("artist"@) matches Some(artist) ==> item.artist == text::bounded_text(
                artist,
                256,
            )
            &&& entry.text("artist"@) is None ==> (entry.text("uploader"@) matches Some(uploader)
                ==> item.artist == text::bounded_text(uploader, 256))
            &&& entry.text("artist"@) is None && entry.text("uploader"@) is None ==> (entry.text(
                "channel"@,
            ) matches Some(channel) ==> item.artist == text::bounded_text(channel, 256))
            &&& entry.text("artist"@) is None && entry.text("uploader"@) is None && entry.text(
                "channel"@,
            ) is None ==> item.artist == "Desconhecido"@
            &&& entry.text("album"@) matches Some(album) ==> item.album == Some(
                text::bounded_text(album, 512),
            )
            &&& entry.text("album"@) is None ==> item.album is None
            &&& entry.number("duration"@) matches Some(duration) ==> item.duration_seconds == Some(
                duration.whole_seconds(),
            )
            &&& entry.number("duration"@) is None ==> item.duration_seconds is None
            &&& item.segment is None
            &&& item.album_identity is None
        },
{
    reveal_strlit("Sem titulo");
    reveal_strlit("Desconhecido");
}

/// An item leads to the page of its entry, for want of that to where the entry came from, for want
/// of both to its link where that is one of the web, and else to the video with its identifier.
pub proof fn lemma_item_leads_to_its_page(entry: JsonTree)
    requires
        item_of(entry) is Some,
    ensures
        ({
            let url = item_of(entry)->0.url;
            &&& entry.text("webpage_url"@) matches Some(page) ==> url == text::bounded_text(
                page,
                4096,
            )
            &&& entry.text("webpage_url"@) is None ==> (entry.text("original_url"@) matches Some(
                page,
            ) ==> url == text::bounded_text(page, 4096))
            &&& entry.text("webpage_url"@) is None && entry.text("original_url"@) is None ==> (
            entry.text("url"@) matches Some(page) ==> (http_url(page) ==> url
                == text::bounded_text(page, 4096)))
            &&& entry.text("webpage_url"@) is None && entry.text("original_url"@) is None && (
            entry.text("url"@) is None || !http_url(entry.text("url"@)->0)) ==> url
                == "https://www.youtube.com/watch?v="@ + item_of(entry)->0.source_id
        }),
{
}

/// An entry that lists entries, or that leads to a tab, is an album where it names one and a
/// playlist where it does not; so is one that calls itself a playlist, unless it names an album.
/// Any other entry is a track, or something unknown where its title announces an album.
pub proof fn lemma_kinds_told_apart(entry: JsonTree)
    requires
        item_of(entry) is Some,
    ensures
        ({
            let item = item_of(entry)->0;
            let tab = entry.text("ie_key"@) is Some && text::occurs_in(
                entry.text("ie_key"@)->0,
                "Tab"@,
            );
            let many = entry.items("entries"@) is Some || tab;
            let playlist = entry.text("_type"@) == Some("playlist"@);
            &&& item.kind == SearchKind::Album <==> many && entry.text("album"@) is Some
            &&& item.kind == SearchKind::Playlist <==> (many && entry.text("album"@) is None) || (
            !many && playlist)
            &&& item.kind == SearchKind::Unknown <==> !many && !playlist && chapters::album_marked(
                item.title,
            )
            &&& item.kind == SearchKind::Track <==> !many && !playlist && !chapters::album_marked(
                item.title,
            )
        }),
{
    reveal_strlit("Tab");
    assert(!text::occurs_in(Seq::<char>::empty(), "Tab"@)) by {
        assert forall|at: int| !text::occurs_at(Seq::<char>::empty(), "Tab"@, at) by {}
    }
}

/// Whether the titles, beginnings and ends of the parts are those of a chapter list or, where there
/// is none, of the index in the description.
pub open spec fn parts_named(root: JsonTree, duration: Seconds, items: Seq<SearchItemView>) -> bool {
    match root.items("chapters"@) {
        Some(list) => if list.len() > 0 {
            &&& items.len() == list.len()
            &&& forall|k: int|
                0 <= k < items.len() ==> {
                    &&& (#[trigger] items[k]).title == text::bounded_text(
                        text::trimmed(list[k].text("title"@)->0),
                        512,
                    )
                    &&& items[k].segment->0.start_seconds == list[k].number("start_time"@)->0
                    &&& items[k].segment->0.end_seconds == chapters::entry_end(list, k, duration)
                }
        } else {
            named_by_index(root, duration, items)
        },
        None => named_by_index(root, duration, items),
    }
}

/// Whether the titles and beginnings of the parts are those of the lines of the description that
/// name one, in their order, and each part ends where the next begins or the recording ends.
pub open spec fn named_by_index(
    root: JsonTree,
    duration: Seconds,
    items: Seq<SearchItemView>,
) -> bool {
    &&& root.text("description"@) is Some
    &&& exists|places: Seq<int>|
        {
            let lines = crate::scan::pieces(root.text("description"@)->0, '\n');
            &&& #[trigger] chapters::index_places(
                crate::scan::pieces(root.text("description"@)->0, '\n'),
                places,
            )
            &&& items.len() == places.len()
            &&& forall|k: int|
                0 <= k < items.len() ==> {
                    &&& exists|n: nat, title: Seq<char>|
                        #[trigger] chapters::line_names(lines[places[k]], n, title) && (
                        #[trigger] items[k]).title == text::bounded_text(title, 512)
                            && items[k].segment->0.start_seconds == crate::seconds::whole_point(n)
                    &&& items[k].segment->0.end_seconds == if k + 1 < items.len() {
                        items[k + 1].segment->0.start_seconds
                    } else {
                        duration
                    }
                }
        }
}

/// A recording with chapters, or with an index in its description, becomes an album whose tracks
/// are its parts: the k-th bears the k-th title and runs from where that part begins to where it
/// ends. All of them belong to one album, lead to the same page and are by whom the album is by.
pub proof fn lemma_recording_becomes_album(root: JsonTree)
    requires
        root.items("entries"@) is None,
        chapter_items(root) is Some,
    ensures
        answer(root, true) is Some,
        ({
            let items = answer(root, true)->0;
            let duration = root.number("duration"@)->0;
            let base = item_of(root)->0;
            &&& root.number("duration"@) is Some
            &&& duration.units() > 0
            &&& parts_named(root, duration, items)
            &&& forall|k: int|
                0 <= k < items.len() ==> {
                    let item = #[trigger] items[k];
                    &&& item.segment is Some
                    &&& item.segment->0.position == k + 1
                    &&& item.kind == SearchKind::Track
                    &&& item.provider == base.provider
                    &&& item.url == base.url
                    &&& item.duration_seconds == Some(
                        item.segment->0.start_seconds.seconds_until(item.segment->0.end_seconds),
                    )
                    &&& item.album_identity is Some
                    &&& item.album == Some(item.album_identity->0.title)
                    &&& item.artist == item.album_identity->0.artist
                    &&& item.album_identity->0.provider == base.provider
                    &&& item.album_identity->0.source_id == base.source_id
                    &&& root.text("album"@) matches Some(album) ==> item.album == Some(
                        text::bounded_text(album, 512),
                    )
                    &&& root.text("album"@) is None ==> item.album == Some(
                        chapters::album_title(base.title),
                    )
                    &&& root.text("album_artist"@) matches Some(artist) ==> item.artist
                        == text::bounded_text(artist, 256)
                    &&& root.text("album_artist"@) is None ==> item.artist == base.artist
                }
        }),
{
    let items = chapter_items(root)->0;
    let base = item_of(root)->0;
    let duration = root.number("duration"@)->0;
    let parts = parts_of(root, duration)->0;
    lemma_parts_sound(root, duration);
    lemma_item_tells_its_entry(root);
    reveal_strlit("Desconhecido");
    assert(text::bounded_text(base.artist, 256) == base.artist);
    let listed = match root.items("chapters"@) {
        Some(list) => list.len() > 0,
        None => false,
    };
    if listed {
        chapters::lemma_chapter_list_cut(root.items("chapters"@)->0, duration);
        assert forall|k: int| 0 <= k < items.len() implies {
            let list = root.items("chapters"@)->0;
            &&& (#[trigger] items[k]).title == text::bounded_text(
                text::trimmed(list[k].text("title"@)->0),
                512,
            )
            &&& items[k].segment->0.start_seconds == list[k].number("start_time"@)->0
            &&& items[k].segment->0.end_seconds == chapters::entry_end(list, k, duration)
        } by {
            assert(parts[k].title == text::trimmed(
                root.items("chapters"@)->0[k].text("title"@)->0,
            ));
        }
    } else {
        let description = root.text("description"@)->0;
        let lines = crate::scan::pieces(description, '\n');
        chapters::lemma_index_cut(description, duration);
        let places = choose|places: Seq<int>|
            {
                let parts = chapters::timestamp_parts(description, duration)->0;
                &&& #[trigger] chapters::index_places(
                    crate::scan::pieces(description, '\n'),
                    places,
                )
                &&& parts.len() == places.len()
                &&& 2 <= parts.len() <= 500
                &&& forall|k: int|
                    0 <= k < parts.len() ==> {
                        let part = #[trigger] parts[k];
                        &&& exists|n: nat|
                            #[trigger] chapters::line_names(
                                crate::scan::pieces(description, '\n')[places[k]],
                                n,
                                part.title,
                            ) && part.start == crate::seconds::whole_point(n)
                        &&& part.end == if k + 1 < parts.len() {
                            parts[k + 1].start
                        } else {
                            duration
                        }
                    }
            };
        assert forall|k: int| 0 <= k < items.len() implies {
            &&& exists|n: nat, title: Seq<char>|
                #[trigger] chapters::line_names(lines[places[k]], n, title) && (
                #[trigger] items[k]).title == text::bounded_text(title, 512)
                    && items[k].segment->0.start_seconds == crate::seconds::whole_point(n)
            &&& items[k].segment->0.end_seconds == if k + 1 < items.len() {
                items[k + 1].segment->0.start_seconds
            } else {
                duration
            }
        } by {
            let part = parts[k];
            let n = choose|n: nat|
                #[trigger] chapters::line_names(lines[places[k]], n, part.title) && part.start
                    == crate::seconds::whole_point(n);
            assert(chapters::line_names(lines[places[k]], n, part.title));
            assert(items[k].title == text::bounded_text(part.title, 512));
            if k + 1 < items.len() {
                assert(items[k + 1].segment->0.start_seconds == parts[k + 1].start);
            }
        }
        assert(named_by_index(root, duration, items));
    }
}

/// A recording whose chapter list is in order is cut whenever its parts are asked for; where its
/// chapter list is not, it stays whole.
pub proof fn lemma_chapters_always_used(root: JsonTree, list: Seq<JsonTree>, duration: Seconds)
    requires
        root.items("entries"@) is None,
        root.text("id"@) is Some,
        root.items("chapters"@) == Some(list),
        list.len() > 0,
        root.number("duration"@) == Some(duration),
        duration.units() > 0,
    ensures
        answer(root, true) is Some,
        2 <= list.len() <= 500 && (forall|k: int|
            0 <= k < list.len() ==> #[trigger] chapters::entry_in_place(list, k, duration))
            ==> answer(root, true)->0.len() == list.len() && answer(root, true)->0[0].segment
            is Some,
        !(2 <= list.len() <= 500 && forall|k: int|
            0 <= k < list.len() ==> #[trigger] chapters::entry_in_place(list, k, duration))
            ==> answer(root, true)->0 == seq![item_of(root)->0],
        answer(root, false) == Some(seq![item_of(root)->0]),
{
    assert(duration.finite());
    chapters::lemma_chapter_list_cut(list, duration);
    lemma_item_tells_its_entry(root);
}

/// Whether `places` are the places of the entries that have an identifier, in order.
pub open spec fn identified(entries: Seq<JsonTree>, places: Seq<int>) -> bool {
    &&& forall|k: int|
        0 <= k < places.len() ==> 0 <= #[trigger] places[k] < entries.len()
            && entries[places[k]].text("id"@) is Some
    &&& forall|j: int, k: int|
        0 <= j < k < places.len() ==> #[trigger] places[j] < #[trigger] places[k]
    &&& forall|i: int|
        0 <= i < entries.len() && (#[trigger] entries[i]).text("id"@) is Some ==> places.contains(i)
}

proof fn lemma_entries_kept(entries: Seq<JsonTree>, album: Option<AlbumDraftView>) -> (places: Seq<
    int,
>)
    ensures
        identified(entries, places),
        places.len() == entry_items(entries, album).len(),
        forall|k: int|
            0 <= k < places.len() ==> #[trigger] entry_items(entries, album)[k] == in_album(
                item_of(entries[places[k]])->0,
                album,
            ),
    decreases entries.len(),
{
    if entries.len() == 0 {
        Seq::empty()
    } else {
        let rest = entries.drop_last();
        let before = lemma_entries_kept(rest, album);
        let last = entries.len() - 1;
        let kept = entries.last().text("id"@) is Some;
        let places = if kept {
            before.push(last)
        } else {
            before
        };
        assert forall|i: int|
            0 <= i < entries.len() && (#[trigger] entries[i]).text(
                "id"@,
            ) is Some implies places.contains(i) by {
            if i < last {
                assert(rest[i] == entries[i]);
                let k = choose|k: int| 0 <= k < before.len() && before[k] == i;
                assert(places[k] == i);
            } else {
                assert(places[before.len() as int] == last);
            }
        }
        assert forall|k: int| 0 <= k < places.len() implies 0 <= #[trigger] places[k]
            < entries.len() && entries[places[k]].text("id"@) is Some && entry_items(
            entries,
            album,
        )[k] == in_album(item_of(entries[places[k]])->0, album) by {
            if k < before.len() {
                assert(before[k] == places[k]);
                assert(rest[before[k]] == entries[places[k]]);
                assert(entry_items(rest, album)[k] == in_album(
                    item_of(rest[before[k]])->0,
                    album,
                ));
            }
        }
        places
    }
}

/// The items of a collection are its entries that have an identifier, in order, five hundred of
/// them at most. In an album each of them belongs to it; otherwise each is as it is by itself.
pub proof fn lemma_collection_in_order(root: JsonTree, entries: Seq<JsonTree>, inspect_video: bool)
    requires
        root.items("entries"@) == Some(entries),
    ensures
        exists|places: Seq<int>|
            {
                let items = answer(root, inspect_video);
                let count = if places.len() <= 500 {
                    places.len()
                } else {
                    500
                };
                &&& #[trigger] identified(entries, places)
                &&& places.len() == 0 <==> items is None
                &&& items is Some ==> items->0.len() == count && forall|k: int|
                    0 <= k < count ==> {
                        let item = #[trigger] items->0[k];
                        let plain = item_of(entries[places[k]])->0;
                        &&& item.title == plain.title
                        &&& item.artist == plain.artist
                        &&& item.source_id == plain.source_id
                        &&& item.provider == plain.provider
                        &&& item.kind == plain.kind
                        &&& item.url == plain.url
                        &&& item.duration_seconds == plain.duration_seconds
                        &&& item.segment == plain.segment
                        &&& album_of(root) matches Some(album) ==> item.album == Some(album.title)
                            && item.album_identity == Some(album)
                        &&& album_of(root) is None ==> item.album == plain.album
                            && item.album_identity == plain.album_identity
                    }
            },
{
    let places = lemma_entries_kept(entries, album_of(root));
    assert(identified(entries, places));
}

/// A collection is an album exactly where its root is one; the album has the identifier and the
/// artist of the root, and the title of the album that the root names.
pub proof fn lemma_collection_album(root: JsonTree)
    ensures
        album_of(root) is Some <==> item_of(root) is Some && item_of(root)->0.kind
            == SearchKind::Album,
        album_of(root) is Some ==> {
            let album = album_of(root)->0;
            &&& album.provider == "youtube"@
            &&& album.source_id == text::bounded_text(root.text("id"@)->0, 128)
            &&& album.title == text::bounded_text(root.text("album"@)->0, 512)
            &&& album.artist == item_of(root)->0.artist
        },
{
}

/// A host is YouTube's exactly where it is one of the two names or lies below the second, whatever
/// the case of its letters.
pub proof fn lemma_youtube_hosts(below: Seq<char>, host: Seq<char>)
    ensures
        text::ascii_lower_text(host) == "youtu.be"@ ==> youtube_host(host),
        text::ascii_lower_text(host) == "youtube.com"@ ==> youtube_host(host),
        text::ascii_lower_text(host) == below + ".youtube.com"@ ==> youtube_host(host),
        youtube_host(host) ==> text::ascii_lower_text(host) == "youtu.be"@ || text::ascii_lower_text(
            host,
        ) == "youtube.com"@ || exists|start: Seq<char>|
            text::ascii_lower_text(host) == #[trigger] (start + ".youtube.com"@),
{
    let lower = text::ascii_lower_text(host);
    let suffix = ".youtube.com"@;
    text::lemma_occurs_between(below, suffix, Seq::empty());
    if text::ends_with(lower, suffix) {
        let start = lower.take(lower.len() - suffix.len());
        assert(lower =~= start + suffix);
    }
}

/// A link is YouTube's exactly where it is one of the web and has a host that is YouTube's.
pub proof fn lemma_youtube_links(scheme: Seq<char>, host: Option<Seq<char>>)
    ensures
        youtube_link(Some((scheme, host))) <==> (scheme == "http"@ || scheme == "https"@) && host
            is Some && youtube_host(host->0),
        web_link(Some((scheme, host))) <==> scheme == "http"@ || scheme == "https"@,
        !youtube_link(None),
        !web_link(None),
{
}

/// Words are searched for as they are typed, but for the whitespace around them, and as many results
/// are asked for as are wanted, one at least and fifty at most; a link of YouTube is opened itself
/// and whole, and another link is refused.
pub proof fn lemma_words_or_link(query: Seq<char>, limit: nat, result: Result<Extraction, String>)
    requires
        search_asks(query, limit, result),
    ensures
        ({
            let words = text::trimmed(query);
            let input = text::views(result->Ok_0.arguments@).last();
            let count = text::views(result->Ok_0.arguments@)[11];
            &&& words.len() == 0 ==> result is Err
            &&& words.len() > 0 && !http_url(words) ==> result is Ok && exists|wanted: nat|
                {
                    &&& 1 <= wanted <= 50
                    &&& 1 <= limit <= 50 ==> wanted == limit
                    &&& input == "ytsearch"@ + #[trigger] text::decimal_text(wanted) + ":"@ + words
                    &&& count == text::decimal_text(wanted)
                    &&& text::views(result->Ok_0.arguments@).contains("--flat-playlist"@)
                    &&& !result->Ok_0.inspect_video
                }
            &&& words.len() > 0 && http_url(words) ==> (result is Ok <==> youtube_url(words))
            &&& words.len() > 0 && http_url(words) && result is Ok ==> input == words && count
                == text::decimal_text(500) && text::views(result->Ok_0.arguments@).contains(
                "--no-flat-playlist"@,
            ) && result->Ok_0.inspect_video
        }),
{
    let words = text::trimmed(query);
    if result is Ok {
        let arguments = text::views(result->Ok_0.arguments@);
        if !http_url(words) {
            let wanted = clamped(limit, 50);
            assert(arguments[12] == "--flat-playlist"@);
            assert(arguments.last() == "ytsearch"@ + text::decimal_text(wanted) + ":"@ + words);
        } else {
            assert(arguments[12] == "--no-flat-playlist"@);
        }
    }
}

/// A link that is opened is one of YouTube, opened itself and whole; any other is refused.
pub proof fn lemma_link_resolved(url: Seq<char>, result: Result<Extraction, String>)
    requires
        resolve_asks(url, result),
    ensures
        result is Ok <==> youtube_url(url),
        result is Ok ==> result->Ok_0.inspect_video && text::views(result->Ok_0.arguments@).last()
            == url && text::views(result->Ok_0.arguments@)[11] == text::decimal_text(500)
            && text::views(result->Ok_0.arguments@).contains("--no-flat-playlist"@),
{
    if result is Ok {
        assert(text::views(result->Ok_0.arguments@)[12] == "--no-flat-playlist"@);
    }
}

/// An answer of the extractor may take 16 MiB, its complaints 256 KiB, and it may work for a minute
/// and a half; an answer holds five hundred items at most.
pub proof fn lemma_extraction_limits()
    ensures
        MAX_COLLECTION_ITEMS == 500,
        MAX_JSON_BYTES == 16 * 1024 * 1024,
        MAX_ERROR_BYTES == 256 * 1024,
        EXTRACT_TIMEOUT_SECONDS == 90,
{
}

/// The extractor describes what it is asked for as one document and fetches none of it, tries twice,
/// takes no more items than are wanted, and does not go by the user's own settings.
pub proof fn lemma_described_only(input: Seq<char>, limit: nat, flat: bool)
    ensures
        ({
            let arguments = extract_arguments(input, limit, flat);
            &&& arguments.contains("--ignore-config"@)
            &&& arguments.contains("--dump-single-json"@)
            &&& arguments.contains("--skip-download"@)
            &&& exists|i: int|
                0 <= i < arguments.len() - 1 && #[trigger] arguments[i] == "--retries"@
                    && arguments[i + 1] == "2"@
            &&& exists|i: int|
                0 <= i < arguments.len() - 1 && #[trigger] arguments[i] == "--extractor-retries"@
                    && arguments[i + 1] == "2"@
            &&& exists|i: int|
                0 <= i < arguments.len() - 1 && #[trigger] arguments[i] == "--socket-timeout"@
                    && arguments[i + 1] == "10"@
            &&& 1 <= limit <= 500 ==> exists|i: int|
                0 <= i < arguments.len() - 1 && #[trigger] arguments[i] == "--playlist-end"@
                    && arguments[i + 1] == text::decimal_text(limit)
            &&& arguments[arguments.len() - 2] == "--"@
            &&& arguments.last() == input
        }),
{
    let arguments = extract_arguments(input, limit, flat);
    assert(arguments[0] == "--ignore-config"@);
    assert(arguments[1] == "--dump-single-json"@);
    assert(arguments[2] == "--skip-download"@);
    assert(arguments[4] == "--socket-timeout"@ && arguments[5] == "10"@);
    assert(arguments[6] == "--retries"@ && arguments[7] == "2"@);
    assert(arguments[8] == "--extractor-retries"@ && arguments[9] == "2"@);
    assert(arguments[10] == "--playlist-end"@);
    if 1 <= limit <= 500 {
        assert(arguments[11] == text::decimal_text(limit));
    }
}

} // verus!
