//! From the results that were chosen to the requests for the download service.

use vstd::prelude::*;

use crate::download;
use crate::model::AlbumDraftView;
use crate::model::DownloadRequest;
use crate::model::DownloadRequestView;
use crate::model::SearchItem;
use crate::model::SearchItemView;
use crate::source::MAX_COLLECTION_ITEMS;
use crate::text;

verus! {

/// Whether two items are the same for their provider.
pub open spec fn same_item(a: SearchItemView, b: SearchItemView) -> bool {
    a.provider == b.provider && a.source_id == b.source_id
}

/// Whether a list holds an item that is the same for its provider.
pub open spec fn listed(items: Seq<SearchItemView>, item: SearchItemView) -> bool {
    exists|i: int| 0 <= i < items.len() && same_item(#[trigger] items[i], item)
}

/// The items without those that came before, in their order.
pub open spec fn distinct(items: Seq<SearchItemView>) -> Seq<SearchItemView>
    decreases items.len(),
{
    if items.len() == 0 {
        Seq::empty()
    } else {
        let before = distinct(items.drop_last());
        if listed(before, items.last()) {
            before
        } else {
            before.push(items.last())
        }
    }
}

pub(crate) fn is_listed(items: &Vec<SearchItem>, item: &SearchItem) -> (result: bool)
    ensures
        result == listed(text::views(items@), item@),
{
    let mut i: usize = 0;
    while i < items.len()
        invariant
            i <= items@.len(),
            forall|k: int| 0 <= k < i ==> !same_item(#[trigger] text::views(items@)[k], item@),
        decreases items@.len() - i,
    {
        assert(text::views(items@)[i as int] == items@[i as int]@);
        if text::same_text(items[i].source_id.as_str(), item.source_id.as_str())
            && text::same_text(items[i].provider.as_str(), item.provider.as_str()) {
            return true;
        }
        i += 1;
    }
    false
}

/// The items without those that came before, in their order.
pub fn distinct_items(items: &Vec<SearchItem>) -> (result: Vec<SearchItem>)
    ensures
        text::views(result@) == distinct(text::views(items@)),
{
    let ghost all = text::views(items@);
    let mut result: Vec<SearchItem> = Vec::new();
    let mut i: usize = 0;
    assert(text::views(result@) =~= distinct(all.take(0)));
    while i < items.len()
        invariant
            all == text::views(items@),
            i <= items@.len(),
            text::views(result@) == distinct(all.take(i as int)),
        decreases items@.len() - i,
    {
        proof {
            assert(all.take(i + 1).drop_last() =~= all.take(i as int));
            assert(all[i as int] == items@[i as int]@);
        }
        if !is_listed(&result, &items[i]) {
            let ghost before = result@;
            let item = items[i].clone();
            result.push(item);
            assert(text::views(result@) =~= text::views(before).push(item@));
        }
        i += 1;
    }
    assert(all.take(all.len() as int) =~= all);
    result
}

/// No item is downloaded twice, every chosen one is there, and their order is kept: the result
/// holds no two that are the same, one for each of the items, and it is never longer.
pub proof fn lemma_distinct(items: Seq<SearchItemView>)
    ensures
        forall|i: int, j: int|
            0 <= i < j < distinct(items).len() ==> !same_item(
                #[trigger] distinct(items)[i],
                #[trigger] distinct(items)[j],
            ),
        forall|i: int| 0 <= i < items.len() ==> listed(distinct(items), #[trigger] items[i]),
        distinct(items).len() <= items.len(),
        forall|i: int|
            0 <= i < distinct(items).len() ==> items.contains(#[trigger] distinct(items)[i]),
    decreases items.len(),
{
    if items.len() > 0 {
        let rest = items.drop_last();
        lemma_distinct(rest);
        let before = distinct(rest);
        let after = distinct(items);
        assert forall|i: int| 0 <= i < items.len() implies listed(after, #[trigger] items[i]) by {
            if i < items.len() - 1 {
                assert(rest[i] == items[i]);
                assert(listed(before, rest[i]));
                let k = choose|k: int|
                    0 <= k < before.len() && same_item(#[trigger] before[k], items[i]);
                assert(same_item(after[k], items[i]));
            } else if !listed(before, items.last()) {
                assert(same_item(after[before.len() as int], items[i]));
            }
        }
        assert forall|i: int| 0 <= i < after.len() implies items.contains(#[trigger] after[i]) by {
            if i < before.len() {
                assert(rest.contains(before[i]));
                let k = choose|k: int| 0 <= k < rest.len() && rest[k] == before[i];
                assert(items[k] == after[i]);
            } else {
                assert(items[items.len() - 1] == after[i]);
            }
        }
    }
}

/// The position of the request for an album, or the number of requests.
pub open spec fn album_request(requests: Seq<DownloadRequestView>, album: AlbumDraftView) -> int
    decreases requests.len(),
{
    if requests.len() == 0 || wants_album(requests[0], album) {
        0
    } else {
        1 + album_request(requests.skip(1), album)
    }
}

/// Whether a request is for an album.
pub open spec fn wants_album(request: DownloadRequestView, album: AlbumDraftView) -> bool {
    request.album matches Some(wanted) && wanted.provider == album.provider && wanted.source_id
        == album.source_id
}

/// The requests with one more item: that of its album where there is one, and else one of its own.
pub open spec fn with_item(requests: Seq<DownloadRequestView>, item: SearchItemView) -> Seq<
    DownloadRequestView,
> {
    match item.album_identity {
        Some(album) => {
            let at = album_request(requests, album);
            if at < requests.len() {
                requests.update(
                    at,
                    DownloadRequestView { items: requests[at].items.push(item), ..requests[at] },
                )
            } else {
                requests.push(
                    DownloadRequestView {
                        job_id: download::safe_name(album.provider) + "-album-"@
                            + download::safe_name(album.source_id),
                        items: seq![item],
                        album: Some(album),
                    },
                )
            }
        },
        None => requests.push(
            DownloadRequestView {
                job_id: download::safe_name(item.provider) + "-"@ + download::safe_name(
                    item.source_id,
                ),
                items: seq![item],
                album: None,
            },
        ),
    }
}

/// The requests for a list of items: one for each album and one for each item without one.
pub open spec fn requests_for(items: Seq<SearchItemView>) -> Seq<DownloadRequestView>
    decreases items.len(),
{
    if items.len() == 0 {
        Seq::empty()
    } else {
        with_item(requests_for(items.drop_last()), items.last())
    }
}

fn find_request(requests: &Vec<DownloadRequest>, provider: &str, source_id: &str) -> (result: usize)
    ensures
        forall|album: AlbumDraftView|
            album.provider == provider@ && album.source_id == source_id@ ==> result
                == #[trigger] album_request(text::views(requests@), album),
        result <= requests@.len(),
{
    let ghost list = text::views(requests@);
    let ghost sought = AlbumDraftView {
        provider: provider@,
        source_id: source_id@,
        title: Seq::empty(),
        artist: Seq::empty(),
    };
    let mut i: usize = 0;
    assert(list.skip(0) =~= list);
    while i < requests.len()
        invariant
            list == text::views(requests@),
            sought.provider == provider@,
            sought.source_id == source_id@,
            i <= requests@.len(),
            album_request(list, sought) == i + album_request(list.skip(i as int), sought),
        decreases requests@.len() - i,
    {
        assert(list[i as int] == requests@[i as int]@);
        match &requests[i].album {
            Some(album) => {
                if text::same_text(album.source_id.as_str(), source_id) && text::same_text(
                    album.provider.as_str(),
                    provider,
                ) {
                    assert forall|album: AlbumDraftView|
                        album.provider == provider@ && album.source_id == source_id@ implies i
                        == #[trigger] album_request(list, album) by {
                        lemma_album_request(list, album, sought);
                    }
                    return i;
                }
            },
            None => {},
        }
        assert(list.skip(i as int).skip(1) =~= list.skip(i + 1));
        i += 1;
    }
    assert forall|album: AlbumDraftView|
        album.provider == provider@ && album.source_id == source_id@ implies i
        == #[trigger] album_request(list, album) by {
        lemma_album_request(list, album, sought);
    }
    i
}

proof fn lemma_album_request(
    requests: Seq<DownloadRequestView>,
    a: AlbumDraftView,
    b: AlbumDraftView,
)
    requires
        a.provider == b.provider,
        a.source_id == b.source_id,
    ensures
        album_request(requests, a) == album_request(requests, b),
    decreases requests.len(),
{
    if requests.len() > 0 {
        lemma_album_request(requests.skip(1), a, b);
    }
}

fn job_name(first: &str, middle: &str, last: &str) -> (result: String)
    ensures
        result@ == download::safe_name(first@) + middle@ + download::safe_name(last@),
{
    let mut name = download::safe_component(first);
    name.push_str(middle);
    name.push_str(download::safe_component(last).as_str());
    name
}

fn single(item: &SearchItem) -> (result: Vec<SearchItem>)
    ensures
        text::views(result@) == seq![item@],
{
    let mut items: Vec<SearchItem> = Vec::new();
    items.push(item.clone());
    assert(text::views(items@) =~= seq![item@]);
    items
}

fn add_item(requests: &mut Vec<DownloadRequest>, item: &SearchItem)
    ensures
        text::views(final(requests)@) == with_item(text::views(old(requests)@), item@),
{
    let ghost before = text::views(requests@);
    match &item.album_identity {
        Some(album) => {
            let at: usize = find_request(
                requests,
                album.provider.as_str(),
                album.source_id.as_str(),
            );
            assert(at == album_request(before, album@));
            if at < requests.len() {
                assert(before[at as int] == requests@[at as int]@);
                let mut request = requests[at].clone();
                let ghost items = request.items@;
                let copy = item.clone();
                request.items.push(copy);
                assert(text::views(request.items@) =~= text::views(items).push(copy@));
                requests.set(at, request);
                assert(text::views(requests@) =~= with_item(before, item@));
            } else {
                let request = DownloadRequest {
                    job_id: job_name(
                        album.provider.as_str(),
                        "-album-",
                        album.source_id.as_str(),
                    ),
                    items: single(item),
                    album: Some(album.clone()),
                };
                requests.push(request);
                assert(text::views(requests@) =~= with_item(before, item@));
            }
        },
        None => {
            let request = DownloadRequest {
                job_id: job_name(item.provider.as_str(), "-", item.source_id.as_str()),
                items: single(item),
                album: None,
            };
            requests.push(request);
            assert(text::views(requests@) =~= with_item(before, item@));
        },
    }
}

/// The requests for a list of items: one for each album and one for each item without one.
pub fn download_requests(items: &Vec<SearchItem>) -> (result: Vec<DownloadRequest>)
    ensures
        text::views(result@) == requests_for(text::views(items@)),
{
    let ghost all = text::views(items@);
    let mut requests: Vec<DownloadRequest> = Vec::new();
    let mut i: usize = 0;
    assert(text::views(requests@) =~= requests_for(all.take(0)));
    while i < items.len()
        invariant
            all == text::views(items@),
            i <= items@.len(),
            text::views(requests@) == requests_for(all.take(i as int)),
        decreases items@.len() - i,
    {
        proof {
            assert(all.take(i + 1).drop_last() =~= all.take(i as int));
            assert(all[i as int] == items@[i as int]@);
        }
        add_item(&mut requests, &items[i]);
        i += 1;
    }
    assert(all.take(all.len() as int) =~= all);
    requests
}

/// How many items a list of requests holds.
pub open spec fn item_count(requests: Seq<DownloadRequestView>) -> nat
    decreases requests.len(),
{
    if requests.len() == 0 {
        0
    } else {
        item_count(requests.drop_last()) + requests.last().items.len()
    }
}

proof fn lemma_count_push(requests: Seq<DownloadRequestView>, request: DownloadRequestView)
    ensures
        item_count(requests.push(request)) == item_count(requests) + request.items.len(),
{
    assert(requests.push(request).drop_last() =~= requests);
}

proof fn lemma_count_update(
    requests: Seq<DownloadRequestView>,
    at: int,
    request: DownloadRequestView,
)
    requires
        0 <= at < requests.len(),
    ensures
        item_count(requests.update(at, request)) == item_count(requests) - requests[at].items.len()
            + request.items.len(),
    decreases requests.len(),
{
    let changed = requests.update(at, request);
    if at == requests.len() - 1 {
        assert(changed.drop_last() =~= requests.drop_last());
    } else {
        assert(changed.drop_last() =~= requests.drop_last().update(at, request));
        lemma_count_update(requests.drop_last(), at, request);
    }
}

proof fn lemma_album_request_bounds(requests: Seq<DownloadRequestView>, album: AlbumDraftView)
    ensures
        0 <= album_request(requests, album) <= requests.len(),
        album_request(requests, album) < requests.len() ==> wants_album(
            requests[album_request(requests, album)],
            album,
        ),
        forall|i: int|
            0 <= i < album_request(requests, album) ==> !wants_album(#[trigger] requests[i], album),
    decreases requests.len(),
{
    if requests.len() > 0 && !wants_album(requests[0], album) {
        lemma_album_request_bounds(requests.skip(1), album);
        assert forall|i: int| 0 <= i < album_request(requests, album) implies !wants_album(
            #[trigger] requests[i],
            album,
        ) by {
            if i > 0 {
                assert(requests[i] == requests.skip(1)[i - 1]);
            }
        }
    }
}

/// Whether every request has items, and those of an album all belong to it.
pub open spec fn coherent(requests: Seq<DownloadRequestView>) -> bool {
    &&& forall|r: int| 0 <= r < requests.len() ==> (#[trigger] requests[r]).items.len() > 0
    &&& forall|r: int, i: int|
        0 <= r < requests.len() && 0 <= i < requests[r].items.len()
            ==> match (#[trigger] requests[r].items[i]).album_identity {
            Some(album) => wants_album(requests[r], album),
            None => requests[r].album is None,
        }
    &&& forall|r: int, s: int, album: AlbumDraftView|
        0 <= r < s < requests.len() && #[trigger] wants_album(requests[r], album)
            ==> !#[trigger] wants_album(requests[s], album)
}

/// One album is one request, whatever the number of its tracks, and no item is lost on the way.
pub proof fn lemma_requests_whole(items: Seq<SearchItemView>)
    ensures
        item_count(requests_for(items)) == items.len(),
        coherent(requests_for(items)),
    decreases items.len(),
{
    if items.len() > 0 {
        let before = requests_for(items.drop_last());
        let item = items.last();
        let after = requests_for(items);
        lemma_requests_whole(items.drop_last());
        match item.album_identity {
            Some(album) => {
                lemma_album_request_bounds(before, album);
                let at = album_request(before, album);
                if at < before.len() {
                    lemma_count_update(before, at, after[at]);
                } else {
                    lemma_count_push(before, after[at]);
                }
                assert forall|r: int, s: int, other: AlbumDraftView|
                    0 <= r < s < after.len() && #[trigger] wants_album(after[r], other) implies !(
                #[trigger] wants_album(after[s], other)) by {
                    assert(wants_album(before[r], other));
                    if s < before.len() {
                        assert(!wants_album(before[s], other));
                    } else {
                        assert(!wants_album(before[r], album));
                    }
                }
                assert forall|r: int, i: int|
                    0 <= r < after.len() && 0 <= i < after[r].items.len() implies match (
                #[trigger] after[r].items[i]).album_identity {
                    Some(a) => wants_album(after[r], a),
                    None => after[r].album is None,
                } by {
                    if r < before.len() && (r != at || i < before[r].items.len()) {
                        assert(after[r].items[i] == before[r].items[i]);
                    }
                }
                assert forall|r: int| 0 <= r < after.len() implies (
                #[trigger] after[r]).items.len() > 0 by {
                    if r < before.len() {
                        assert(before[r].items.len() > 0);
                    }
                }
            },
            None => {
                lemma_count_push(before, after[before.len() as int]);
                assert forall|r: int, i: int|
                    0 <= r < after.len() && 0 <= i < after[r].items.len() implies match (
                #[trigger] after[r].items[i]).album_identity {
                    Some(a) => wants_album(after[r], a),
                    None => after[r].album is None,
                } by {
                    if r < before.len() {
                        assert(after[r].items[i] == before[r].items[i]);
                    }
                }
            },
        }
    }
}

/// The items that are gathered for a download, some of them by resolving a result first.
pub struct Gathering {
    pub items: Vec<SearchItem>,
}

/// Whether a result has to be resolved before it can be downloaded: one that belongs to an album or
/// is a part of a recording is known well enough.
pub fn needs_resolving(item: &SearchItem) -> (result: bool)
    ensures
        result == (item@.segment is None && item@.album_identity is None),
        result == unresolved(item@),
{
    item.segment.is_none() && item.album_identity.is_none()
}

/// The complaint about more items than one operation may take.
pub open spec fn too_many() -> Seq<char> {
    "selecao excede o limite de "@ + text::decimal_text(MAX_COLLECTION_ITEMS as nat) + " faixas"@
}

fn too_many_text() -> (result: String)
    ensures
        result@ == too_many(),
{
    let mut message = "selecao excede o limite de ".to_owned();
    message.push_str(text::decimal(MAX_COLLECTION_ITEMS as u64).as_str());
    message.push_str(" faixas");
    message
}

impl Gathering {
    /// Whether no more is gathered than one operation may take.
    pub open spec fn within_limit(self) -> bool {
        self.items@.len() <= MAX_COLLECTION_ITEMS
    }

    /// Nothing is gathered yet.
    pub fn new() -> (result: Self)
        ensures
            text::views(result.items@) == Seq::<SearchItemView>::empty(),
            result.within_limit(),
    {
        let gathering = Gathering { items: Vec::new() };
        assert(text::views(gathering.items@) =~= Seq::<SearchItemView>::empty());
        gathering
    }

    /// Adds a result as it is, unless that makes too many.
    pub fn keep(&mut self, item: SearchItem) -> (result: Result<(), String>)
        ensures
            match result {
                Ok(()) => old(self).items@.len() + 1 <= MAX_COLLECTION_ITEMS && text::views(
                    final(self).items@,
                ) == text::views(old(self).items@).push(item@) && final(self).within_limit(),
                Err(message) => old(self).items@.len() + 1 > MAX_COLLECTION_ITEMS && final(
                    self).items == old(self).items && message@ == too_many(),
            },
    {
        if self.items.len() >= MAX_COLLECTION_ITEMS {
            return Err(too_many_text());
        }
        self.items.push(item);
        assert(text::views(self.items@) =~= text::views(old(self).items@).push(item@));
        Ok(())
    }

    /// Adds what a result was resolved to, unless that makes too many.
    pub fn extend(&mut self, mut collection: Vec<SearchItem>) -> (result: Result<(), String>)
        ensures
            match result {
                Ok(()) => old(self).items@.len() + collection@.len() <= MAX_COLLECTION_ITEMS
                    && text::views(final(self).items@) == text::views(old(self).items@)
                    + text::views(collection@) && final(self).within_limit(),
                Err(message) => old(self).items@.len() + collection@.len() > MAX_COLLECTION_ITEMS
                    && final(self).items == old(self).items && message@ == too_many(),
            },
    {
        let held: usize = self.items.len();
        let added: usize = collection.len();
        if added > MAX_COLLECTION_ITEMS || held > MAX_COLLECTION_ITEMS - added {
            return Err(too_many_text());
        }
        let ghost more = collection@;
        self.items.append(&mut collection);
        assert(text::views(self.items@) =~= text::views(old(self).items@) + text::views(more));
        Ok(())
    }

    /// The requests for what was gathered, nothing in them twice.
    pub fn requests(&self) -> (result: Vec<DownloadRequest>)
        ensures
            text::views(result@) == requests_for(distinct(text::views(self.items@))),
    {
        let items = distinct_items(&self.items);
        download_requests(&items)
    }
}

/// However many results were chosen and whatever they were resolved to, one operation downloads at
/// most five hundred tracks.
pub proof fn lemma_operation_bounded(items: Seq<SearchItemView>)
    requires
        items.len() <= MAX_COLLECTION_ITEMS,
    ensures
        item_count(requests_for(distinct(items))) <= MAX_COLLECTION_ITEMS,
{
    lemma_distinct(items);
    lemma_requests_whole(distinct(items));
}

/// Whether the items of each request come from a list, in its order.
pub open spec fn drawn_in_order(
    requests: Seq<DownloadRequestView>,
    items: Seq<SearchItemView>,
) -> bool {
    &&& forall|r: int, i: int|
        0 <= r < requests.len() && 0 <= i < requests[r].items.len() ==> items.contains(
            #[trigger] requests[r].items[i],
        )
    &&& forall|r: int, i: int, j: int|
        0 <= r < requests.len() && 0 <= i < j < requests[r].items.len() ==> ordered_in(
            items,
            #[trigger] requests[r].items[i],
            #[trigger] requests[r].items[j],
        )
}

/// Whether a list holds `a` somewhere before `b`.
pub open spec fn ordered_in(items: Seq<SearchItemView>, a: SearchItemView, b: SearchItemView) -> bool {
    exists|k: int, l: int|
        0 <= k < l < items.len() && #[trigger] items[k] == a && #[trigger] items[l] == b
}

/// Whether no item stands in two places of the requests.
pub open spec fn nothing_twice(requests: Seq<DownloadRequestView>) -> bool {
    forall|r: int, i: int, s: int, j: int|
        0 <= r < requests.len() && 0 <= s < requests.len() && 0 <= i < requests[r].items.len() && 0
            <= j < requests[s].items.len() && (r != s || i != j) ==> !same_item(
            #[trigger] requests[r].items[i],
            #[trigger] requests[s].items[j],
        )
}

proof fn lemma_longer_list(items: Seq<SearchItemView>, a: SearchItemView, b: SearchItemView)
    requires
        items.len() > 0,
    ensures
        items.drop_last().contains(a) ==> items.contains(a),
        ordered_in(items.drop_last(), a, b) ==> ordered_in(items, a, b),
        items.drop_last().contains(a) ==> ordered_in(items, a, items.last()),
        items.contains(items.last()),
{
    let rest = items.drop_last();
    let last = items.len() - 1;
    assert(items[last] == items.last());
    if rest.contains(a) {
        let k = choose|k: int| 0 <= k < rest.len() && rest[k] == a;
        assert(items[k] == a);
    }
    if ordered_in(rest, a, b) {
        let (k, l) = choose|k: int, l: int|
            0 <= k < l < rest.len() && #[trigger] rest[k] == a && #[trigger] rest[l] == b;
        assert(items[k] == a && items[l] == b);
    }
}

/// The requests for items of which no two are the same hold each of them once, and each request
/// holds its own in the order in which they were chosen.
pub proof fn lemma_requests_in_order(items: Seq<SearchItemView>)
    requires
        forall|i: int, j: int|
            0 <= i < j < items.len() ==> !same_item(#[trigger] items[i], #[trigger] items[j]),
    ensures
        drawn_in_order(requests_for(items), items),
        nothing_twice(requests_for(items)),
    decreases items.len(),
{
    if items.len() > 0 {
        let rest = items.drop_last();
        let item = items.last();
        let before = requests_for(rest);
        let after = requests_for(items);
        assert forall|i: int, j: int| 0 <= i < j < rest.len() implies !same_item(
            #[trigger] rest[i],
            #[trigger] rest[j],
        ) by {
            assert(!same_item(items[i], items[j]));
        }
        lemma_requests_in_order(rest);
        let at = match item.album_identity {
            Some(album) => album_request(before, album),
            None => before.len() as int,
        };
        if let Some(album) = item.album_identity {
            lemma_album_request_bounds(before, album);
        }
        let place = if at < before.len() {
            before[at].items.len() as int
        } else {
            0
        };
        assert(after[at].items[place] == item);
        assert forall|r: int, i: int|
            0 <= r < after.len() && 0 <= i < after[r].items.len() && !(r == at && i
                == place) implies r < before.len() && i < before[r].items.len()
            && #[trigger] after[r].items[i] == before[r].items[i] && rest.contains(
            after[r].items[i],
        ) && !same_item(after[r].items[i], item) && !same_item(item, after[r].items[i]) by {
            assert(rest.contains(before[r].items[i]));
            let k = choose|k: int| 0 <= k < rest.len() && rest[k] == before[r].items[i];
            assert(!same_item(items[k], items[items.len() - 1]));
        }
        assert forall|r: int, i: int| 0 <= r < after.len() && 0 <= i
            < after[r].items.len() implies items.contains(#[trigger] after[r].items[i]) by {
            lemma_longer_list(items, after[r].items[i], item);
        }
        assert forall|r: int, i: int, j: int|
            0 <= r < after.len() && 0 <= i < j < after[r].items.len() implies ordered_in(
            items,
            #[trigger] after[r].items[i],
            #[trigger] after[r].items[j],
        ) by {
            lemma_longer_list(items, after[r].items[i], after[r].items[j]);
            if !(r == at && j == place) {
                assert(ordered_in(rest, before[r].items[i], before[r].items[j]));
            }
        }
    }
}

/// Of items that are the same for their provider the first one is kept, and what is kept stays in
/// its order.
pub proof fn lemma_first_kept(items: Seq<SearchItemView>, k: int)
    requires
        0 <= k < items.len(),
        forall|i: int|
            0 <= i < k ==> (#[trigger] items[i]).provider != items[k].provider || items[i].source_id
                != items[k].source_id,
    ensures
        distinct(items).contains(items[k]),
    decreases items.len(),
{
    let rest = items.drop_last();
    let (before, after) = (distinct(rest), distinct(items));
    lemma_distinct(rest);
    if k < rest.len() {
        assert(rest[k] == items[k]);
        assert forall|i: int| 0 <= i < k implies (#[trigger] rest[i]).provider != rest[k].provider
            || rest[i].source_id != rest[k].source_id by {
            assert(rest[i] == items[i]);
        }
        lemma_first_kept(rest, k);
        let j = choose|j: int| 0 <= j < before.len() && before[j] == items[k];
        assert(after[j] == items[k]);
    } else {
        assert(!listed(before, items[k])) by {
            if listed(before, items[k]) {
                let j = choose|j: int|
                    0 <= j < before.len() && same_item(#[trigger] before[j], items[k]);
                assert(rest.contains(before[j]));
                let i = choose|i: int| 0 <= i < rest.len() && rest[i] == before[j];
                assert(items[i] == before[j]);
            }
        }
        assert(after[before.len() as int] == items[k]);
    }
}

/// What is left after dropping repetitions stands in the order in which it came.
pub proof fn lemma_distinct_in_order(items: Seq<SearchItemView>)
    ensures
        forall|i: int, j: int|
            0 <= i < j < distinct(items).len() ==> ordered_in(
                items,
                #[trigger] distinct(items)[i],
                #[trigger] distinct(items)[j],
            ),
    decreases items.len(),
{
    if items.len() > 0 {
        let rest = items.drop_last();
        let (before, after) = (distinct(rest), distinct(items));
        lemma_distinct_in_order(rest);
        lemma_distinct(rest);
        assert forall|i: int, j: int| 0 <= i < j < after.len() implies ordered_in(
            items,
            #[trigger] after[i],
            #[trigger] after[j],
        ) by {
            if j < before.len() {
                assert(ordered_in(rest, before[i], before[j]));
                let (k, l) = choose|k: int, l: int|
                    0 <= k < l < rest.len() && #[trigger] rest[k] == before[i]
                        && #[trigger] rest[l] == before[j];
                assert(items[k] == after[i] && items[l] == after[j]);
            } else {
                assert(rest.contains(before[i]));
                let k = choose|k: int| 0 <= k < rest.len() && rest[k] == before[i];
                assert(items[k] == after[i] && items[items.len() - 1] == after[j]);
            }
        }
    }
}

/// Whether a request tells what it is for: it is named after its album, which is that of its first
/// item, or after its only item.
pub open spec fn well_named(request: DownloadRequestView) -> bool {
    let first = request.items[0];
    &&& request.items.len() > 0
    &&& request.album == first.album_identity
    &&& match request.album {
        Some(album) => request.job_id == download::safe_name(album.provider) + "-album-"@
            + download::safe_name(album.source_id),
        None => request.items.len() == 1 && request.job_id == download::safe_name(first.provider)
            + "-"@ + download::safe_name(first.source_id),
    }
}

/// Each request is named after what it is for, and every item is in one of them.
pub proof fn lemma_requests_named(items: Seq<SearchItemView>)
    ensures
        forall|r: int|
            0 <= r < requests_for(items).len() ==> well_named(#[trigger] requests_for(items)[r]),
        forall|k: int|
            0 <= k < items.len() ==> exists|r: int|
                0 <= r < requests_for(items).len() && (
                #[trigger] requests_for(items)[r]).items.contains(#[trigger] items[k]),
    decreases items.len(),
{
    if items.len() > 0 {
        let (rest, item) = (items.drop_last(), items.last());
        let (before, after) = (requests_for(rest), requests_for(items));
        lemma_requests_named(rest);
        let at = match item.album_identity {
            Some(album) => album_request(before, album),
            None => before.len() as int,
        };
        if let Some(album) = item.album_identity {
            lemma_album_request_bounds(before, album);
        }
        assert forall|r: int| 0 <= r < after.len() implies well_named(#[trigger] after[r]) by {
            if r < before.len() {
                assert(well_named(before[r]));
            }
        }
        assert forall|k: int| 0 <= k < items.len() implies exists|r: int|
            0 <= r < after.len() && (#[trigger] after[r]).items.contains(#[trigger] items[k]) by {
            if k < rest.len() {
                assert(rest[k] == items[k]);
                let r = choose|r: int|
                    0 <= r < before.len() && (#[trigger] before[r]).items.contains(rest[k]);
                let i = choose|i: int|
                    0 <= i < before[r].items.len() && before[r].items[i] == rest[k];
                assert(after[r].items[i] == items[k]);
                assert(after[r].items.contains(items[k]));
            } else {
                let i = after[at].items.len() - 1;
                assert(after[at].items[i] == items[k]);
                assert(after[at].items.contains(items[k]));
            }
        }
    }
}

/// The complaint about too many items tells how many one operation may take, five hundred.
pub proof fn lemma_limit_told()
    ensures
        MAX_COLLECTION_ITEMS == 500,
        text::occurs_in(too_many(), text::decimal_text(500)),
{
    text::lemma_occurs_between(
        "selecao excede o limite de "@,
        text::decimal_text(500),
        " faixas"@,
    );
}

/// Whether a result has to be opened before it is known what it holds.
pub open spec fn unresolved(item: SearchItemView) -> bool {
    item.segment is None && item.album_identity is None
}

/// A part of a recording and a track of an album are known for what they are; any other result is
/// opened before it is fetched.
pub proof fn lemma_known_for_what_it_is(item: SearchItemView)
    ensures
        item.segment is Some ==> !unresolved(item),
        item.album_identity is Some ==> !unresolved(item),
        item.segment is None && item.album_identity is None ==> unresolved(item),
{
}

} // verus!
