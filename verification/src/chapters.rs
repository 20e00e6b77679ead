//! The parts of one long recording: chapter lists, timestamp indexes and what is derived from them.

use vstd::prelude::*;
use vstd::utf8::*;

use crate::json::Json;
use crate::json::JsonTree;
use crate::scan;
use crate::seconds;
use crate::seconds::Seconds;
use crate::source::MAX_COLLECTION_ITEMS;
use crate::text;
use crate::text::Edge;

verus! {

/// Where a part begins, and where its source says that it ends.
pub struct Start {
    pub title: String,
    pub start: Seconds,
    pub declared_end: Option<Seconds>,
}

/// The view of a [`Start`].
#[verifier::ext_equal]
pub struct StartView {
    pub title: Seq<char>,
    pub start: Seconds,
    pub declared_end: Option<Seconds>,
}

impl View for Start {
    type V = StartView;

    open spec fn view(&self) -> StartView {
        StartView { title: self.title@, start: self.start, declared_end: self.declared_end }
    }
}

/// A part of a recording.
pub struct Chapter {
    pub title: String,
    pub start: Seconds,
    pub end: Seconds,
}

/// The view of a [`Chapter`].
#[verifier::ext_equal]
pub struct ChapterView {
    pub title: Seq<char>,
    pub start: Seconds,
    pub end: Seconds,
}

impl View for Chapter {
    type V = ChapterView;

    open spec fn view(&self) -> ChapterView {
        ChapterView { title: self.title@, start: self.start, end: self.end }
    }
}

/// Where the part after part `i` begins; the end of the recording after the last one.
pub open spec fn next_start(starts: Seq<StartView>, i: int, duration: Seconds) -> Seconds {
    if i + 1 < starts.len() {
        starts[i + 1].start
    } else {
        duration
    }
}

/// Where part `i` ends: where its source says so, and else where the next one begins.
pub open spec fn end_of(starts: Seq<StartView>, i: int, duration: Seconds) -> Seconds {
    match starts[i].declared_end {
        Some(end) => end,
        None => next_start(starts, i, duration),
    }
}

/// Whether part `i` lies inside the recording, after the part before it, and ends after it
/// begins; with `validate_ends` it must also end before the next part begins.
pub open spec fn fits(
    starts: Seq<StartView>,
    i: int,
    duration: Seconds,
    validate_ends: bool,
) -> bool {
    let start = starts[i].start;
    let end = end_of(starts, i, duration);
    &&& start.finite()
    &&& 0 <= start.units() < duration.units()
    &&& i > 0 ==> starts[i - 1].start.units() < start.units()
    &&& end.finite()
    &&& start.units() < end.units() <= duration.units()
    &&& validate_ends ==> end.units() <= next_start(starts, i, duration).units()
}

/// The parts that a list of starts describes: at least two, at most [`MAX_COLLECTION_ITEMS`],
/// and only where every one fits.
pub open spec fn segments(
    starts: Seq<StartView>,
    duration: Seconds,
    validate_ends: bool,
) -> Option<Seq<ChapterView>> {
    if 2 <= starts.len() <= MAX_COLLECTION_ITEMS && forall|i: int|
        0 <= i < starts.len() ==> #[trigger] fits(starts, i, duration, validate_ends) {
        Some(
            Seq::new(
                starts.len(),
                |i: int|
                    ChapterView {
                        title: starts[i].title,
                        start: starts[i].start,
                        end: end_of(starts, i, duration),
                    },
            ),
        )
    } else {
        None
    }
}

/// Turns a list of starts into parts.
pub fn build_segments(starts: &Vec<Start>, duration: Seconds, validate_ends: bool) -> (result:
    Option<Vec<Chapter>>)
    ensures
        match result {
            Some(parts) => segments(text::views(starts@), duration, validate_ends) == Some(
                text::views(parts@),
            ),
            None => segments(text::views(starts@), duration, validate_ends) is None,
        },
{
    let ghost list = text::views(starts@);
    if starts.len() < 2 || starts.len() > MAX_COLLECTION_ITEMS {
        return None;
    }
    let zero = Seconds::zero();
    let mut output: Vec<Chapter> = Vec::new();
    let mut index: usize = 0;
    while index < starts.len()
        invariant
            list == text::views(starts@),
            2 <= starts@.len() <= MAX_COLLECTION_ITEMS,
            zero.units() == 0,
            index <= starts@.len(),
            output@.len() == index,
            forall|i: int| 0 <= i < index ==> #[trigger] fits(list, i, duration, validate_ends),
            forall|i: int|
                0 <= i < index ==> (#[trigger] output@[i])@ == (ChapterView {
                    title: list[i].title,
                    start: list[i].start,
                    end: end_of(list, i, duration),
                }),
        decreases starts@.len() - index,
    {
        let start = starts[index].start;
        let next = if index + 1 < starts.len() {
            starts[index + 1].start
        } else {
            duration
        };
        let end = match starts[index].declared_end {
            Some(end) => end,
            None => next,
        };
        assert(list[index as int] == starts@[index as int]@);
        assert(next == next_start(list, index as int, duration));
        assert(end == end_of(list, index as int, duration));
        if !start.is_finite() || start.before(zero) || !start.before(duration) {
            assert(!fits(list, index as int, duration, validate_ends));
            return None;
        }
        if index > 0 && !starts[index - 1].start.before(start) {
            assert(list[index - 1] == starts@[index - 1]@);
            assert(!fits(list, index as int, duration, validate_ends));
            return None;
        }
        if !end.is_finite() || !start.before(end) || duration.before(end) || (validate_ends
            && next.before(end)) {
            assert(!fits(list, index as int, duration, validate_ends));
            return None;
        }
        assert(fits(list, index as int, duration, validate_ends)) by {
            if index > 0 {
                assert(list[index - 1] == starts@[index - 1]@);
            }
        }
        output.push(Chapter { title: starts[index].title.clone(), start, end });
        index += 1;
    }
    assert(text::views(output@) =~= segments(list, duration, validate_ends)->0);
    Some(output)
}

/// The start that one entry of a chapter list describes.
pub open spec fn structured_start(chapter: JsonTree, duration: Seconds) -> Option<StartView> {
    match (chapter.text("title"@), chapter.number("start_time"@)) {
        (Some(title), Some(start)) => if text::trimmed(title).len() > 0 && 0 <= start.units()
            < duration.units() {
            Some(
                StartView {
                    title: text::trimmed(title),
                    start,
                    declared_end: chapter.number("end_time"@),
                },
            )
        } else {
            None
        },
        _ => None,
    }
}

/// The parts that a chapter list describes, where every entry of it can be read.
pub open spec fn structured_parts(chapters: Seq<JsonTree>, duration: Seconds) -> Option<
    Seq<ChapterView>,
> {
    if 2 <= chapters.len() <= MAX_COLLECTION_ITEMS && forall|i: int|
        0 <= i < chapters.len() ==> structured_start(#[trigger] chapters[i], duration) is Some {
        segments(
            Seq::new(chapters.len(), |i: int| structured_start(chapters[i], duration)->0),
            duration,
            true,
        )
    } else {
        None
    }
}

fn read_start(chapter: &Json, duration: Seconds) -> (result: Option<Start>)
    ensures
        match result {
            Some(start) => structured_start(chapter@, duration) == Some(start@),
            None => structured_start(chapter@, duration) is None,
        },
{
    let title = match chapter.get_text("title") {
        Some(title) => text::trim(title),
        None => {
            return None;
        },
    };
    let start = match chapter.get_number("start_time") {
        Some(start) => start,
        None => {
            return None;
        },
    };
    if title.is_empty() || start.before(Seconds::zero()) || !start.before(duration) {
        return None;
    }
    Some(
        Start {
            title: title.to_owned(),
            start,
            declared_end: chapter.get_number("end_time"),
        },
    )
}

/// Reads a chapter list.
pub fn structured_chapters(chapters: &Vec<Json>, duration: Seconds) -> (result: Option<
    Vec<Chapter>,
>)
    ensures
        match result {
            Some(parts) => structured_parts(text::views(chapters@), duration) == Some(
                text::views(parts@),
            ),
            None => structured_parts(text::views(chapters@), duration) is None,
        },
{
    let ghost trees = text::views(chapters@);
    if chapters.len() < 2 || chapters.len() > MAX_COLLECTION_ITEMS {
        return None;
    }
    let mut starts: Vec<Start> = Vec::new();
    let mut i: usize = 0;
    while i < chapters.len()
        invariant
            trees == text::views(chapters@),
            i <= chapters@.len(),
            starts@.len() == i,
            forall|k: int|
                0 <= k < i ==> structured_start(#[trigger] trees[k], duration) == Some(
                    starts@[k]@,
                ),
        decreases chapters@.len() - i,
    {
        assert(trees[i as int] == chapters@[i as int]@);
        match read_start(&chapters[i], duration) {
            Some(start) => {
                starts.push(start);
            },
            None => {
                return None;
            },
        }
        i += 1;
    }
    assert(text::views(starts@) =~= Seq::new(
        trees.len(),
        |k: int| structured_start(trees[k], duration)->0,
    )) by {
        assert forall|k: int| 0 <= k < trees.len() implies text::views(starts@)[k]
            == #[trigger] structured_start(trees[k], duration)->0 by {
            assert(structured_start(trees[k], duration) == Some(starts@[k]@));
        }
    }
    build_segments(&starts, duration, true)
}

/// The number of seconds that a timestamp such as `4:05` or `1:04:05` writes.
pub open spec fn timestamp(stamp: Seq<char>) -> Option<nat> {
    let parts = scan::pieces(stamp, ':');
    if parts.len() == 2 {
        match (text::parsed_number(parts[0]), text::parsed_number(parts[1])) {
            (Some(minutes), Some(seconds)) => if seconds < 60 && minutes * 60 + seconds
                <= u64::MAX {
                Some(minutes * 60 + seconds)
            } else {
                None
            },
            _ => None,
        }
    } else if parts.len() == 3 {
        match (
            text::parsed_number(parts[0]),
            text::parsed_number(parts[1]),
            text::parsed_number(parts[2]),
        ) {
            (Some(hours), Some(minutes), Some(seconds)) => if minutes < 60 && seconds < 60 && hours
                * 3600 + minutes * 60 + seconds <= u64::MAX {
                Some(hours * 3600 + minutes * 60 + seconds)
            } else {
                None
            },
            _ => None,
        }
    } else {
        None
    }
}

fn read_number(value: &str) -> (result: Option<u64>)
    ensures
        match result {
            Some(n) => text::parsed_number(value@) == Some(n as nat),
            None => text::parsed_number(value@) is None,
        },
{
    let chars = text::chars_of(value);
    assert(chars@.subrange(0, chars@.len() as int) =~= value@);
    text::parse_number(&chars, 0, chars.len())
}

/// Reads a timestamp. One that does not fit in 64 bits is none.
pub fn parse_timestamp(value: &str) -> (result: Option<Seconds>)
    ensures
        match result {
            Some(point) => timestamp(value@) is Some && point == seconds::whole_point(
                timestamp(value@)->0,
            ) && seconds::stands_for(point, timestamp(value@)->0),
            None => timestamp(value@) is None,
        },
{
    let parts = scan::split(value, ':');
    let ghost pieces = text::views(parts@);
    assert(forall|i: int| 0 <= i < parts@.len() ==> #[trigger] pieces[i] == parts@[i]@);
    if parts.len() == 2 {
        assert(pieces[0] == parts@[0]@ && pieces[1] == parts@[1]@);
        match (read_number(parts[0].as_str()), read_number(parts[1].as_str())) {
            (Some(minutes), Some(seconds)) => {
                if seconds >= 60 {
                    return None;
                }
                let total: u128 = minutes as u128 * 60 + seconds as u128;
                if total > u64::MAX as u128 {
                    return None;
                }
                Some(Seconds::from_whole(total as u64))
            },
            _ => None,
        }
    } else if parts.len() == 3 {
        assert(pieces[0] == parts@[0]@ && pieces[1] == parts@[1]@ && pieces[2] == parts@[2]@);
        match (
            read_number(parts[0].as_str()),
            read_number(parts[1].as_str()),
            read_number(parts[2].as_str()),
        ) {
            (Some(hours), Some(minutes), Some(seconds)) => {
                if minutes >= 60 || seconds >= 60 {
                    return None;
                }
                let total: u128 = hours as u128 * 3600 + minutes as u128 * 60 + seconds as u128;
                if total > u64::MAX as u128 {
                    return None;
                }
                Some(Seconds::from_whole(total as u64))
            },
            _ => None,
        }
    } else {
        None
    }
}

/// What a line of a description says of the parts of a recording.
pub enum LineView {
    /// Nothing.
    Other,
    /// A part begins.
    Part(StartView),
    /// Something like a timestamp that cannot be one.
    Spoiled,
}

/// Reads a line: a timestamp, perhaps in brackets, whitespace, and a title.
pub open spec fn line_meaning(raw: Seq<char>) -> LineView {
    let line = text::trimmed(raw);
    let at = scan::first_space(line);
    if at >= line.len() {
        LineView::Other
    } else {
        let stamp = text::trimmed_of(line.take(at), Edge::Bracket);
        let title = text::trimmed(line.skip(at + 1));
        match timestamp(stamp) {
            Some(n) => if title.len() == 0 {
                LineView::Spoiled
            } else {
                LineView::Part(
                    StartView { title, start: seconds::whole_point(n), declared_end: None },
                )
            },
            None => if stamp.contains(':') && scan::holds_digit(stamp) {
                LineView::Spoiled
            } else {
                LineView::Other
            },
        }
    }
}

/// The parts that begin in a list of lines; none at all where one line is spoiled.
pub open spec fn stamped_starts(lines: Seq<Seq<char>>) -> Option<Seq<StartView>>
    decreases lines.len(),
{
    if lines.len() == 0 {
        Some(Seq::empty())
    } else {
        match stamped_starts(lines.drop_last()) {
            None => None,
            Some(before) => match line_meaning(lines.last()) {
                LineView::Other => Some(before),
                LineView::Part(start) => Some(before.push(start)),
                LineView::Spoiled => None,
            },
        }
    }
}

/// The parts that a description lists by timestamps, the first of them at zero.
pub open spec fn timestamp_parts(description: Seq<char>, duration: Seconds) -> Option<
    Seq<ChapterView>,
> {
    match stamped_starts(scan::pieces(description, '\n')) {
        Some(starts) => if starts.len() > 0 && starts[0].start.units() == 0 {
            segments(starts, duration, false)
        } else {
            None
        },
        None => None,
    }
}

/// What [`read_line`] finds.
enum Line {
    Other,
    Part(Start),
    Spoiled,
}

fn read_line(raw: &str) -> (result: Line)
    ensures
        match result {
            Line::Other => line_meaning(raw@) is Other,
            Line::Part(start) => line_meaning(raw@) == LineView::Part(start@),
            Line::Spoiled => line_meaning(raw@) is Spoiled,
        },
{
    let line = text::trim(raw);
    let chars = text::chars_of(line);
    let at: usize = scan::find_space(&chars);
    if at >= chars.len() {
        return Line::Other;
    }
    let first = text::text_of(&chars, 0, at);
    let rest = text::text_of(&chars, at + 1, chars.len());
    assert(first@ =~= line@.take(at as int));
    assert(rest@ =~= line@.skip(at + 1));
    let stamp = text::trim_edges(first.as_str(), Edge::Bracket);
    let title = text::trim(rest.as_str());
    match parse_timestamp(stamp) {
        Some(start) => {
            if title.is_empty() {
                Line::Spoiled
            } else {
                Line::Part(Start { title: title.to_owned(), start, declared_end: None })
            }
        },
        None => {
            let marks = text::chars_of(stamp);
            if scan::holds_char(&marks, ':') && scan::any_digit(&marks) {
                Line::Spoiled
            } else {
                Line::Other
            }
        },
    }
}

/// Reads the timestamp index of a description.
pub fn timestamp_chapters(description: &str, duration: Seconds) -> (result: Option<Vec<Chapter>>)
    ensures
        match result {
            Some(parts) => timestamp_parts(description@, duration) == Some(text::views(parts@)),
            None => timestamp_parts(description@, duration) is None,
        },
{
    let lines = scan::split(description, '\n');
    let ghost all = text::views(lines@);
    let mut starts: Vec<Start> = Vec::new();
    let mut i: usize = 0;
    assert(text::views(starts@) =~= Seq::<StartView>::empty());
    while i < lines.len()
        invariant
            all == text::views(lines@),
            all == scan::pieces(description@, '\n'),
            i <= lines@.len(),
            stamped_starts(all.take(i as int)) == Some(text::views(starts@)),
        decreases lines@.len() - i,
    {
        let ghost before = starts@;
        proof {
            assert(all.take(i + 1).drop_last() =~= all.take(i as int));
            assert(all[i as int] == lines@[i as int]@);
        }
        match read_line(lines[i].as_str()) {
            Line::Other => {},
            Line::Part(start) => {
                starts.push(start);
                assert(text::views(starts@) =~= text::views(before).push(start@));
            },
            Line::Spoiled => {
                proof {
                    lemma_spoiled(all, i + 1);
                }
                return None;
            },
        }
        i += 1;
    }
    assert(all.take(all.len() as int) =~= all);
    if starts.len() == 0 {
        return None;
    }
    let first = starts[0].start;
    let zero = Seconds::zero();
    if first.before(zero) || zero.before(first) {
        return None;
    }
    build_segments(&starts, duration, false)
}

proof fn lemma_spoiled(lines: Seq<Seq<char>>, n: int)
    requires
        0 <= n <= lines.len(),
        stamped_starts(lines.take(n)) is None,
    ensures
        stamped_starts(lines) is None,
    decreases lines.len(),
{
    if n < lines.len() {
        assert(lines.drop_last().take(n) =~= lines.take(n));
        lemma_spoiled(lines.drop_last(), n);
    } else {
        assert(lines.take(n) =~= lines);
    }
}

/// The FNV-1a hash of a sequence of bytes.
pub open spec fn fnv(bytes: Seq<u8>) -> u64
    decreases bytes.len(),
{
    if bytes.len() == 0 {
        0xcbf29ce484222325
    } else {
        (fnv(bytes.drop_last()) ^ (bytes.last() as u64)).wrapping_mul(0x100000001b3)
    }
}

/// A hash of a text that is the same in every run: FNV-1a over its UTF-8 bytes.
pub fn stable_hash(value: &str) -> (result: u64)
    ensures
        result == fnv(encode_utf8(value@)),
{
    let bytes = value.as_bytes();
    let mut hash: u64 = 0xcbf29ce484222325;
    let mut i: usize = 0;
    while i < bytes.len()
        invariant
            i <= bytes@.len(),
            hash == fnv(bytes@.take(i as int)),
        decreases bytes@.len() - i,
    {
        assert(bytes@.take(i + 1).drop_last() =~= bytes@.take(i as int));
        hash = (hash ^ (bytes[i] as u64)).wrapping_mul(0x100000001b3);
        i += 1;
    }
    assert(bytes@.take(bytes@.len() as int) =~= bytes@);
    hash
}

/// The identifier of the part at `index`, counted from zero, that begins at `start`.
pub open spec fn chapter_id(video_id: Seq<char>, index: nat, start: Seconds) -> Seq<char> {
    text::bounded_text(video_id, 72) + "-"@ + text::zero_padded(
        text::numeral(fnv(encode_utf8(video_id)) as nat, 16),
        16,
    ) + "-chapter-"@ + text::zero_padded(text::decimal_text(index + 1), 3) + "-"@
        + text::zero_padded(text::decimal_text(start.milliseconds() as nat), 10)
}

/// The identifier of a part of a recording: the same each time that the recording is read.
pub fn chapter_source_id(video_id: &str, index: usize, start: Seconds) -> (result: String)
    requires
        index < MAX_COLLECTION_ITEMS,
        start.finite(),
        start.units() >= 0,
    ensures
        result@ == chapter_id(video_id@, index as nat, start),
{
    let mut id = text::bounded(video_id, 72);
    id.push_str("-");
    id.push_str(text::padded_hexadecimal(stable_hash(video_id), 16).as_str());
    id.push_str("-chapter-");
    id.push_str(text::padded_decimal(index as u64 + 1, 3).as_str());
    id.push_str("-");
    id.push_str(text::padded_decimal(start.millis(), 10).as_str());
    id
}

/// Whether `marker` stands at `at` with no letter or digit on either side.
pub open spec fn stands_alone_at(value: Seq<char>, marker: Seq<char>, at: int) -> bool {
    &&& text::occurs_at(value, marker, at)
    &&& at == 0 || !text::alphanumeric_char(value[at - 1])
    &&& at + marker.len() == value.len() || !text::alphanumeric_char(value[at + marker.len() as int])
}

/// Whether `marker` stands somewhere with no letter or digit on either side.
pub open spec fn stands_alone(value: Seq<char>, marker: Seq<char>) -> bool {
    exists|at: int| stands_alone_at(value, marker, at)
}

fn word_in(value: &Vec<char>, marker: &str) -> (result: bool)
    ensures
        result == stands_alone(value@, marker@),
{
    let sought = text::chars_of(marker);
    let length: usize = value.len();
    let mut at: usize = 0;
    loop
        invariant
            sought@ == marker@,
            length == value@.len(),
            at <= length,
            forall|k: int| 0 <= k < at ==> !stands_alone_at(value@, marker@, k),
        decreases length - at,
    {
        if text::matches_at(value, &sought, at) {
            let end: usize = at + sought.len();
            if (at == 0 || !value[at - 1].is_alphanumeric()) && (end == length
                || !value[end].is_alphanumeric()) {
                assert(stands_alone_at(value@, marker@, at as int));
                return true;
            }
        }
        if at == length {
            assert forall|k: int| !stands_alone_at(value@, marker@, k) by {
                if stands_alone_at(value@, marker@, k) {
                    assert(0 <= k <= at);
                }
            }
            return false;
        }
        at += 1;
    }
}

/// Whether a lowercase title holds one of the words by which whole albums are announced.
pub open spec fn lower_marked(lower: Seq<char>) -> bool {
    ||| stands_alone(lower, "album completo"@)
    ||| stands_alone(lower, "full album"@)
    ||| stands_alone(lower, "soundtrack"@)
    ||| stands_alone(lower, "compilation"@)
    ||| stands_alone(lower, "mixtape"@)
    ||| stands_alone(lower, "album"@)
    ||| stands_alone(lower, "ost"@)
    ||| stands_alone(lower, "lp"@)
    ||| stands_alone(lower, "ep"@)
}

/// Whether a title holds one of the words by which whole albums are announced.
pub open spec fn album_marked(title: Seq<char>) -> bool {
    lower_marked(text::lowercase_text(title))
}

/// Whether a title, given in lowercase, announces a whole album.
pub fn has_lower_marker(title: &str) -> (result: bool)
    ensures
        result == lower_marked(title@),
{
    let lower = text::chars_of(title);
    word_in(&lower, "album completo") || word_in(&lower, "full album") || word_in(
        &lower,
        "soundtrack",
    ) || word_in(&lower, "compilation") || word_in(&lower, "mixtape") || word_in(&lower, "album")
        || word_in(&lower, "ost") || word_in(&lower, "lp") || word_in(&lower, "ep")
}

/// Whether a title announces a whole album.
pub fn has_album_marker(title: &str) -> (result: bool)
    ensures
        result == album_marked(title@),
{
    has_lower_marker(title.to_lowercase().as_str())
}

/// `title` without the first `wrapper` in it and without what dashes and spaces that leaves at
/// its ends.
///
/// The wrapper is sought in the lowercase title and cut out at the same bytes of the title
/// itself. Where those bytes do not begin and end between characters of the title, it stays as it
/// is.
pub open spec fn unwrapped_by(title: Seq<char>, lower: Seq<char>, wrapper: Seq<char>) -> Seq<char> {
    match scan::first_occurrence(lower, wrapper, 0) {
        None => title,
        Some(at) => {
            let from = scan::byte_length(lower.take(at));
            match (
                scan::boundary(title, from),
                scan::boundary(title, from + scan::byte_length(wrapper)),
            ) {
                (Some(i), Some(j)) => text::trimmed_of(title.take(i) + title.skip(j), Edge::Dash),
                _ => title,
            }
        },
    }
}

/// `title` without the first `wrapper` in it, whatever the case of its letters.
pub open spec fn unwrapped(title: Seq<char>, wrapper: Seq<char>) -> Seq<char> {
    unwrapped_by(title, text::lowercase_text(title), wrapper)
}

/// Takes a wrapper out of a title, which is also given in lowercase.
pub fn unwrap_title(title: String, lowercase: &str, wrapper: &str) -> (result: String)
    ensures
        result@ == unwrapped_by(title@, lowercase@, wrapper@),
{
    let chars = text::chars_of(title.as_str());
    let lower = text::chars_of(lowercase);
    let part = text::chars_of(wrapper);
    match scan::find(&lower, &part) {
        None => title,
        Some(at) => {
            let from: u128 = scan::bytes_before(&lower, at);
            let length: u128 = scan::bytes_before(&part, part.len());
            assert(part@.take(part@.len() as int) =~= wrapper@);
            match (scan::boundary_at(&chars, from), scan::boundary_at(&chars, from + length)) {
                (Some(i), Some(j)) => {
                    let mut kept = text::text_of(&chars, 0, i);
                    kept.push_str(text::text_of(&chars, j, chars.len()).as_str());
                    assert(kept@ =~= title@.take(i as int) + title@.skip(j as int));
                    text::trim_edges(kept.as_str(), Edge::Dash).to_owned()
                },
                _ => title,
            }
        },
    }
}

fn without_wrapper(title: String, wrapper: &str) -> (result: String)
    ensures
        result@ == unwrapped(title@, wrapper@),
{
    let lower = title.as_str().to_lowercase();
    unwrap_title(title, lower.as_str(), wrapper)
}

/// The album title that a recording's title announces.
pub open spec fn album_title(title: Seq<char>) -> Seq<char> {
    let bare = unwrapped(
        unwrapped(
            unwrapped(unwrapped(text::trimmed(title), "[full album]"@), "(full album)"@),
            "[album completo]"@,
        ),
        "(album completo)"@,
    );
    text::bounded_text(
        if bare.len() == 0 {
            title
        } else {
            bare
        },
        512,
    )
}

/// Takes the announcement of a whole album out of a title.
pub fn normalize_album_title(title: &str) -> (result: String)
    ensures
        result@ == album_title(title@),
{
    let first = without_wrapper(text::trim(title).to_owned(), "[full album]");
    let second = without_wrapper(first, "(full album)");
    let third = without_wrapper(second, "[album completo]");
    let bare = without_wrapper(third, "(album completo)");
    if bare.as_str().is_empty() {
        assert(bare@.len() == 0);
        text::bounded(title, 512)
    } else {
        text::bounded(bare.as_str(), 512)
    }
}

/// A number below a thousand, filled up to three digits.
proof fn lemma_three_digits(n: nat)
    requires
        n < 1000,
    ensures
        text::zero_padded(text::decimal_text(n), 3) == seq![
            text::digit_char(n as int / 100),
            text::digit_char(n as int / 10 % 10),
            text::digit_char(n as int % 10),
        ],
{
    reveal_with_fuel(text::numeral, 3);
    assert(text::zero_padded(text::decimal_text(n), 3) =~= seq![
        text::digit_char(n as int / 100),
        text::digit_char(n as int / 10 % 10),
        text::digit_char(n as int % 10),
    ]);
}

/// Two parts of a recording have different identifiers, wherever they begin.
pub proof fn lemma_ids_differ(video_id: Seq<char>, i: nat, j: nat, first: Seconds, second: Seconds)
    requires
        i < MAX_COLLECTION_ITEMS,
        j < MAX_COLLECTION_ITEMS,
        i != j,
    ensures
        chapter_id(video_id, i, first) != chapter_id(video_id, j, second),
{
    let before = text::bounded_text(video_id, 72) + "-"@ + text::zero_padded(
        text::numeral(fnv(encode_utf8(video_id)) as nat, 16),
        16,
    ) + "-chapter-"@;
    let at = before.len() as int;
    lemma_three_digits(i + 1);
    lemma_three_digits(j + 1);
    let a = text::zero_padded(text::decimal_text(i + 1), 3);
    let b = text::zero_padded(text::decimal_text(j + 1), 3);
    assert(chapter_id(video_id, i, first).subrange(at, at + 3) =~= a);
    assert(chapter_id(video_id, j, second).subrange(at, at + 3) =~= b);
    if a == b {
        assert(a[0] == b[0] && a[1] == b[1] && a[2] == b[2]);
        let (m, n) = ((i + 1) as int, (j + 1) as int);
        assert(text::digit_char(m / 100) as int == 48 + m / 100);
        assert(text::digit_char(n / 100) as int == 48 + n / 100);
        assert(text::digit_char(m / 10 % 10) as int == 48 + m / 10 % 10);
        assert(text::digit_char(n / 10 % 10) as int == 48 + n / 10 % 10);
        assert(text::digit_char(m % 10) as int == 48 + m % 10);
        assert(text::digit_char(n % 10) as int == 48 + n % 10);
    }
}

/// Where one entry of a chapter list ends: where it says so, and else where the next one begins or
/// the recording ends.
pub open spec fn entry_end(list: Seq<JsonTree>, k: int, duration: Seconds) -> Seconds {
    match list[k].number("end_time"@) {
        Some(end) => end,
        None => if k + 1 < list.len() {
            list[k + 1].number("start_time"@)->0
        } else {
            duration
        },
    }
}

/// Whether an entry of a chapter list has a title and begins inside the recording and after the
/// entry before it, and ends after it begins, no later than the next one begins or the recording
/// ends.
pub open spec fn entry_in_place(list: Seq<JsonTree>, k: int, duration: Seconds) -> bool {
    &&& list[k].text("title"@) is Some
    &&& text::trimmed(list[k].text("title"@)->0).len() > 0
    &&& list[k].number("start_time"@) is Some
    &&& 0 <= list[k].number("start_time"@)->0.units() < duration.units()
    &&& k > 0 ==> list[k - 1].number("start_time"@)->0.units() < list[k].number(
        "start_time"@,
    )->0.units()
    &&& list[k].number("start_time"@)->0.units() < entry_end(list, k, duration).units()
    &&& entry_end(list, k, duration).units() <= duration.units()
    &&& k + 1 < list.len() ==> entry_end(list, k, duration).units() <= list[k + 1].number(
        "start_time"@,
    )->0.units()
}

proof fn lemma_numbers_finite(tree: JsonTree, key: Seq<char>)
    ensures
        tree.number(key) is Some ==> tree.number(key)->0.finite(),
{
}

/// A chapter list of two to five hundred entries, each of them in its place, is cut as it says: the
/// k-th part bears the title of the k-th entry without the whitespace around it, and runs from its
/// beginning to its end. Any other list is not cut.
pub proof fn lemma_chapter_list_cut(list: Seq<JsonTree>, duration: Seconds)
    requires
        duration.finite(),
    ensures
        structured_parts(list, duration) is Some <==> 2 <= list.len() <= 500 && forall|k: int|
            0 <= k < list.len() ==> #[trigger] entry_in_place(list, k, duration),
        structured_parts(list, duration) is Some ==> structured_parts(list, duration)->0.len()
            == list.len() && forall|k: int|
            0 <= k < list.len() ==> {
                let part = #[trigger] structured_parts(list, duration)->0[k];
                &&& part.title == text::trimmed(list[k].text("title"@)->0)
                &&& part.start == list[k].number("start_time"@)->0
                &&& part.end == entry_end(list, k, duration)
            },
{
    let starts = Seq::new(list.len(), |i: int| structured_start(list[i], duration)->0);
    let readable = forall|i: int|
        0 <= i < list.len() ==> structured_start(#[trigger] list[i], duration) is Some;
    if readable {
        assert forall|k: int| 0 <= k < list.len() implies (#[trigger] starts[k]).title
            == text::trimmed(list[k].text("title"@)->0) && starts[k].start == list[k].number(
            "start_time"@,
        )->0 && starts[k].declared_end == list[k].number("end_time"@) by {
            assert(structured_start(list[k], duration) is Some);
        }
        assert forall|k: int| 0 <= k < list.len() implies #[trigger] fits(starts, k, duration, true)
            == entry_in_place(list, k, duration) by {
            assert(structured_start(list[k], duration) is Some);
            assert(starts[k].start == list[k].number("start_time"@)->0);
            lemma_numbers_finite(list[k], "start_time"@);
            lemma_numbers_finite(list[k], "end_time"@);
            if k + 1 < list.len() {
                assert(structured_start(list[k + 1], duration) is Some);
                assert(starts[k + 1].start == list[k + 1].number("start_time"@)->0);
                lemma_numbers_finite(list[k + 1], "start_time"@);
            }
            if k > 0 {
                assert(starts[k - 1].start == list[k - 1].number("start_time"@)->0);
            }
            assert(end_of(starts, k, duration) == entry_end(list, k, duration));
        }
    }
    if 2 <= list.len() <= 500 && forall|k: int|
        0 <= k < list.len() ==> #[trigger] entry_in_place(list, k, duration) {
        assert forall|i: int| 0 <= i < list.len() implies structured_start(
            #[trigger] list[i],
            duration,
        ) is Some by {
            assert(entry_in_place(list, i, duration));
        }
        assert forall|i: int| 0 <= i < starts.len() implies #[trigger] fits(
            starts,
            i,
            duration,
            true,
        ) by {
            assert(entry_in_place(list, i, duration));
        }
    }
    if structured_parts(list, duration) is Some {
        assert forall|k: int| 0 <= k < list.len() implies #[trigger] entry_in_place(
            list,
            k,
            duration,
        ) by {
            assert(fits(starts, k, duration, true));
        }
    }
}

/// Whether a line names a part that begins `n` seconds into a recording: a timestamp, perhaps in
/// brackets, then whitespace, then a title.
pub open spec fn line_names(raw: Seq<char>, n: nat, title: Seq<char>) -> bool {
    exists|stamp: Seq<char>, gap: char, rest: Seq<char>|
        {
            &&& text::trimmed(raw) == #[trigger] (stamp + seq![gap] + rest)
            &&& text::whitespace_char(gap)
            &&& forall|i: int| 0 <= i < stamp.len() ==> !text::whitespace_char(#[trigger] stamp[i])
            &&& timestamp(text::trimmed_of(stamp, Edge::Bracket)) == Some(n)
            &&& title == text::trimmed(rest)
            &&& title.len() > 0
        }
}

proof fn lemma_line_names(raw: Seq<char>)
    ensures
        line_meaning(raw) matches LineView::Part(start) ==> start.declared_end is None && exists|
            n: nat,
        |
            #[trigger] line_names(raw, n, start.title) && start.start == seconds::whole_point(n),
{
    if let LineView::Part(start) = line_meaning(raw) {
        let line = text::trimmed(raw);
        let at = scan::first_space(line);
        scan::lemma_first_space(line);
        let stamp = line.take(at);
        let rest = line.skip(at + 1);
        assert(line =~= stamp + seq![line[at]] + rest);
        assert forall|i: int| 0 <= i < stamp.len() implies !text::whitespace_char(
            #[trigger] stamp[i],
        ) by {
            assert(stamp[i] == line[i]);
        }
        let n = timestamp(text::trimmed_of(stamp, Edge::Bracket))->0;
        assert(text::trimmed(raw) == (stamp + seq![line[at]] + rest));
        assert(line_names(raw, n, start.title));
    }
}

/// The lines of an index that name its parts, in their order: each of them a place among the lines,
/// and no line between them names a part.
pub open spec fn index_places(lines: Seq<Seq<char>>, places: Seq<int>) -> bool {
    &&& forall|k: int| 0 <= k < places.len() ==> 0 <= #[trigger] places[k] < lines.len()
    &&& forall|j: int, k: int|
        0 <= j < k < places.len() ==> #[trigger] places[j] < #[trigger] places[k]
    &&& forall|i: int|
        0 <= i < lines.len() && !places.contains(i) ==> forall|n: nat, title: Seq<char>|
            !#[trigger] line_names(#[trigger] lines[i], n, title)
}

proof fn lemma_named_is_part(raw: Seq<char>, n: nat, title: Seq<char>)
    requires
        line_names(raw, n, title),
    ensures
        line_meaning(raw) is Part,
{
    let line = text::trimmed(raw);
    let (stamp, gap, rest) = choose|stamp: Seq<char>, gap: char, rest: Seq<char>|
        {
            &&& text::trimmed(raw) == #[trigger] (stamp + seq![gap] + rest)
            &&& text::whitespace_char(gap)
            &&& forall|i: int| 0 <= i < stamp.len() ==> !text::whitespace_char(#[trigger] stamp[i])
            &&& timestamp(text::trimmed_of(stamp, Edge::Bracket)) == Some(n)
            &&& title == text::trimmed(rest)
            &&& title.len() > 0
        };
    scan::lemma_first_space(line);
    let at = scan::first_space(line);
    assert(line[stamp.len() as int] == gap);
    assert(at == stamp.len()) by {
        if at < stamp.len() {
            assert(line[at] == stamp[at]);
        }
        if at > stamp.len() {
            assert(!text::whitespace_char(line[stamp.len() as int]));
        }
    }
    assert(line.take(at) =~= stamp);
    assert(line.skip(at + 1) =~= rest);
}

proof fn lemma_stamped(lines: Seq<Seq<char>>) -> (places: Seq<int>)
    requires
        stamped_starts(lines) is Some,
    ensures
        index_places(lines, places),
        places.len() == stamped_starts(lines)->0.len(),
        forall|k: int|
            0 <= k < places.len() ==> line_meaning(lines[#[trigger] places[k]]) == LineView::Part(
                stamped_starts(lines)->0[k],
            ),
    decreases lines.len(),
{
    if lines.len() == 0 {
        Seq::empty()
    } else {
        let rest = lines.drop_last();
        let before = lemma_stamped(rest);
        let last = lines.len() - 1;
        let places = match line_meaning(lines.last()) {
            LineView::Part(_) => before.push(last),
            _ => before,
        };
        assert forall|i: int| 0 <= i < lines.len() && !places.contains(i) implies forall|
            n: nat,
            title: Seq<char>,
        |
            !#[trigger] line_names(#[trigger] lines[i], n, title) by {
            if i < last {
                assert(!before.contains(i)) by {
                    if before.contains(i) {
                        let k = choose|k: int| 0 <= k < before.len() && before[k] == i;
                        assert(places[k] == i);
                    }
                }
                assert(rest[i] == lines[i]);
            } else {
                if line_meaning(lines.last()) is Part {
                    assert(places[before.len() as int] == last);
                }
                assert forall|n: nat, title: Seq<char>| !#[trigger] line_names(
                    lines[i],
                    n,
                    title,
                ) by {
                    if line_names(lines[i], n, title) {
                        lemma_named_is_part(lines[i], n, title);
                    }
                }
            }
        }
        assert forall|k: int| 0 <= k < places.len() implies line_meaning(
            lines[#[trigger] places[k]],
        ) == LineView::Part(stamped_starts(lines)->0[k]) by {
            if k < before.len() {
                assert(before[k] == places[k]);
                assert(rest[before[k]] == lines[places[k]]);
            }
        }
        places
    }
}

/// A description that is cut has an index: the k-th part bears the title of the k-th line that
/// names one, begins where that line says, and ends where the next part begins or the recording
/// ends.
pub proof fn lemma_index_cut(description: Seq<char>, duration: Seconds)
    requires
        timestamp_parts(description, duration) is Some,
    ensures
        exists|places: Seq<int>|
            {
                let lines = scan::pieces(description, '\n');
                let parts = timestamp_parts(description, duration)->0;
                &&& #[trigger] index_places(scan::pieces(description, '\n'), places)
                &&& parts.len() == places.len()
                &&& 2 <= parts.len() <= 500
                &&& forall|k: int|
                    0 <= k < parts.len() ==> {
                        let part = #[trigger] parts[k];
                        &&& exists|n: nat|
                            #[trigger] line_names(lines[places[k]], n, part.title) && part.start
                                == seconds::whole_point(n)
                        &&& part.end == if k + 1 < parts.len() {
                            parts[k + 1].start
                        } else {
                            duration
                        }
                    }
            },
{
    let lines = scan::pieces(description, '\n');
    let parts = timestamp_parts(description, duration)->0;
    let starts = stamped_starts(lines)->0;
    let places = lemma_stamped(lines);
    assert forall|k: int| 0 <= k < parts.len() implies {
        let part = #[trigger] parts[k];
        &&& exists|n: nat|
            #[trigger] line_names(lines[places[k]], n, part.title) && part.start
                == seconds::whole_point(n)
        &&& part.end == if k + 1 < parts.len() {
            parts[k + 1].start
        } else {
            duration
        }
    } by {
        assert(line_meaning(lines[places[k]]) == LineView::Part(starts[k]));
        lemma_line_names(lines[places[k]]);
        assert(fits(starts, k, duration, false));
        assert(parts[k].title == starts[k].title);
        assert(starts[k].declared_end is None);
        assert(parts[k].end == end_of(starts, k, duration));
        if k + 1 < parts.len() {
            assert(parts[k + 1].start == starts[k + 1].start);
        }
        let n = choose|n: nat|
            #[trigger] line_names(lines[places[k]], n, starts[k].title) && starts[k].start
                == seconds::whole_point(n);
        assert(line_names(lines[places[k]], n, parts[k].title));
    }
    assert(index_places(lines, places));
}

/// Minutes and seconds, or hours, minutes and seconds, stand for as many seconds as they are; what
/// follows a colon has to be below sixty.
pub proof fn lemma_timestamp_adds_up(a: Seq<char>, b: Seq<char>, c: Seq<char>, x: nat, y: nat, z: nat)
    requires
        text::parsed_number(a) == Some(x),
        text::parsed_number(b) == Some(y),
        text::parsed_number(c) == Some(z),
    ensures
        timestamp(a + seq![':'] + b) == if y < 60 && 60 * x + y <= u64::MAX {
            Some(60 * x + y)
        } else {
            None
        },
        timestamp(a + seq![':'] + b + seq![':'] + c) == if y < 60 && z < 60 && 3600 * x + 60 * y + z
            <= u64::MAX {
            Some(3600 * x + 60 * y + z)
        } else {
            None
        },
        timestamp(a) is None,
{
    lemma_number_plain(a);
    lemma_number_plain(b);
    lemma_number_plain(c);
    scan::lemma_first_piece(a, b, ':');
    scan::lemma_first_piece(b, Seq::empty(), ':');
    scan::lemma_first_piece(c, Seq::empty(), ':');
    scan::lemma_first_piece(b, c, ':');
    scan::lemma_first_piece(a, b + seq![':'] + c, ':');
    assert(a + seq![':'] + b + seq![':'] + c =~= a + seq![':'] + (b + seq![':'] + c));
    assert(scan::pieces(a + seq![':'] + b, ':') =~= seq![a, b]);
    assert(scan::pieces(a + seq![':'] + b + seq![':'] + c, ':') =~= seq![a, b, c]);
}

proof fn lemma_number_plain(a: Seq<char>)
    requires
        text::parsed_number(a) is Some,
    ensures
        !a.contains(':'),
{
    if a.contains(':') {
        let i = choose|i: int| 0 <= i < a.len() && a[i] == ':';
        text::lemma_only_numbers_read(a, i);
    }
}

/// A title announces an album exactly where one of nine words stands in it by itself, whatever the
/// case of its letters.
pub proof fn lemma_announced_by_words(title: Seq<char>)
    ensures
        album_marked(title) <==> exists|word: Seq<char>, at: int|
            {
                let lower = text::lowercase_text(title);
                &&& word == "album completo"@ || word == "full album"@ || word == "soundtrack"@
                    || word == "compilation"@ || word == "mixtape"@ || word == "album"@ || word
                    == "ost"@ || word == "lp"@ || word == "ep"@
                &&& #[trigger] text::occurs_at(text::lowercase_text(title), word, at)
                &&& at > 0 ==> !text::alphanumeric_char(lower[at - 1])
                &&& at + word.len() < lower.len() ==> !text::alphanumeric_char(
                    lower[at + word.len() as int],
                )
            },
{
    let lower = text::lowercase_text(title);
    assert forall|word: Seq<char>, at: int|
        #[trigger] text::occurs_at(lower, word, at) && (at > 0 ==> !text::alphanumeric_char(
            lower[at - 1],
        )) && (at + word.len() < lower.len() ==> !text::alphanumeric_char(
            lower[at + word.len() as int],
        )) implies stands_alone(lower, word) by {
        assert(stands_alone_at(lower, word, at));
    }
    assert forall|word: Seq<char>| #[trigger] stands_alone(lower, word) implies exists|at: int|
        #[trigger] text::occurs_at(lower, word, at) && (at > 0 ==> !text::alphanumeric_char(
            lower[at - 1],
        )) && (at + word.len() < lower.len() ==> !text::alphanumeric_char(
            lower[at + word.len() as int],
        )) by {
        let at = choose|at: int| stands_alone_at(lower, word, at);
        assert(text::occurs_at(lower, word, at));
    }
}

/// The hash of a part's recording begins with the offset of FNV-1a and takes in each byte by an
/// exclusive or and a multiplication by its prime.
pub proof fn lemma_hash_steps(bytes: Seq<u8>, byte: u8)
    ensures
        fnv(Seq::empty()) == 14695981039346656037,
        fnv(bytes.push(byte)) == ((fnv(bytes) ^ (byte as u64)) as int * 1099511628211) % (u64::MAX
            as int + 1),
{
    assert(bytes.push(byte).drop_last() =~= bytes);
    let mixed = fnv(bytes) ^ (byte as u64);
    assert(fnv(bytes.push(byte)) == mixed.wrapping_mul(0x100000001b3));
}

/// The identifier of a part is made of the beginning of its recording's, of the hash of the whole of
/// it, of its place counted from one and of the millisecond at which it begins.
pub proof fn lemma_chapter_id(video_id: Seq<char>, index: nat, start: Seconds)
    requires
        video_id.len() <= 72,
        index < MAX_COLLECTION_ITEMS,
    ensures
        ({
            let id = chapter_id(video_id, index, start);
            let hash = text::zero_padded(text::numeral(fnv(encode_utf8(video_id)) as nat, 16), 16);
            let place = text::zero_padded(text::decimal_text(index + 1), 3);
            let millis = text::zero_padded(text::decimal_text(start.milliseconds() as nat), 10);
            &&& id == video_id + "-"@ + hash + "-chapter-"@ + place + "-"@ + millis
            &&& text::digits_value(place) == index + 1
            &&& place.len() == 3
            &&& text::digits_value(millis) == start.milliseconds()
        }),
{
    text::lemma_decimal_round_trip(index + 1);
    text::lemma_decimal_round_trip(start.milliseconds() as nat);
    text::lemma_zero_padded(text::decimal_text(index + 1), 3);
    text::lemma_zero_padded(text::decimal_text(start.milliseconds() as nat), 10);
    lemma_three_digits(index + 1);
}

/// The first place at which a wrapper stands in a title, in any case of its letters, is cut out of it,
/// and the dashes and spaces go that are left at the ends; a title without it stays as it is.
pub proof fn lemma_wrapper_cut(title: Seq<char>, wrapper: Seq<char>, at: int)
    requires
        text::ascii_text(title),
        text::ascii_text(wrapper),
    ensures
        !text::occurs_in(text::ascii_lower_text(title), wrapper) ==> unwrapped(title, wrapper)
            == title,
        text::occurs_at(text::ascii_lower_text(title), wrapper, at) && (forall|k: int|
            0 <= k < at ==> !text::occurs_at(text::ascii_lower_text(title), wrapper, k))
            ==> unwrapped(title, wrapper) == text::trimmed_of(
            title.take(at) + title.skip(at + wrapper.len()),
            Edge::Dash,
        ),
{
    let lower = text::ascii_lower_text(title);
    scan::lemma_first_occurrence(lower, wrapper, 0);
    if text::occurs_at(lower, wrapper, at) && (forall|k: int|
        0 <= k < at ==> !text::occurs_at(lower, wrapper, k)) {
        assert(scan::first_occurrence(lower, wrapper, 0) == Some(at)) by {
            let found = scan::first_occurrence(lower, wrapper, 0)->0;
            if found < at {
                assert(!text::occurs_at(lower, wrapper, found));
            }
        }
        let before = lower.take(at);
        assert forall|i: int| 0 <= i < before.len() implies text::ascii_char(
            #[trigger] before[i],
        ) by {
            assert(text::ascii_char(title[i]));
            text::lemma_ascii_lower(title[i]);
            assert(before[i] == text::ascii_lower(title[i]));
        }
        scan::lemma_ascii_bytes(before, 0);
        scan::lemma_ascii_bytes(wrapper, 0);
        scan::lemma_ascii_bytes(title, at as nat);
        scan::lemma_ascii_bytes(title, (at + wrapper.len()) as nat);
    }
}

/// Whether a text is one of the four by which titles say that a recording is a whole album.
pub open spec fn album_wrapper(wrapper: Seq<char>) -> bool {
    wrapper == "[full album]"@ || wrapper == "(full album)"@ || wrapper == "[album completo]"@
        || wrapper == "(album completo)"@
}

/// The album of a recording bears its title without the words that say that it is a whole album, and
/// at most 512 characters of it.
pub proof fn lemma_album_title(title: Seq<char>, wrapper: Seq<char>)
    requires
        text::trimmed(title).len() > 0,
        album_wrapper(wrapper),
    ensures
        ({
            let bare = text::trimmed(title);
            let cut = unwrapped(bare, wrapper);
            &&& (forall|other: Seq<char>| #[trigger]
                album_wrapper(other) ==> unwrapped(bare, other) == bare) ==> album_title(title)
                == text::bounded_text(bare, 512)
            &&& (forall|other: Seq<char>| #[trigger]
                album_wrapper(other) && other != wrapper ==> unwrapped(bare, other) == bare) && (
            forall|other: Seq<char>| #[trigger]
                album_wrapper(other) && other != wrapper ==> unwrapped(cut, other) == cut)
                && cut.len() > 0 ==> album_title(title) == text::bounded_text(cut, 512)
        }),
{
    reveal_strlit("[full album]");
    reveal_strlit("(full album)");
    reveal_strlit("[album completo]");
    reveal_strlit("(album completo)");
    let (a, b, c, d) = (
        "[full album]"@,
        "(full album)"@,
        "[album completo]"@,
        "(album completo)"@,
    );
    assert(a[0] == '[' && b[0] == '(' && c[0] == '[' && d[0] == '(');
    assert(a.len() != c.len() && b.len() != d.len());
    assert(album_wrapper(a) && album_wrapper(b) && album_wrapper(c) && album_wrapper(d));
}

/// Whether a line begins with something like a timestamp, with a colon and a digit in it, that is
/// none, and goes on behind it.
pub open spec fn misleading(raw: Seq<char>) -> bool {
    let line = text::trimmed(raw);
    let stamp = text::trimmed_of(line.take(scan::first_space(line)), Edge::Bracket);
    &&& scan::first_space(line) < line.len()
    &&& timestamp(stamp) is None
    &&& stamp.contains(':')
    &&& exists|i: int| 0 <= i < stamp.len() && '0' <= #[trigger] stamp[i] && stamp[i] <= '9'
}

/// Whether points in time, in seconds, begin at zero and follow one another up to the end of a
/// recording, two at least and five hundred at most.
pub open spec fn in_order(points: Seq<nat>, duration: Seconds) -> bool {
    &&& 2 <= points.len() <= 500
    &&& duration.finite()
    &&& seconds::whole_point(points[0]).units() == 0
    &&& forall|k: int| 0 <= k < points.len() ==> seconds::whole_point(#[trigger] points[k]).finite()
    &&& forall|k: int|
        0 <= k < points.len() - 1 ==> seconds::whole_point(#[trigger] points[k]).units()
            < seconds::whole_point(points[k + 1]).units()
    &&& seconds::whole_point(points.last()).units() < duration.units()
}

/// A misleading line spoils the whole index. Without one a description is cut exactly where the lines
/// that name parts name them from zero on, in order and within the recording.
pub proof fn lemma_index_used(description: Seq<char>, duration: Seconds)
    ensures
        ({
            let lines = scan::pieces(description, '\n');
            let spoiled = exists|i: int| 0 <= i < lines.len() && misleading(#[trigger] lines[i]);
            &&& spoiled ==> timestamp_parts(description, duration) is None
            &&& !spoiled ==> exists|places: Seq<int>, points: Seq<nat>|
                {
                    &&& #[trigger] index_places(lines, places)
                    &&& #[trigger] named_points(lines, places, points)
                    &&& timestamp_parts(description, duration) is Some <==> in_order(
                        points,
                        duration,
                    )
                }
        }),
{
    let lines = scan::pieces(description, '\n');
    assert forall|i: int| 0 <= i < lines.len() implies (misleading(#[trigger] lines[i])
        <==> line_meaning(lines[i]) is Spoiled) by {
        lemma_misleading(lines[i]);
    }
    lemma_spoiled_somewhere(lines);
    if forall|i: int| 0 <= i < lines.len() ==> !misleading(#[trigger] lines[i]) {
        let places = lemma_stamped(lines);
        let starts = stamped_starts(lines)->0;
        let points = Seq::new(
            places.len(),
            |k: int|
                choose|n: nat|
                    #[trigger] line_names(lines[places[k]], n, starts[k].title) && starts[k].start
                        == seconds::whole_point(n),
        );
        assert forall|k: int| 0 <= k < starts.len() implies (#[trigger] starts[k]).declared_end
            is None && line_names(lines[places[k]], points[k], starts[k].title) && starts[k].start
            == seconds::whole_point(points[k]) by {
            assert(line_meaning(lines[places[k]]) == LineView::Part(starts[k]));
            lemma_line_names(lines[places[k]]);
            let n = choose|n: nat|
                #[trigger] line_names(lines[places[k]], n, starts[k].title) && starts[k].start
                    == seconds::whole_point(n);
            assert(points[k] == n);
        }
        assert forall|k: int| 0 <= k < places.len() implies names_point(
            lines[places[k]],
            #[trigger] points[k],
        ) by {
            assert(starts[k].declared_end is None);
            assert(line_names(lines[places[k]], points[k], starts[k].title));
        }
        assert(named_points(lines, places, points));
        lemma_fit_in_order(starts, points, duration);
        assert(index_places(lines, places));
    }
}

/// Whether the points in time are those that the lines at the places name.
pub open spec fn named_points(lines: Seq<Seq<char>>, places: Seq<int>, points: Seq<nat>) -> bool {
    &&& points.len() == places.len()
    &&& forall|k: int|
        0 <= k < places.len() ==> names_point(lines[places[k]], #[trigger] points[k])
}

/// Whether a line names a part, whatever its title, that begins `n` seconds into a recording.
pub open spec fn names_point(raw: Seq<char>, n: nat) -> bool {
    exists|title: Seq<char>| line_names(raw, n, title)
}

proof fn lemma_misleading(raw: Seq<char>)
    ensures
        misleading(raw) <==> line_meaning(raw) is Spoiled,
{
    let line = text::trimmed(raw);
    let at = scan::first_space(line);
    scan::lemma_first_space(line);
    let stamp = text::trimmed_of(line.take(at), Edge::Bracket);
    assert forall|i: int| 0 <= i < stamp.len() implies (text::ascii_digit(#[trigger] stamp[i]) <==> (
    '0' <= stamp[i] && stamp[i] <= '9')) by {}
    if at < line.len() {
        lemma_more_behind(raw, at);
    }
}

proof fn lemma_more_behind(raw: Seq<char>, at: int)
    requires
        0 <= at < text::trimmed(raw).len(),
        text::whitespace_char(text::trimmed(raw)[at]),
    ensures
        text::trimmed(text::trimmed(raw).skip(at + 1)).len() > 0,
{
    let line = text::trimmed(raw);
    text::lemma_trimmed_to_core(raw, Edge::Space);
    let rest = line.skip(at + 1);
    text::lemma_trimmed_to_core(rest, Edge::Space);
    assert(at < line.len() - 1);
    assert(rest.last() == line.last());
    if text::trimmed(rest).len() == 0 {
        let (from, to) = choose|from: int, to: int|
            0 <= from <= to <= rest.len() && text::trimmed(rest) == #[trigger] rest.subrange(
                from,
                to,
            ) && (forall|i: int|
                0 <= i < from || to <= i < rest.len() ==> text::edge_char(
                    Edge::Space,
                    #[trigger] rest[i],
                ));
        assert(text::edge_char(Edge::Space, rest[rest.len() - 1]));
    }
}

proof fn lemma_spoiled_somewhere(lines: Seq<Seq<char>>)
    ensures
        (exists|i: int| 0 <= i < lines.len() && line_meaning(#[trigger] lines[i]) is Spoiled)
            <==> stamped_starts(lines) is None,
    decreases lines.len(),
{
    if lines.len() > 0 {
        let rest = lines.drop_last();
        lemma_spoiled_somewhere(rest);
        assert(lines.last() == lines[lines.len() - 1]);
        if stamped_starts(rest) is None {
            let i = choose|i: int|
                0 <= i < rest.len() && line_meaning(#[trigger] rest[i]) is Spoiled;
            assert(lines[i] == rest[i]);
        } else {
            assert forall|i: int| 0 <= i < lines.len() - 1 implies !(line_meaning(
                #[trigger] lines[i],
            ) is Spoiled) by {
                assert(rest[i] == lines[i]);
            }
        }
    }
}

proof fn lemma_fit_in_order(starts: Seq<StartView>, points: Seq<nat>, duration: Seconds)
    requires
        starts.len() == points.len(),
        forall|k: int|
            0 <= k < starts.len() ==> (#[trigger] starts[k]).declared_end is None && starts[k].start
                == seconds::whole_point(points[k]),
    ensures
        starts.len() > 0 && starts[0].start.units() == 0 && segments(starts, duration, false)
            is Some <==> in_order(points, duration),
{
    if in_order(points, duration) {
        let last = points.len() - 1;
        assert forall|k: int| 0 <= k < points.len() implies 0 <= seconds::whole_point(
            #[trigger] points[k],
        ).units() < duration.units() by {
            lemma_between(points, k, duration);
        }
        assert forall|k: int| 0 <= k < starts.len() implies #[trigger] fits(
            starts,
            k,
            duration,
            false,
        ) by {
            assert(starts[k].start == seconds::whole_point(points[k]));
            if k > 0 {
                assert(starts[k - 1].start == seconds::whole_point(points[k - 1]));
                assert(seconds::whole_point(points[k - 1]).units() < seconds::whole_point(
                    points[k - 1 + 1],
                ).units());
            }
            if k < last {
                assert(starts[k + 1].start == seconds::whole_point(points[k + 1]));
                assert(seconds::whole_point(points[k]).units() < seconds::whole_point(
                    points[k + 1],
                ).units());
            }
        }
    }
    if segments(starts, duration, false) is Some {
        assert forall|k: int| 0 <= k < points.len() - 1 implies seconds::whole_point(
            #[trigger] points[k],
        ).units() < seconds::whole_point(points[k + 1]).units() by {
            assert(fits(starts, k, duration, false));
            assert(starts[k + 1].start == seconds::whole_point(points[k + 1]));
        }
        assert forall|k: int| 0 <= k < points.len() implies seconds::whole_point(
            #[trigger] points[k],
        ).finite() by {
            assert(fits(starts, k, duration, false));
        }
        assert(fits(starts, starts.len() - 1, duration, false));
        assert(starts[starts.len() - 1].start == seconds::whole_point(points.last()));
    }
}

proof fn lemma_between(points: Seq<nat>, k: int, duration: Seconds)
    requires
        in_order(points, duration),
        0 <= k < points.len(),
    ensures
        0 <= seconds::whole_point(points[k]).units() < duration.units(),
{
    lemma_rising(points, 0, k, duration);
    lemma_rising(points, k, points.len() - 1, duration);
}

proof fn lemma_rising(points: Seq<nat>, j: int, k: int, duration: Seconds)
    requires
        in_order(points, duration),
        0 <= j <= k < points.len(),
    ensures
        seconds::whole_point(points[j]).units() <= seconds::whole_point(points[k]).units(),
    decreases k - j,
{
    if j < k {
        lemma_rising(points, j, k - 1, duration);
        assert(seconds::whole_point(points[k - 1]).units() < seconds::whole_point(
            points[k - 1 + 1],
        ).units());
    }
}

} // verus!
