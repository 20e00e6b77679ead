//! File paths, held as texts with `/` between their parts.

use vstd::prelude::*;

use crate::scan;
use crate::text;

verus! {

/// Whether a path starts at the root.
pub open spec fn absolute(path: Seq<char>) -> bool {
    path.len() > 0 && path[0] == '/'
}

/// The path of `leaf` seen from `base`: an absolute leaf stands for itself.
pub open spec fn joined(base: Seq<char>, leaf: Seq<char>) -> Seq<char> {
    if absolute(leaf) || base.len() == 0 {
        leaf
    } else if base.last() == '/' {
        base + leaf
    } else {
        base + "/"@ + leaf
    }
}

/// The path of `leaf` seen from `base`.
pub fn join(base: &str, leaf: &str) -> (result: String)
    ensures
        result@ == joined(base@, leaf@),
{
    let front = text::chars_of(base);
    let back = text::chars_of(leaf);
    if (back.len() > 0 && back[0] == '/') || front.len() == 0 {
        return leaf.to_owned();
    }
    let mut path = base.to_owned();
    if front[front.len() - 1] != '/' {
        path.push_str("/");
    }
    path.push_str(leaf);
    path
}

/// Whether a piece of a path is one of its parts: empty pieces and `.` are not.
pub open spec fn real_part(piece: Seq<char>) -> bool {
    piece.len() > 0 && piece != "."@
}

/// The parts of a path.
pub open spec fn parts(path: Seq<char>) -> Seq<Seq<char>> {
    scan::pieces(path, '/').filter(|piece: Seq<char>| real_part(piece))
}

/// The parts of a path.
pub fn parts_of(path: &str) -> (result: Vec<String>)
    ensures
        text::views(result@) == parts(path@),
{
    let pieces = scan::split(path, '/');
    let ghost all = text::views(pieces@);
    let ghost kept = |piece: Seq<char>| real_part(piece);
    let mut result: Vec<String> = Vec::new();
    let mut i: usize = 0;
    proof {
        reveal(Seq::filter);
        assert(text::views(result@) =~= all.take(0).filter(kept));
    }
    while i < pieces.len()
        invariant
            all == text::views(pieces@),
            kept == (|piece: Seq<char>| real_part(piece)),
            i <= pieces@.len(),
            text::views(result@) == all.take(i as int).filter(kept),
        decreases pieces@.len() - i,
    {
        let ghost before = result@;
        proof {
            reveal(Seq::filter);
            assert(all.take(i + 1).drop_last() =~= all.take(i as int));
            assert(all[i as int] == pieces@[i as int]@);
        }
        if !pieces[i].as_str().is_empty() && !text::same_text(pieces[i].as_str(), ".") {
            assert(real_part(pieces@[i as int]@));
            let part = pieces[i].clone();
            result.push(part);
            assert(text::views(result@) =~= text::views(before).push(part@));
        } else {
            assert(!real_part(pieces@[i as int]@));
        }
        i += 1;
    }
    assert(all.take(all.len() as int) =~= all);
    result
}

/// Whether `path` is `root` or lies below it.
pub open spec fn within(root: Seq<char>, path: Seq<char>) -> bool {
    &&& absolute(root) == absolute(path)
    &&& parts(root).len() <= parts(path).len()
    &&& parts(path).take(parts(root).len() as int) == parts(root)
}

/// Whether `path` is `root` or lies below it. A folder whose name only begins like that of `root`
/// is another one.
pub fn lies_within(root: &str, path: &str) -> (result: bool)
    ensures
        result == within(root@, path@),
{
    let from_root = text::has_prefix(root, "/");
    let from_path = text::has_prefix(path, "/");
    proof {
        reveal_strlit("/");
        lemma_absolute(root@);
        lemma_absolute(path@);
    }
    if from_root != from_path {
        return false;
    }
    let front = parts_of(root);
    let back = parts_of(path);
    if front.len() > back.len() {
        return false;
    }
    let mut i: usize = 0;
    while i < front.len()
        invariant
            text::views(front@) == parts(root@),
            text::views(back@) == parts(path@),
            front@.len() <= back@.len(),
            i <= front@.len(),
            forall|k: int| 0 <= k < i ==> #[trigger] front@[k]@ == back@[k]@,
        decreases front@.len() - i,
    {
        if !text::same_text(front[i].as_str(), back[i].as_str()) {
            proof {
                assert(parts(root@)[i as int] == front@[i as int]@);
                assert(parts(path@).take(parts(root@).len() as int)[i as int] == back@[i as int]@);
            }
            return false;
        }
        i += 1;
    }
    proof {
        assert forall|k: int| 0 <= k < front@.len() implies parts(path@)[k] == parts(root@)[k] by {
            assert(front@[k]@ == back@[k]@);
        }
        assert(parts(path@).take(parts(root@).len() as int) =~= parts(root@));
    }
    true
}

proof fn lemma_absolute(path: Seq<char>)
    ensures
        absolute(path) == text::begins_with(path, "/"@),
{
    reveal_strlit("/");
    if path.len() > 0 {
        if path[0] == '/' {
            assert(path.subrange(0, 1) =~= "/"@);
        } else {
            assert(path.subrange(0, 1)[0] != "/"@[0]);
        }
    }
}

/// The name of the file that a path leads to.
pub open spec fn file_name(path: Seq<char>) -> Option<Seq<char>> {
    if parts(path).len() == 0 || parts(path).last() == ".."@ {
        None
    } else {
        Some(parts(path).last())
    }
}

/// The last position at which `c` stands in `s`, or -1.
pub open spec fn last_position(s: Seq<char>, c: char) -> int
    decreases s.len(),
{
    if s.len() == 0 {
        -1
    } else if s.last() == c {
        s.len() - 1
    } else {
        last_position(s.drop_last(), c)
    }
}

/// What follows the last dot of a file's name, unless the name begins with it.
pub open spec fn extension(path: Seq<char>) -> Option<Seq<char>> {
    match file_name(path) {
        Some(name) => if last_position(name, '.') > 0 {
            Some(name.skip(last_position(name, '.') + 1))
        } else {
            None
        },
        None => None,
    }
}

/// The name of a file without its last dot and what follows.
pub open spec fn stem(path: Seq<char>) -> Option<Seq<char>> {
    match file_name(path) {
        Some(name) => if last_position(name, '.') > 0 {
            Some(name.take(last_position(name, '.')))
        } else {
            Some(name)
        },
        None => None,
    }
}

fn find_last(s: &Vec<char>, c: char) -> (result: Option<usize>)
    ensures
        match result {
            Some(at) => at == last_position(s@, c) && at < s@.len(),
            None => last_position(s@, c) == -1,
        },
{
    let mut i: usize = s.len();
    assert(s@.take(s@.len() as int) =~= s@);
    while i > 0
        invariant
            i <= s@.len(),
            last_position(s@, c) == last_position(s@.take(i as int), c),
        decreases i,
    {
        assert(s@.take(i as int).drop_last() =~= s@.take(i - 1));
        if s[i - 1] == c {
            return Some(i - 1);
        }
        i -= 1;
    }
    None
}

fn name_of(path: &str) -> (result: Option<String>)
    ensures
        text::shown(result) == file_name(path@),
{
    let found = parts_of(path);
    let count: usize = found.len();
    if count == 0 {
        return None;
    }
    assert(parts(path@).last() == found@[count - 1]@);
    if text::same_text(found[count - 1].as_str(), "..") {
        return None;
    }
    Some(found[count - 1].clone())
}

/// What follows the last dot of a file's name.
pub fn extension_of(path: &str) -> (result: Option<String>)
    ensures
        text::shown(result) == extension(path@),
{
    match name_of(path) {
        Some(name) => {
            let chars = text::chars_of(name.as_str());
            match find_last(&chars, '.') {
                Some(at) => {
                    if at == 0 {
                        return None;
                    }
                    let length: usize = chars.len();
                    let ending = text::text_of(&chars, at + 1, length);
                    assert(ending@ =~= chars@.skip(at + 1));
                    Some(ending)
                },
                None => None,
            }
        },
        None => None,
    }
}

/// The name of a file without its last dot and what follows.
pub fn stem_of(path: &str) -> (result: Option<String>)
    ensures
        text::shown(result) == stem(path@),
{
    match name_of(path) {
        Some(name) => {
            let chars = text::chars_of(name.as_str());
            match find_last(&chars, '.') {
                Some(at) => {
                    if at == 0 {
                        return Some(name);
                    }
                    let front = text::text_of(&chars, 0, at);
                    assert(front@ =~= chars@.take(at as int));
                    Some(front)
                },
                None => Some(name),
            }
        },
        None => None,
    }
}

/// A path up to the end of its last part: what follows of `/` and `.` leads nowhere else.
pub open spec fn without_tail(path: Seq<char>) -> Seq<char>
    decreases path.len(),
{
    if path.len() == 0 {
        path
    } else if path.last() == '/' || (path.last() == '.' && (path.len() == 1 || path[path.len() - 2]
        == '/')) {
        without_tail(path.drop_last())
    } else {
        path
    }
}

/// The path with another ending of the file's name; a path that leads to no file stays as it is.
pub open spec fn with_ending(path: Seq<char>, ending: Seq<char>) -> Seq<char> {
    let bare = without_tail(path);
    let from = last_position(bare, '/') + 1;
    let name = bare.skip(from);
    let dot = last_position(name, '.');
    if bare.len() == 0 || name == ".."@ {
        path
    } else if dot > 0 {
        bare.take(from + dot) + "."@ + ending
    } else {
        bare + "."@ + ending
    }
}

/// Gives the file's name another ending.
pub fn with_extension(path: &str, ending: &str) -> (result: String)
    ensures
        result@ == with_ending(path@, ending@),
{
    let chars = text::chars_of(path);
    let mut end: usize = chars.len();
    assert(chars@.take(end as int) =~= chars@);
    while end > 0 && (chars[end - 1] == '/' || (chars[end - 1] == '.' && (end == 1 || chars[end - 2]
        == '/')))
        invariant
            end <= chars@.len(),
            chars@ == path@,
            without_tail(path@) == without_tail(path@.take(end as int)),
        decreases end,
    {
        assert(path@.take(end as int).drop_last() =~= path@.take(end - 1));
        end -= 1;
    }
    let ghost bare = without_tail(path@);
    let front = text::text_of(&chars, 0, end);
    let bare_chars = text::chars_of(front.as_str());
    assert(bare_chars@ =~= bare);
    let from: usize = match find_last(&bare_chars, '/') {
        Some(at) => at + 1,
        None => 0,
    };
    let name = text::text_of(&bare_chars, from, end);
    let name_chars = text::chars_of(name.as_str());
    assert(name_chars@ =~= bare.skip(from as int));
    if end == 0 || text::same_text(name.as_str(), "..") {
        return path.to_owned();
    }
    let kept: usize = match find_last(&name_chars, '.') {
        Some(dot) => if dot > 0 {
            from + dot
        } else {
            end
        },
        None => end,
    };
    let mut result = text::text_of(&bare_chars, 0, kept);
    assert(result@ =~= bare.take(kept as int));
    assert(bare.take(bare.len() as int) =~= bare);
    result.push_str(".");
    result.push_str(ending);
    result
}

/// Whether a list of texts holds `value`.
pub fn lists(list: &Vec<String>, value: &str) -> (result: bool)
    ensures
        result == text::views(list@).contains(value@),
{
    let mut i: usize = 0;
    while i < list.len()
        invariant
            i <= list@.len(),
            forall|k: int| 0 <= k < i ==> (#[trigger] list@[k])@ != value@,
        decreases list@.len() - i,
    {
        if text::same_text(list[i].as_str(), value) {
            assert(text::views(list@)[i as int] == value@);
            return true;
        }
        i += 1;
    }
    assert forall|k: int| 0 <= k < list@.len() implies text::views(list@)[k] != value@ by {
        assert(list@[k]@ != value@);
    }
    false
}

/// Joining puts one separator between the two paths and changes neither; an absolute path stands for
/// itself, and so does any path that is joined to nothing.
pub proof fn lemma_joined(base: Seq<char>, leaf: Seq<char>)
    ensures
        leaf.len() > 0 && leaf[0] == '/' ==> joined(base, leaf) == leaf,
        base.len() == 0 ==> joined(base, leaf) == leaf,
        base.len() > 0 && base.last() != '/' && !(leaf.len() > 0 && leaf[0] == '/') ==> joined(
            base,
            leaf,
        ) == base + seq!['/'] + leaf,
        base.len() > 0 && base.last() == '/' && !(leaf.len() > 0 && leaf[0] == '/') ==> joined(
            base,
            leaf,
        ) == base + leaf,
{
    reveal_strlit("/");
    assert("/"@ =~= seq!['/']);
}

/// The parts of a path that goes on below another are those of the first, then those of what
/// follows.
pub proof fn lemma_parts_of_both(base: Seq<char>, leaf: Seq<char>)
    ensures
        parts(base + seq!['/'] + leaf) == parts(base) + parts(leaf),
{
    scan::lemma_pieces_of_both(base, leaf, '/');
    let pred = |piece: Seq<char>| real_part(piece);
    Seq::filter_distributes_over_add(scan::pieces(base, '/'), scan::pieces(leaf, '/'), pred);
}

/// What lies below a folder is within it, and what is within a folder begins with its parts: a
/// folder with a longer name beside it is another one.
pub proof fn lemma_within(root: Seq<char>, leaf: Seq<char>)
    requires
        root.len() > 0,
    ensures
        within(root, root),
        within(root, root + seq!['/'] + leaf),
{
    lemma_parts_of_both(root, leaf);
    assert(absolute(root) == absolute(root + seq!['/'] + leaf)) by {
        assert((root + seq!['/'] + leaf)[0] == root[0]);
    }
    assert((parts(root) + parts(leaf)).take(parts(root).len() as int) =~= parts(root));
    assert(parts(root).take(parts(root).len() as int) =~= parts(root));
}

/// The file that a path leads to is the one that its last part names.
pub proof fn lemma_file_name(folder: Seq<char>, name: Seq<char>)
    requires
        !name.contains('/'),
        name.len() > 0,
        name != "."@,
        name != ".."@,
    ensures
        file_name(name) == Some(name),
        file_name(folder + seq!['/'] + name) == Some(name),
{
    lemma_parts_of_both(folder, name);
    scan::lemma_first_piece(name, Seq::empty(), '/');
    reveal(Seq::filter);
    let pred = |piece: Seq<char>| real_part(piece);
    assert(seq![name].drop_last() =~= Seq::<Seq<char>>::empty());
    assert(seq![name].last() == name);
    assert(seq![name].filter(pred) =~= seq![name]);
    assert(parts(name) == seq![name]);
}

proof fn lemma_last_position_is(s: Seq<char>, c: char, at: int)
    requires
        0 <= at < s.len(),
        s[at] == c,
        forall|i: int| at < i < s.len() ==> s[i] != c,
    ensures
        last_position(s, c) == at,
    decreases s.len(),
{
    if at < s.len() - 1 {
        let rest = s.drop_last();
        assert(s.last() != c);
        assert forall|i: int| at < i < rest.len() implies rest[i] != c by {
            assert(rest[i] == s[i]);
        }
        lemma_last_position_is(rest, c, at);
    }
}

proof fn lemma_no_position(s: Seq<char>, c: char)
    requires
        !s.contains(c),
    ensures
        last_position(s, c) == -1,
    decreases s.len(),
{
    if s.len() > 0 {
        assert(s.contains(s[s.len() - 1]));
        assert forall|d: char| s.drop_last().contains(d) implies s.contains(d) by {
            let i = choose|i: int| 0 <= i < s.drop_last().len() && s.drop_last()[i] == d;
            assert(s[i] == d);
        }
        lemma_no_position(s.drop_last(), c);
    }
}

/// A file's name is cut at its last dot into a stem and an ending; a name without a dot has no
/// ending and is its own stem.
pub proof fn lemma_stem_and_ending(folder: Seq<char>, start: Seq<char>, ending: Seq<char>)
    requires
        !start.contains('/'),
        !ending.contains('/'),
        !ending.contains('.'),
        start.len() > 0,
        ending.len() > 0 || start != "."@,
    ensures
        stem(folder + seq!['/'] + (start + seq!['.'] + ending)) == Some(start),
        extension(folder + seq!['/'] + (start + seq!['.'] + ending)) == Some(ending),
        !start.contains('.') ==> stem(folder + seq!['/'] + start) == Some(start) && extension(
            folder + seq!['/'] + start,
        ) is None,
{
    reveal_strlit(".");
    reveal_strlit("..");
    let name = start + seq!['.'] + ending;
    assert(!name.contains('/')) by {
        if name.contains('/') {
            let i = choose|i: int| 0 <= i < name.len() && name[i] == '/';
            if i < start.len() {
                assert(start[i] == '/');
            } else {
                assert(ending[i - start.len() - 1] == '/');
            }
        }
    }
    assert(name != "."@);
    assert(name != ".."@) by {
        if name == ".."@ {
            assert(start.len() == 1 && start[0] == name[0]);
            assert(start =~= "."@);
        }
    }
    lemma_file_name(folder, name);
    assert forall|i: int| start.len() < i < name.len() implies name[i] != '.' by {
        assert(ending.contains(ending[i - start.len() - 1]));
    }
    lemma_last_position_is(name, '.', start.len() as int);
    assert(name.take(start.len() as int) =~= start);
    assert(name.skip(start.len() as int + 1) =~= ending);
    if !start.contains('.') {
        assert(start != "."@ && start != ".."@) by {
            assert(start.contains(start[0]));
        }
        lemma_file_name(folder, start);
        lemma_no_position(start, '.');
    }
}

/// Another ending takes the place of what follows the last dot of a file's name, and is added to a
/// name without one; the folder and the rest of the name stay.
pub proof fn lemma_other_ending(
    folder: Seq<char>,
    start: Seq<char>,
    old_ending: Seq<char>,
    ending: Seq<char>,
)
    requires
        start.len() > 0,
        !start.contains('/'),
        old_ending.len() > 0,
        !old_ending.contains('/'),
        !old_ending.contains('.'),
    ensures
        with_ending(folder + seq!['/'] + start + seq!['.'] + old_ending, ending) == folder + seq![
            '/',
        ] + start + "."@ + ending,
        !start.contains('.') ==> with_ending(folder + seq!['/'] + start, ending) == folder + seq![
            '/',
        ] + start + "."@ + ending,
{
    reveal_strlit(".");
    reveal_strlit("..");
    let head = folder + seq!['/'];
    let name = start + seq!['.'] + old_ending;
    let path = folder + seq!['/'] + start + seq!['.'] + old_ending;
    assert(path =~= head + name);
    assert forall|i: int| 0 <= i < name.len() implies name[i] != '/' by {
        if i < start.len() {
            assert(start.contains(start[i]));
        } else if i > start.len() {
            assert(old_ending.contains(old_ending[i - start.len() - 1]));
        }
    }
    assert(path.last() == old_ending.last());
    assert(old_ending.contains(old_ending.last()));
    assert(without_tail(path) == path);
    assert forall|i: int| folder.len() < i < path.len() implies path[i] != '/' by {
        assert(path[i] == name[i - head.len()]);
    }
    lemma_last_position_is(path, '/', folder.len() as int);
    assert(path.skip(folder.len() as int + 1) =~= name);
    assert forall|i: int| start.len() < i < name.len() implies name[i] != '.' by {
        assert(old_ending.contains(old_ending[i - start.len() - 1]));
    }
    lemma_last_position_is(name, '.', start.len() as int);
    assert(name != ".."@) by {
        assert(name.last() == old_ending.last());
        assert(".."@[1] == '.');
    }
    assert(path.take(folder.len() as int + 1 + start.len() as int) =~= head + start);
    if !start.contains('.') {
        let plain = folder + seq!['/'] + start;
        assert(plain =~= head + start);
        assert(plain.last() == start.last());
        assert(start.contains(start.last()));
        assert(without_tail(plain) == plain);
        assert forall|i: int| folder.len() < i < plain.len() implies plain[i] != '/' by {
            assert(plain[i] == start[i - head.len()]);
            assert(start.contains(start[i - head.len()]));
        }
        lemma_last_position_is(plain, '/', folder.len() as int);
        assert(plain.skip(folder.len() as int + 1) =~= start);
        lemma_no_position(start, '.');
        assert(start != ".."@) by {
            assert(".."@[0] == '.');
            assert(start.contains(start[0]));
        }
    }
}

} // verus!
