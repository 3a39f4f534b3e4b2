//! File paths as text, with `/` between their steps.

use crate::search::{
    join as join_texts, joined, lemma_one_piece, lemma_pieces_join, lemma_positions,
    lemma_positions_agree, lemma_positions_step, pieces_of, positions, split,
};
use crate::text::{copy, from_chars, texts, to_chars};
use vstd::prelude::*;

verus! {

/// The step that stays where it is.
pub open spec fn here(step: Seq<char>) -> bool {
    step == seq!['.']
}

/// The step that goes up.
pub open spec fn up(step: Seq<char>) -> bool {
    step == seq!['.', '.']
}

/// The pieces between slashes that count as steps: not the empty ones, and `.` only as the first.
pub open spec fn steps(pieces: Seq<Seq<char>>) -> Seq<Seq<char>>
    decreases pieces.len(),
{
    if pieces.len() == 0 {
        seq![]
    } else if pieces.last().len() == 0 || (here(pieces.last()) && pieces.len() > 1) {
        steps(pieces.drop_last())
    } else {
        steps(pieces.drop_last()).push(pieces.last())
    }
}

/// The steps of a path.
pub open spec fn steps_of(path: Seq<char>) -> Seq<Seq<char>> {
    steps(pieces_of(path, '/'))
}

/// Whether a path starts at the root.
pub open spec fn rooted(path: Seq<char>) -> bool {
    path.len() > 0 && path[0] == '/'
}

/// The last step of a path, where it is a name.
pub open spec fn file_name_of(path: Seq<char>) -> Option<Seq<char>> {
    let s = steps_of(path);
    if s.len() == 0 || here(s.last()) || up(s.last()) {
        None
    } else {
        Some(s.last())
    }
}

/// The position of the last dot of a name, where characters stand before it.
pub open spec fn inner_dot(name: Seq<char>) -> Option<int>
    decreases name.len(),
{
    if name.len() <= 1 {
        None
    } else if name.last() == '.' {
        Some(name.len() - 1)
    } else {
        inner_dot(name.drop_last())
    }
}

/// The last step of a path without its extension.
pub open spec fn file_stem_of(path: Seq<char>) -> Option<Seq<char>> {
    match file_name_of(path) {
        None => None,
        Some(name) => match inner_dot(name) {
            Some(i) => Some(name.take(i)),
            None => Some(name),
        },
    }
}

/// What follows the last dot of the last step of a path.
pub open spec fn extension_of(path: Seq<char>) -> Option<Seq<char>> {
    match file_name_of(path) {
        None => None,
        Some(name) => match inner_dot(name) {
            Some(i) => Some(name.skip(i + 1)),
            None => None,
        },
    }
}

/// `path` taken from the directory `base`.
pub open spec fn joined_path(base: Seq<char>, path: Seq<char>) -> Seq<char> {
    if rooted(path) {
        path
    } else if base.len() == 0 || base.last() == '/' {
        base + path
    } else {
        base + seq!['/'] + path
    }
}

/// Whether the steps of `path` begin with those of `base`, from the same start; every path lies
/// under the empty one.
pub open spec fn lies_under(path: Seq<char>, base: Seq<char>) -> bool {
    base.len() == 0 || (rooted(path) == rooted(base) && steps_of(base).is_prefix_of(
        steps_of(path),
    ))
}

/// Whether a step of `path` goes up.
pub open spec fn goes_up(path: Seq<char>) -> bool {
    exists|i: int| 0 <= i < steps_of(path).len() && up(#[trigger] steps_of(path)[i])
}

/// The steps of pieces that do not come first: without `.` at their start.
pub open spec fn later_steps(pieces: Seq<Seq<char>>) -> Seq<Seq<char>> {
    if pieces.len() > 0 && here(pieces[0]) {
        steps(pieces).skip(1)
    } else {
        steps(pieces)
    }
}

/// A `.` at the start of a path is its first step.
pub proof fn lemma_first_step(pieces: Seq<Seq<char>>)
    requires
        pieces.len() > 0,
        here(pieces[0]),
    ensures
        steps(pieces).len() > 0,
        steps(pieces)[0] == pieces[0],
    decreases pieces.len(),
{
    if pieces.len() > 1 {
        lemma_first_step(pieces.drop_last());
    } else {
        assert(pieces.drop_last() =~= seq![]);
        assert(steps(pieces.drop_last()) =~= seq![]);
    }
}

/// The steps of a path that is made of two parts: those of the first, and those of the second.
proof fn lemma_steps_add(a: Seq<Seq<char>>, b: Seq<Seq<char>>)
    requires
        a.len() > 0,
    ensures
        steps(a + b) == steps(a) + later_steps(b),
    decreases b.len(),
{
    let all = a + b;
    if b.len() == 0 {
        assert(all =~= a);
        assert(steps(a) + later_steps(b) =~= steps(a));
    } else {
        let front = b.drop_last();
        lemma_steps_add(a, front);
        assert(all.drop_last() =~= a + front);
        assert(all.last() == b.last());
        if here(b[0]) {
            lemma_first_step(b);
            if b.len() == 1 {
                assert(front =~= seq![]);
                assert(steps(front) =~= seq![]);
                assert(steps(b).skip(1) =~= seq![]);
            } else {
                lemma_first_step(front);
                assert(front[0] == b[0]);
            }
        } else if b.len() > 1 {
            assert(front[0] == b[0]);
        }
        assert(steps(all) =~= steps(a) + later_steps(b));
    }
}

/// A path taken from a directory: the steps of the directory and then those of the path, from
/// where the directory starts.
pub proof fn lemma_joined_steps(base: Seq<char>, path: Seq<char>)
    requires
        !rooted(path),
        base.len() > 0,
    ensures
        steps_of(joined_path(base, path)) == steps_of(base) + later_steps(pieces_of(path, '/')),
        rooted(joined_path(base, path)) == rooted(base),
        lies_under(joined_path(base, path), base),
{
    let later = later_steps(pieces_of(path, '/'));
    if base.last() == '/' {
        let front = base.drop_last();
        let e = Seq::<char>::empty();
        assert(joined_path(base, path) =~= front + seq!['/'] + path);
        lemma_pieces_join(front, path, '/');
        lemma_steps_add(pieces_of(front, '/'), pieces_of(path, '/'));
        assert(base =~= front + seq!['/'] + e);
        lemma_pieces_join(front, e, '/');
        assert(pieces_of(e, '/') =~= seq![e]);
        lemma_steps_add(pieces_of(front, '/'), seq![e]);
        assert(seq![e].drop_last() =~= seq![]);
        assert(steps(seq![e].drop_last()) =~= seq![]);
        assert(later_steps(seq![e]) =~= seq![]);
        assert(steps_of(base) =~= steps(pieces_of(front, '/')));
    } else {
        lemma_pieces_join(base, path, '/');
        lemma_steps_add(pieces_of(base, '/'), pieces_of(path, '/'));
    }
    let all = steps_of(joined_path(base, path));
    assert(all.subrange(0, steps_of(base).len() as int) =~= steps_of(base));
}

/// A name taken from a directory is a step below it.
pub proof fn lemma_joined_name(base: Seq<char>, name: Seq<char>)
    requires
        base.len() > 0,
        name.len() > 0,
        !name.contains('/'),
        !here(name),
        !up(name),
    ensures
        steps_of(joined_path(base, name)) == steps_of(base).push(name),
        rooted(joined_path(base, name)) == rooted(base),
        lies_under(joined_path(base, name), base),
        file_name_of(joined_path(base, name)) == Some(name),
{
    lemma_one_piece(name, '/');
    assert(!rooted(name)) by {
        if rooted(name) {
            assert(name.contains('/'));
        }
    }
    lemma_joined_steps(base, name);
    assert(seq![name].drop_last() =~= seq![]);
    assert(steps(seq![name].drop_last()) =~= seq![]);
    assert(later_steps(seq![name]) =~= seq![name]);
    assert(steps_of(joined_path(base, name)) =~= steps_of(base).push(name));
}

fn is_here(step: &str) -> (b: bool)
    ensures
        b == here(step@),
{
    let c = to_chars(step);
    let b = c.len() == 1 && c[0] == '.';
    proof {
        if b {
            assert(step@ =~= seq!['.']);
        }
    }
    b
}

fn is_up(step: &str) -> (b: bool)
    ensures
        b == up(step@),
{
    let c = to_chars(step);
    let b = c.len() == 2 && c[0] == '.' && c[1] == '.';
    proof {
        if b {
            assert(step@ =~= seq!['.', '.']);
        }
    }
    b
}

/// The steps of a path.
pub fn path_steps(path: &str) -> (r: Vec<String>)
    ensures
        texts(r@) == steps_of(path@),
{
    let pieces = split(path, '/');
    let ghost views = texts(pieces@);
    let mut r: Vec<String> = Vec::new();
    let mut i: usize = 0;
    assert(views.take(0) =~= seq![]);
    assert(texts(r@) =~= seq![]);
    while i < pieces.len()
        invariant
            i <= pieces@.len(),
            views == texts(pieces@),
            texts(r@) == steps(views.take(i as int)),
        decreases pieces@.len() - i,
    {
        let ghost before = texts(r@);
        let piece = pieces[i].as_str();
        proof {
            assert(views.take(i + 1).drop_last() =~= views.take(i as int));
            assert(views.take(i + 1).last() == piece@);
        }
        if piece.unicode_len() > 0 && !(is_here(piece) && i > 0) {
            let step = copy(piece);
            r.push(step);
            assert(texts(r@) =~= before.push(piece@));
        }
        i += 1;
    }
    assert(views.take(i as int) =~= views);
    r
}

/// Whether a path starts at the root.
pub fn is_rooted(path: &str) -> (b: bool)
    ensures
        b == rooted(path@),
{
    let c = to_chars(path);
    c.len() > 0 && c[0] == '/'
}

/// The last step of a path, where it is a name.
pub fn file_name(path: &str) -> (r: Option<String>)
    ensures
        r matches Some(n) ==> file_name_of(path@) == Some(n@),
        r is None ==> file_name_of(path@) is None,
{
    let s = path_steps(path);
    let n = s.len();
    assert(texts(s@).len() == n);
    if n == 0 {
        return None;
    }
    let last = s[n - 1].as_str();
    assert(texts(s@).last() == last@);
    if is_here(last) || is_up(last) {
        return None;
    }
    Some(copy(last))
}

/// The position of the last dot of a name, where characters stand before it.
fn find_inner_dot(name: &Vec<char>) -> (r: Option<usize>)
    ensures
        r matches Some(i) ==> 0 < i < name@.len() && inner_dot(name@) == Some(i as int),
        r is None ==> inner_dot(name@) is None,
{
    let mut i: usize = name.len();
    assert(name@.take(i as int) =~= name@);
    while i > 1
        invariant
            i <= name@.len(),
            inner_dot(name@) == inner_dot(name@.take(i as int)),
        decreases i,
    {
        if name[i - 1] == '.' {
            return Some(i - 1);
        }
        assert(name@.take(i as int).drop_last() =~= name@.take(i - 1));
        i -= 1;
    }
    None
}

/// The last step of a path without its extension.
pub fn file_stem(path: &str) -> (r: Option<String>)
    ensures
        r matches Some(n) ==> file_stem_of(path@) == Some(n@),
        r is None ==> file_stem_of(path@) is None,
{
    match file_name(path) {
        None => None,
        Some(name) => {
            let c = to_chars(name.as_str());
            match find_inner_dot(&c) {
                Some(i) => {
                    let stem = from_chars(&c, 0, i);
                    assert(stem@ =~= name@.take(i as int));
                    Some(stem)
                },
                None => Some(name),
            }
        },
    }
}

/// What follows the last dot of the last step of a path.
pub fn extension(path: &str) -> (r: Option<String>)
    ensures
        r matches Some(n) ==> extension_of(path@) == Some(n@),
        r is None ==> extension_of(path@) is None,
{
    match file_name(path) {
        None => None,
        Some(name) => {
            let c = to_chars(name.as_str());
            match find_inner_dot(&c) {
                Some(i) => {
                    let n = c.len();
                    let ext = from_chars(&c, i + 1, n);
                    assert(ext@ =~= name@.skip(i + 1));
                    Some(ext)
                },
                None => None,
            }
        },
    }
}

/// `path` taken from the directory `base`.
pub fn join(base: &str, path: &str) -> (r: String)
    ensures
        r@ == joined_path(base@, path@),
{
    if is_rooted(path) {
        return copy(path);
    }
    let c = to_chars(base);
    let n = c.len();
    let mut r = copy(base);
    if n > 0 && c[n - 1] != '/' {
        r.push('/');
        r.append(path);
        assert(r@ =~= base@ + seq!['/'] + path@);
    } else {
        r.append(path);
    }
    r
}

/// Whether the steps of `path` begin with those of `base`, from the same start.
pub fn is_under(path: &str, base: &str) -> (b: bool)
    ensures
        b == lies_under(path@, base@),
{
    if base.unicode_len() == 0 {
        return true;
    }
    if is_rooted(path) != is_rooted(base) {
        return false;
    }
    let p = path_steps(path);
    let q = path_steps(base);
    let ghost ps = texts(p@);
    let ghost qs = texts(q@);
    if q.len() > p.len() {
        return false;
    }
    let mut i: usize = 0;
    while i < q.len()
        invariant
            i <= q@.len() <= p@.len(),
            base@.len() > 0,
            ps == texts(p@),
            qs == texts(q@),
            ps == steps_of(path@),
            qs == steps_of(base@),
            forall|j: int| 0 <= j < i ==> ps[j] == qs[j],
        decreases q@.len() - i,
    {
        if !crate::search::same(p[i].as_str(), q[i].as_str()) {
            assert(ps.subrange(0, qs.len() as int)[i as int] != qs[i as int]);
            return false;
        }
        i += 1;
    }
    assert(ps.subrange(0, qs.len() as int) =~= qs);
    true
}

/// Whether a step of `path` goes up.
pub fn has_step_up(path: &str) -> (b: bool)
    ensures
        b == goes_up(path@),
{
    let s = path_steps(path);
    let ghost views = texts(s@);
    let mut i: usize = 0;
    while i < s.len()
        invariant
            i <= s@.len(),
            views == texts(s@),
            views == steps_of(path@),
            forall|j: int| 0 <= j < i ==> !up(#[trigger] views[j]),
        decreases s@.len() - i,
    {
        if is_up(s[i].as_str()) {
            assert(up(views[i as int]));
            return true;
        }
        i += 1;
    }
    false
}

/// The directory of `path` below `base`: the steps between the two, where there are any; from the
/// root where `path` starts there and `base` is empty.
pub open spec fn folder_below(path: Seq<char>, base: Seq<char>) -> Option<Seq<char>> {
    let s = steps_of(path);
    let b = steps_of(base);
    let between = joined(s.subrange(b.len() as int, s.len() - 1), seq!['/']);
    if !lies_under(path, base) || s.len() <= b.len() {
        None
    } else if rooted(path) && !rooted(base) {
        Some(seq!['/'] + between)
    } else if s.len() > b.len() + 1 {
        Some(between)
    } else {
        None
    }
}

/// The directory of `path` below `base`.
pub fn directory_below(path: &str, base: &str) -> (r: Option<String>)
    ensures
        r matches Some(d) ==> folder_below(path@, base@) == Some(d@),
        r is None ==> folder_below(path@, base@) is None,
{
    if !is_under(path, base) {
        return None;
    }
    let s = path_steps(path);
    let b = path_steps(base).len();
    let n = s.len();
    let ghost views = texts(s@);
    assert(views.len() == n);
    assert(steps_of(base@).len() == b);
    if n <= b {
        return None;
    }
    let from_root = is_rooted(path) && !is_rooted(base);
    if n - b < 2 && !from_root {
        return None;
    }
    let mut between: Vec<String> = Vec::new();
    let mut i: usize = b;
    assert(texts(between@) =~= views.subrange(b as int, b as int));
    while i < n - 1
        invariant
            b <= i < n,
            n == s@.len(),
            views == texts(s@),
            texts(between@) == views.subrange(b as int, i as int),
        decreases n - i,
    {
        let ghost before = texts(between@);
        let step = copy(s[i].as_str());
        between.push(step);
        i += 1;
        proof {
            assert(texts(between@) =~= before.push(views[i - 1]));
            assert(texts(between@) =~= views.subrange(b as int, i as int));
        }
    }
    let slash = "/";
    proof {
        reveal_strlit("/");
        assert(slash@ =~= seq!['/']);
    }
    let below = join_texts(&between, slash);
    if from_root {
        let mut r = copy(slash);
        r.append(below.as_str());
        Some(r)
    } else {
        Some(below)
    }
}

/// The steps of a path are the pieces between its slashes that are not empty, without `.` unless it
/// comes first, in their order.
pub proof fn law_steps_are_what_stands_between_slashes(pieces: Seq<Seq<char>>)
    ensures
        steps(pieces) == positions(
            pieces.len(),
            |i: int| pieces[i].len() > 0 && (i == 0 || pieces[i] != seq!['.']),
        ).map_values(|i: int| pieces[i]),
    decreases pieces.len(),
{
    let is = |i: int| pieces[i].len() > 0 && (i == 0 || pieces[i] != seq!['.']);
    let f = |i: int| pieces[i];
    if pieces.len() > 0 {
        let front = pieces.drop_last();
        let n = front.len();
        let is_front = |i: int| front[i].len() > 0 && (i == 0 || front[i] != seq!['.']);
        let f_front = |i: int| front[i];
        law_steps_are_what_stands_between_slashes(front);
        assert forall|i: int| 0 <= i < n implies #[trigger] is(i) == is_front(i) by {}
        lemma_positions_agree(n, is, is_front);
        lemma_positions_step(n, is);
        lemma_positions(n, is_front);
        let at = positions(n, is_front);
        assert(at.map_values(f) =~= at.map_values(f_front));
        if is(n as int) {
            assert(at.push(n as int).map_values(f) =~= at.map_values(f).push(pieces[n as int]));
        }
    } else {
        lemma_positions(0, is);
        assert(positions(0, is).map_values(f) =~= seq![]) by {
            if positions(0, is).len() > 0 {
                assert(0 <= positions(0, is)[0] < 0);
            }
        }
    }
}

proof fn lemma_inner_dot(a: Seq<char>, b: Seq<char>)
    requires
        a.len() > 0,
        !b.contains('.'),
    ensures
        inner_dot(a + seq!['.'] + b) == Some(a.len() as int),
    decreases b.len(),
{
    let name = a + seq!['.'] + b;
    if b.len() > 0 {
        assert(b[b.len() - 1] != '.') by {
            if b[b.len() - 1] == '.' {
                assert(b.contains('.'));
            }
        }
        let front = b.drop_last();
        assert(!front.contains('.')) by {
            if front.contains('.') {
                let k = front.index_of('.');
                assert(b[k] == '.');
            }
        }
        lemma_inner_dot(a, front);
        assert(name.drop_last() =~= a + seq!['.'] + front);
    }
}

proof fn lemma_no_inner_dot(name: Seq<char>)
    requires
        forall|i: int| 0 < i < name.len() ==> #[trigger] name[i] != '.',
    ensures
        inner_dot(name) is None,
    decreases name.len(),
{
    if name.len() > 1 {
        assert(name[name.len() - 1] != '.');
        lemma_no_inner_dot(name.drop_last());
    }
}

/// The extension of a file is what follows the last dot of its name, and its stem what stands before
/// that dot, where anything does; a name without such a dot is its own stem and has no extension.
pub proof fn law_names_are_cut_at_their_last_dot(path: Seq<char>, a: Seq<char>, b: Seq<char>)
    ensures
        a.len() > 0 && !b.contains('.') && file_name_of(path) == Some(a + seq!['.'] + b) ==> {
            &&& file_stem_of(path) == Some(a)
            &&& extension_of(path) == Some(b)
        },
        file_name_of(path) == Some(a) && (forall|i: int| 0 < i < a.len() ==> #[trigger] a[i] != '.')
            ==> file_stem_of(path) == Some(a) && extension_of(path) is None,
        file_name_of(path) is None ==> file_stem_of(path) is None && extension_of(path) is None,
{
    if a.len() > 0 && !b.contains('.') {
        lemma_inner_dot(a, b);
        let name = a + seq!['.'] + b;
        assert(name.take(a.len() as int) =~= a);
        assert(name.skip(a.len() + 1int) =~= b);
    }
    if forall|i: int| 0 < i < a.len() ==> #[trigger] a[i] != '.' {
        lemma_no_inner_dot(a);
    }
}

/// The name of a file is the last step of its path, unless that stays or goes up.
pub proof fn law_files_are_named_by_the_last_step(path: Seq<char>)
    ensures
        file_name_of(path) is Some <==> steps_of(path).len() > 0 && steps_of(path).last() != seq![
            '.',
        ] && steps_of(path).last() != seq!['.', '.'],
        file_name_of(path) is Some ==> file_name_of(path) == Some(steps_of(path).last()),
{
}

/// A path from the root does not depend on the directory that it is taken from; any other is put
/// behind the directory with one slash between them.
pub proof fn law_paths_are_taken_from_their_directory(base: Seq<char>, path: Seq<char>)
    ensures
        path.len() > 0 && path[0] == '/' ==> joined_path(base, path) == path,
        (path.len() == 0 || path[0] != '/') && base.len() > 0 && base[base.len() - 1] != '/'
            ==> joined_path(base, path) == base + seq!['/'] + path,
        (path.len() == 0 || path[0] != '/') && (base.len() == 0 || base[base.len() - 1] == '/')
            ==> joined_path(base, path) == base + path,
{
}

/// A path starts at the root where its first character is a slash; it goes up where one of its steps
/// is two dots; and it lies under another, which is not empty, where both start at one place and its
/// steps begin with those of the other.
pub proof fn law_paths_go_up_by_two_dots(path: Seq<char>, base: Seq<char>)
    ensures
        rooted(seq!['/'] + path),
        rooted(path) ==> path.len() > 0 && path[0] == '/',
        goes_up(path) <==> steps_of(path).contains(seq!['.', '.']),
        lies_under(path, seq![]),
        lies_under(path, path),
        base.len() > 0 && lies_under(path, base) ==> {
            &&& rooted(path) == rooted(base)
            &&& steps_of(base).len() <= steps_of(path).len()
            &&& steps_of(path).take(steps_of(base).len() as int) == steps_of(base)
        },
        rooted(path) == rooted(base) && steps_of(base).len() <= steps_of(path).len() && steps_of(
            path,
        ).take(steps_of(base).len() as int) == steps_of(base) ==> lies_under(path, base),
{
    let s = steps_of(path);
    let b = steps_of(base);
    let dots = seq!['.', '.'];
    if goes_up(path) {
        let i = choose|i: int| 0 <= i < s.len() && up(#[trigger] s[i]);
        assert(s[i] == dots);
    }
    if s.contains(dots) {
        let i = s.index_of(dots);
        assert(up(s[i]));
    }
    assert(s.subrange(0, s.len() as int) =~= s);
    if b.len() <= s.len() {
        assert(s.subrange(0, b.len() as int) =~= s.take(b.len() as int));
    }
}

/// The directory of a path below another is made of the steps between that and its last step; there is
/// none where there are no such steps, or where the path does not lie below the other.
pub proof fn law_directories_are_the_steps_between(
    path: Seq<char>,
    base: Seq<char>,
    middle: Seq<Seq<char>>,
    name: Seq<char>,
)
    requires
        steps_of(path) == steps_of(base) + middle.push(name),
    ensures
        steps_of(path) == steps(pieces_of(path, '/')),
        rooted(path) == rooted(base) && middle.len() == 0 ==> folder_below(path, base) is None,
        rooted(path) == rooted(base) && middle.len() > 0 ==> folder_below(path, base) == Some(
            joined(middle, seq!['/']),
        ),
        base.len() == 0 && rooted(path) ==> folder_below(path, base) == Some(
            seq!['/'] + joined(middle, seq!['/']),
        ),
        !lies_under(path, base) ==> folder_below(path, base) is None,
{
    let s = steps_of(path);
    let b = steps_of(base);
    assert(s.subrange(b.len() as int, s.len() - 1) =~= middle);
    assert(s.subrange(0, b.len() as int) =~= b);
}

} // verus!
