//! Cutting text into pieces, finding and replacing.

use crate::text::{from_chars, texts, to_chars};
use vstd::prelude::*;

verus! {

/// How many characters stand before the first `c`; all of them where there is none.
pub open spec fn until(s: Seq<char>, c: char) -> nat
    decreases s.len(),
{
    if s.len() == 0 || s[0] == c {
        0
    } else {
        1 + until(s.skip(1), c)
    }
}

/// `until` stops at the first `c`.
pub proof fn lemma_until(s: Seq<char>, c: char)
    ensures
        until(s, c) <= s.len(),
        forall|i: int| 0 <= i < until(s, c) ==> #[trigger] s[i] != c,
        until(s, c) < s.len() ==> s[until(s, c) as int] == c,
    decreases s.len(),
{
    if s.len() > 0 && s[0] != c {
        lemma_until(s.skip(1), c);
        assert forall|i: int| 0 <= i < until(s, c) implies #[trigger] s[i] != c by {
            if i > 0 {
                assert(s[i] == s.skip(1)[i - 1]);
            }
        }
    }
}

/// The number that `until` gives is the only one with its property.
pub proof fn lemma_until_unique(s: Seq<char>, c: char, n: int)
    requires
        0 <= n <= s.len(),
        forall|i: int| 0 <= i < n ==> #[trigger] s[i] != c,
        n < s.len() ==> s[n] == c,
    ensures
        until(s, c) == n,
{
    lemma_until(s, c);
    let m = until(s, c) as int;
    if m < n {
        assert(s[m] != c);
    } else if n < m {
        assert(s[n] != c);
    }
}

/// A line without the carriage return that ends it.
pub open spec fn without_return(s: Seq<char>) -> Seq<char> {
    if s.len() > 0 && s.last() == '\r' {
        s.drop_last()
    } else {
        s
    }
}

/// The lines of a text: what stands before each line feed, less one carriage return at its end,
/// and what follows the last line feed, if anything does.
pub open spec fn lines_of(s: Seq<char>) -> Seq<Seq<char>>
    decreases s.len(),
{
    let n = until(s, '\n');
    if s.len() == 0 {
        seq![]
    } else if n >= s.len() {
        seq![s]
    } else {
        seq![without_return(s.take(n as int))] + lines_of(s.skip(n + 1int))
    }
}

/// The pieces of a text between the occurrences of `sep`; one piece, the text, where there is
/// none.
pub open spec fn pieces_of(s: Seq<char>, sep: char) -> Seq<Seq<char>>
    decreases s.len(),
{
    let n = until(s, sep);
    if n >= s.len() {
        seq![s]
    } else {
        seq![s.take(n as int)] + pieces_of(s.skip(n + 1int), sep)
    }
}

/// The position of the next `c` in `chars[from..]`, or the length.
fn next_char(chars: &Vec<char>, from: usize, c: char) -> (r: usize)
    requires
        from <= chars@.len(),
    ensures
        from <= r <= chars@.len(),
        r == from + until(chars@.skip(from as int), c),
        r < chars@.len() ==> chars@[r as int] == c,
{
    let ghost s = chars@.skip(from as int);
    let mut i: usize = from;
    while i < chars.len() && chars[i] != c
        invariant
            from <= i <= chars@.len(),
            s == chars@.skip(from as int),
            forall|j: int| 0 <= j < i - from ==> #[trigger] s[j] != c,
        decreases chars@.len() - i,
    {
        assert(s[i - from] == chars@[i as int]);
        i += 1;
    }
    proof {
        if i < chars@.len() {
            assert(s[i - from] == chars@[i as int]);
        }
        lemma_until_unique(s, c, i - from);
    }
    i
}

/// The lines of a text.
pub fn lines(s: &str) -> (r: Vec<String>)
    ensures
        texts(r@) == lines_of(s@),
{
    let chars = to_chars(s);
    let n = chars.len();
    let mut r: Vec<String> = Vec::new();
    let mut start: usize = 0;
    assert(chars@.skip(0) =~= s@);
    assert(texts(r@) + lines_of(s@) =~= lines_of(s@));
    while start < n
        invariant
            start <= n,
            n == chars@.len(),
            chars@ == s@,
            texts(r@) + lines_of(chars@.skip(start as int)) == lines_of(s@),
        decreases n - start,
    {
        let ghost rest = chars@.skip(start as int);
        let ghost before = texts(r@);
        let end = next_char(&chars, start, '\n');
        if end >= n {
            let piece = from_chars(&chars, start, n);
            assert(piece@ =~= rest);
            r.push(piece);
            proof {
                assert(texts(r@) =~= before + seq![rest]);
                assert(chars@.skip(n as int).len() == 0);
                assert(lines_of(chars@.skip(n as int)) =~= seq![]);
                assert(texts(r@) + lines_of(chars@.skip(n as int)) =~= lines_of(s@));
            }
            start = n;
        } else {
            let stop = if end > start && chars[end - 1] == '\r' { end - 1 } else { end };
            let piece = from_chars(&chars, start, stop);
            proof {
                let k = until(rest, '\n') as int;
                assert(rest.take(k) =~= chars@.subrange(start as int, end as int));
                assert(piece@ =~= without_return(rest.take(k)));
                assert(rest.skip(k + 1) =~= chars@.skip(end + 1));
            }
            r.push(piece);
            proof {
                assert(texts(r@) =~= before + seq![piece@]);
                assert(before + (seq![piece@] + lines_of(chars@.skip(end + 1))) =~= texts(r@)
                    + lines_of(chars@.skip(end + 1)));
            }
            start = end + 1;
        }
    }
    proof {
        assert(chars@.skip(start as int).len() == 0);
        assert(texts(r@) + lines_of(chars@.skip(start as int)) =~= texts(r@));
    }
    r
}

/// No line holds a line feed.
pub proof fn lemma_lines_hold_no_feed(s: Seq<char>)
    ensures
        forall|i: int| 0 <= i < lines_of(s).len() ==> !(#[trigger] lines_of(s)[i]).contains('\n'),
    decreases s.len(),
{
    let n = until(s, '\n');
    lemma_until(s, '\n');
    if s.len() > 0 {
        if n < s.len() {
            lemma_lines_hold_no_feed(s.skip(n + 1int));
            let rest = lines_of(s.skip(n + 1int));
            assert forall|i: int| 0 <= i < lines_of(s).len() implies !(
            #[trigger] lines_of(s)[i]).contains('\n') by {
                if i > 0 {
                    assert(lines_of(s)[i] == rest[i - 1]);
                } else {
                    let line = without_return(s.take(n as int));
                    assert(lines_of(s)[0] == line);
                    if line.contains('\n') {
                        let k = line.index_of('\n');
                        assert(s[k] == '\n');
                    }
                }
            }
        } else {
            assert(!s.contains('\n')) by {
                if s.contains('\n') {
                    let k = s.index_of('\n');
                    assert(s[k] == '\n');
                }
            }
        }
    }
}

/// The pieces of a text between the occurrences of `sep`.
pub fn split(s: &str, sep: char) -> (r: Vec<String>)
    ensures
        texts(r@) == pieces_of(s@, sep),
        r@.len() > 0,
{
    let chars = to_chars(s);
    let n = chars.len();
    let mut r: Vec<String> = Vec::new();
    let mut start: usize = 0;
    assert(chars@.skip(0) =~= s@);
    assert(texts(r@) + pieces_of(s@, sep) =~= pieces_of(s@, sep));
    loop
        invariant
            start <= n,
            n == chars@.len(),
            chars@ == s@,
            texts(r@) + pieces_of(chars@.skip(start as int), sep) == pieces_of(s@, sep),
        decreases n - start,
    {
        let ghost rest = chars@.skip(start as int);
        let ghost before = texts(r@);
        let end = next_char(&chars, start, sep);
        let piece = from_chars(&chars, start, end);
        if end >= n {
            assert(piece@ =~= rest);
            r.push(piece);
            assert(texts(r@) =~= before + seq![rest]);
            return r;
        }
        proof {
            let k = until(rest, sep) as int;
            assert(piece@ =~= rest.take(k));
            assert(rest.skip(k + 1) =~= chars@.skip(end + 1));
        }
        r.push(piece);
        proof {
            assert(texts(r@) =~= before + seq![piece@]);
            assert(before + (seq![piece@] + pieces_of(chars@.skip(end + 1), sep)) =~= texts(r@)
                + pieces_of(chars@.skip(end + 1), sep));
        }
        start = end + 1;
    }
}

/// The pieces of two texts with `sep` between them are those of the first and those of the second.
pub proof fn lemma_pieces_join(a: Seq<char>, b: Seq<char>, sep: char)
    ensures
        pieces_of(a + seq![sep] + b, sep) == pieces_of(a, sep) + pieces_of(b, sep),
    decreases a.len(),
{
    let s = a + seq![sep] + b;
    let n = until(a, sep) as int;
    lemma_until(a, sep);
    assert(until(s, sep) == n) by {
        assert forall|i: int| 0 <= i < n implies #[trigger] s[i] != sep by {
            assert(s[i] == a[i]);
        }
        lemma_until_unique(s, sep, n);
    }
    assert(s.take(n) =~= a.take(n));
    if n < a.len() {
        let rest = a.skip(n + 1);
        lemma_pieces_join(rest, b, sep);
        assert(s.skip(n + 1) =~= rest + seq![sep] + b);
        assert(seq![a.take(n)] + (pieces_of(rest, sep) + pieces_of(b, sep)) =~= pieces_of(a, sep)
            + pieces_of(b, sep));
    } else {
        assert(s.skip(n + 1) =~= b);
        assert(a.take(n) =~= a);
    }
}

/// A text without `sep` is its only piece.
pub proof fn lemma_one_piece(s: Seq<char>, sep: char)
    requires
        !s.contains(sep),
    ensures
        pieces_of(s, sep) == seq![s],
{
    assert forall|i: int| 0 <= i < s.len() implies #[trigger] s[i] != sep by {
        if s[i] == sep {
            assert(s.contains(sep));
        }
    }
    lemma_until_unique(s, sep, s.len() as int);
}

/// The part before the first `sep` and the part after it; none where `sep` does not occur.
pub open spec fn cut_at(s: Seq<char>, sep: char) -> Option<(Seq<char>, Seq<char>)> {
    let n = until(s, sep);
    if n >= s.len() {
        None
    } else {
        Some((s.take(n as int), s.skip(n + 1int)))
    }
}

/// Cuts a text at the first `sep`.
pub fn split_once(s: &str, sep: char) -> (r: Option<(String, String)>)
    ensures
        r matches Some((a, b)) ==> cut_at(s@, sep) == Some((a@, b@)),
        r is None ==> cut_at(s@, sep) is None,
{
    let chars = to_chars(s);
    let n = chars.len();
    let end = next_char(&chars, 0, sep);
    assert(chars@.skip(0) =~= s@);
    if end >= n {
        return None;
    }
    let a = from_chars(&chars, 0, end);
    let b = from_chars(&chars, end + 1, n);
    assert(a@ =~= s@.take(end as int));
    assert(b@ =~= s@.skip(end + 1));
    Some((a, b))
}

/// Whether `p` stands in `s` at position `i`.
pub open spec fn occurs_at(s: Seq<char>, p: Seq<char>, i: int) -> bool {
    0 <= i && i + p.len() <= s.len() && s.subrange(i, i + p.len()) == p
}

/// The first position, from `from` on, at which `p` stands in `s`.
pub open spec fn find_from(s: Seq<char>, p: Seq<char>, from: int) -> Option<int>
    decreases s.len() + 1 - from,
{
    if from < 0 || from + p.len() > s.len() {
        None
    } else if s.subrange(from, from + p.len()) == p {
        Some(from)
    } else {
        find_from(s, p, from + 1)
    }
}

/// Whether `p` stands anywhere in `s`.
pub open spec fn holds_text(s: Seq<char>, p: Seq<char>) -> bool {
    find_from(s, p, 0) is Some
}

/// `find_from` gives the least position at which the pattern stands.
pub proof fn lemma_find_from(s: Seq<char>, p: Seq<char>, from: int)
    requires
        0 <= from,
    ensures
        find_from(s, p, from) matches Some(i) ==> from <= i && occurs_at(s, p, i) && (forall|j: int|
            from <= j < i ==> !#[trigger] occurs_at(s, p, j)),
        find_from(s, p, from) is None ==> forall|j: int|
            from <= j ==> !#[trigger] occurs_at(s, p, j),
    decreases s.len() + 1 - from,
{
    if from + p.len() <= s.len() && s.subrange(from, from + p.len()) != p {
        lemma_find_from(s, p, from + 1);
        assert(!occurs_at(s, p, from));
    }
}

/// A text that has `p` at some position holds it.
pub proof fn lemma_holds_text(s: Seq<char>, p: Seq<char>, i: int)
    requires
        occurs_at(s, p, i),
    ensures
        holds_text(s, p),
{
    lemma_find_from(s, p, 0);
}

/// Whether `p` stands in `s` at position `i`.
fn stands_at(s: &Vec<char>, p: &Vec<char>, i: usize) -> (b: bool)
    requires
        i + p@.len() <= s@.len(),
    ensures
        b == occurs_at(s@, p@, i as int),
{
    let ghost piece = s@.subrange(i as int, i + p@.len());
    let n = s.len();
    let mut k: usize = 0;
    while k < p.len()
        invariant
            k <= p@.len(),
            n == s@.len(),
            i + p@.len() <= s@.len(),
            piece == s@.subrange(i as int, i + p@.len()),
            forall|j: int| 0 <= j < k ==> #[trigger] piece[j] == p@[j],
        decreases p@.len() - k,
    {
        assert(piece[k as int] == s@[i + k]);
        if s[i + k] != p[k] {
            assert(piece[k as int] != p@[k as int]);
            return false;
        }
        k += 1;
    }
    assert(piece =~= p@);
    true
}

/// Whether `p` stands in `s` at position `i`.
pub fn is_at(s: &Vec<char>, p: &str, i: usize) -> (b: bool)
    ensures
        b == occurs_at(s@, p@, i as int),
{
    let p = to_chars(p);
    i <= s.len() && p.len() <= s.len() - i && stands_at(s, &p, i)
}

/// The first position, counted in characters, at which `p` stands in `s`.
pub fn find(s: &Vec<char>, p: &Vec<char>) -> (r: Option<usize>)
    ensures
        r matches Some(i) ==> find_from(s@, p@, 0) == Some(i as int),
        r is None ==> find_from(s@, p@, 0) is None,
{
    find_next(s, p, 0)
}

/// The first position from `from` on, counted in characters, at which `p` stands in `s`.
pub fn find_next(s: &Vec<char>, p: &Vec<char>, from: usize) -> (r: Option<usize>)
    ensures
        r matches Some(i) ==> find_from(s@, p@, from as int) == Some(i as int) && from <= i && i
            + p@.len() <= s@.len(),
        r is None ==> find_from(s@, p@, from as int) is None,
{
    let mut i: usize = from;
    if p.len() > s.len() {
        return None;
    }
    let last = s.len() - p.len();
    while i <= last
        invariant
            p@.len() <= s@.len(),
            last == s@.len() - p@.len(),
            from <= i,
            i <= last + 1 || i == from,
            find_from(s@, p@, from as int) == find_from(s@, p@, i as int),
        decreases last + 1 - i,
    {
        if stands_at(s, p, i) {
            return Some(i);
        }
        if i == last {
            assert(find_from(s@, p@, i + 1) is None);
            return None;
        }
        i += 1;
    }
    None
}

/// Whether `p` stands anywhere in `s`.
pub fn contains_text(s: &str, p: &str) -> (b: bool)
    ensures
        b == holds_text(s@, p@),
{
    let sc = to_chars(s);
    let pc = to_chars(p);
    find(&sc, &pc).is_some()
}

/// `s` without the first occurrence of `p`.
pub open spec fn without_first(s: Seq<char>, p: Seq<char>) -> Seq<char> {
    match find_from(s, p, 0) {
        Some(i) => s.take(i) + s.skip(i + p.len()),
        None => s,
    }
}

/// `s` without the first occurrence of `p`.
pub fn remove_first(s: &str, p: &str) -> (r: String)
    ensures
        r@ == without_first(s@, p@),
{
    let sc = to_chars(s);
    let pc = to_chars(p);
    let n = sc.len();
    match find(&sc, &pc) {
        Some(i) => {
            proof {
                lemma_find_from(s@, p@, 0);
            }
            let mut r = from_chars(&sc, 0, i);
            let rest = from_chars(&sc, i + pc.len(), n);
            r.append(rest.as_str());
            assert(r@ =~= without_first(s@, p@));
            r
        },
        None => {
            let r = from_chars(&sc, 0, sc.len());
            assert(r@ =~= s@);
            r
        },
    }
}

/// Whether `p` is how `s` begins.
pub fn starts_with(s: &str, p: &str) -> (b: bool)
    ensures
        b == p@.is_prefix_of(s@),
{
    let sc = to_chars(s);
    let pc = to_chars(p);
    if pc.len() > sc.len() {
        return false;
    }
    let b = stands_at(&sc, &pc, 0);
    assert(s@.subrange(0, 0int + p@.len()) =~= s@.subrange(0, p@.len() as int));
    b
}

/// Whether `p` is how `s` ends.
pub fn ends_with(s: &str, p: &str) -> (b: bool)
    ensures
        b == p@.is_suffix_of(s@),
{
    let sc = to_chars(s);
    let pc = to_chars(p);
    if pc.len() > sc.len() {
        return false;
    }
    let b = stands_at(&sc, &pc, sc.len() - pc.len());
    assert(s@.len() - p@.len() + p@.len() == s@.len());
    b
}

/// What follows `p` in `s`, where `s` begins with `p`.
pub fn strip_prefix(s: &str, p: &str) -> (r: Option<String>)
    ensures
        r matches Some(rest) ==> p@.is_prefix_of(s@) && rest@ == s@.skip(p@.len() as int),
        r is None ==> !p@.is_prefix_of(s@),
{
    if !starts_with(s, p) {
        return None;
    }
    let sc = to_chars(s);
    let n = to_chars(p).len();
    let rest = from_chars(&sc, n, sc.len());
    assert(rest@ =~= s@.skip(p@.len() as int));
    Some(rest)
}

/// `s` with every `from` turned into `to`.
pub open spec fn with_char_replaced(s: Seq<char>, from: char, to: char) -> Seq<char> {
    Seq::new(s.len(), |i: int| if s[i] == from { to } else { s[i] })
}

/// `s` with every `from` turned into `to`.
pub fn replace_char(s: &str, from: char, to: char) -> (r: String)
    ensures
        r@ == with_char_replaced(s@, from, to),
{
    let chars = to_chars(s);
    let mut r = String::new();
    let mut i: usize = 0;
    while i < chars.len()
        invariant
            i <= chars@.len(),
            chars@ == s@,
            r@ == with_char_replaced(s@, from, to).take(i as int),
        decreases chars@.len() - i,
    {
        let c = chars[i];
        r.push(if c == from { to } else { c });
        i += 1;
        assert(r@ =~= with_char_replaced(s@, from, to).take(i as int));
    }
    assert(r@ =~= with_char_replaced(s@, from, to));
    r
}

/// The first `n` characters of `s`, or all of them.
pub open spec fn first_chars(s: Seq<char>, n: nat) -> Seq<char> {
    if s.len() <= n {
        s
    } else {
        s.take(n as int)
    }
}

/// The first `n` characters of `s`, or all of them.
pub fn take_chars(s: &str, n: usize) -> (r: String)
    ensures
        r@ == first_chars(s@, n as nat),
{
    let chars = to_chars(s);
    let k = if chars.len() <= n { chars.len() } else { n };
    let r = from_chars(&chars, 0, k);
    assert(r@ =~= first_chars(s@, n as nat));
    r
}

/// Whether two texts are the same.
pub fn same(a: &str, b: &str) -> (r: bool)
    ensures
        r == (a@ == b@),
{
    let x = to_chars(a);
    let y = to_chars(b);
    if x.len() != y.len() {
        return false;
    }
    let mut i: usize = 0;
    while i < x.len()
        invariant
            i <= x@.len(),
            x@.len() == y@.len(),
            x@ == a@,
            y@ == b@,
            forall|j: int| 0 <= j < i ==> a@[j] == b@[j],
        decreases x@.len() - i,
    {
        if x[i] != y[i] {
            return false;
        }
        i += 1;
    }
    assert(a@ =~= b@);
    true
}

/// The texts in order, with `sep` between each two of them.
pub open spec fn joined(parts: Seq<Seq<char>>, sep: Seq<char>) -> Seq<char>
    decreases parts.len(),
{
    if parts.len() == 0 {
        seq![]
    } else if parts.len() == 1 {
        parts[0]
    } else {
        joined(parts.drop_last(), sep) + sep + parts.last()
    }
}

/// The strings in order, with `sep` between each two of them.
pub fn join(parts: &Vec<String>, sep: &str) -> (r: String)
    ensures
        r@ == joined(texts(parts@), sep@),
{
    let mut r = String::new();
    let mut i: usize = 0;
    assert(texts(parts@).take(0) =~= seq![]);
    while i < parts.len()
        invariant
            i <= parts@.len(),
            r@ == joined(texts(parts@).take(i as int), sep@),
        decreases parts@.len() - i,
    {
        let ghost before = texts(parts@).take(i as int);
        if i > 0 {
            r.append(sep);
        }
        r.append(parts[i].as_str());
        proof {
            let now = texts(parts@).take(i + 1);
            assert(now.drop_last() =~= before);
            assert(now.last() == parts@[i as int]@);
            if i == 0 {
                assert(r@ =~= now[0]);
            }
        }
        i += 1;
    }
    assert(texts(parts@).take(i as int) =~= texts(parts@));
    r
}

/// The numbers below `n` with a property, in order.
pub open spec fn positions(n: nat, has: spec_fn(int) -> bool) -> Seq<int> {
    Seq::new(n, |i: int| i).filter(has)
}

/// One number more is kept where it has the property.
pub proof fn lemma_positions_step(n: nat, has: spec_fn(int) -> bool)
    ensures
        positions(n + 1, has) == if has(n as int) {
            positions(n, has).push(n as int)
        } else {
            positions(n, has)
        },
{
    reveal(Seq::filter);
    let all = Seq::new(n + 1, |i: int| i);
    assert(all.drop_last() =~= Seq::new(n, |i: int| i));
}

/// Properties that agree below `n` keep the same numbers.
pub proof fn lemma_positions_agree(n: nat, a: spec_fn(int) -> bool, b: spec_fn(int) -> bool)
    requires
        forall|i: int| 0 <= i < n ==> #[trigger] a(i) == b(i),
    ensures
        positions(n, a) == positions(n, b),
    decreases n,
{
    reveal(Seq::filter);
    if n > 0 {
        let m = (n - 1) as nat;
        lemma_positions_agree(m, a, b);
        lemma_positions_step(m, a);
        lemma_positions_step(m, b);
        assert(a(m as int) == b(m as int));
    } else {
        assert(positions(n, a) =~= positions(n, b));
    }
}

/// The numbers that are kept are below `n`, grow, and have the property; and every number with it is
/// kept.
pub proof fn lemma_positions(n: nat, has: spec_fn(int) -> bool)
    ensures
        forall|k: int|
            0 <= k < positions(n, has).len() ==> 0 <= #[trigger] positions(n, has)[k] < n && has(
                positions(n, has)[k],
            ),
        forall|k: int, m: int|
            0 <= k < m < positions(n, has).len() ==> positions(n, has)[k] < positions(n, has)[m],
        forall|i: int| 0 <= i < n && #[trigger] has(i) ==> positions(n, has).contains(i),
    decreases n,
{
    reveal(Seq::filter);
    if n > 0 {
        let m = (n - 1) as nat;
        lemma_positions(m, has);
        lemma_positions_step(m, has);
        let before = positions(m, has);
        let after = positions(n, has);
        assert forall|i: int| 0 <= i < n && #[trigger] has(i) implies after.contains(i) by {
            if i < m {
                let k = before.index_of(i);
                assert(before.contains(i));
                assert(after[k] == i);
            } else {
                assert(after[after.len() - 1] == i);
            }
        }
    } else {
        assert(positions(n, has) =~= seq![]);
    }
}

/// The pieces of a text between the occurrences of a separator hold none, and with the separator
/// between each two of them they are the text.
pub proof fn law_pieces_are_what_stands_between(s: Seq<char>, sep: char)
    ensures
        pieces_of(s, sep).len() > 0,
        forall|i: int| 0 <= i < pieces_of(s, sep).len() ==> !(#[trigger] pieces_of(s, sep)[i]).contains(sep),
        joined(pieces_of(s, sep), seq![sep]) == s,
    decreases s.len(),
{
    let n = until(s, sep) as int;
    lemma_until(s, sep);
    let all = pieces_of(s, sep);
    let first = s.take(n);
    assert(!first.contains(sep)) by {
        if first.contains(sep) {
            let k = first.index_of(sep);
            assert(s[k] == sep);
        }
    }
    if n < s.len() {
        let rest = pieces_of(s.skip(n + 1), sep);
        law_pieces_are_what_stands_between(s.skip(n + 1), sep);
        law_joining_goes_on(seq![first], rest, seq![sep]);
        assert(joined(seq![first], seq![sep]) == first);
        assert(s =~= first + seq![sep] + s.skip(n + 1));
        assert forall|i: int| 0 <= i < all.len() implies !(#[trigger] all[i]).contains(sep) by {
            if i > 0 {
                assert(all[i] == rest[i - 1]);
            }
        }
    } else {
        assert(first =~= s);
    }
}

/// One text is joined to itself; and what two lists of texts are joined to are, with the separator
/// between them, what the lists together are joined to.
pub proof fn law_joining_goes_on(a: Seq<Seq<char>>, b: Seq<Seq<char>>, sep: Seq<char>)
    requires
        a.len() > 0,
        b.len() > 0,
    ensures
        joined(a + b, sep) == joined(a, sep) + sep + joined(b, sep),
        a.len() == 1 ==> joined(a, sep) == a[0],
    decreases b.len(),
{
    let all = a + b;
    assert(all.drop_last() =~= a + b.drop_last());
    if b.len() == 1 {
        assert(a + b.drop_last() =~= a);
    } else {
        law_joining_goes_on(a, b.drop_last(), sep);
        assert(joined(all, sep) =~= joined(a, sep) + sep + joined(b, sep));
    }
}

/// The lines of a text are what stands before each line feed, without one carriage return at the end,
/// and what follows the last line feed, as it is, where anything does.
pub proof fn law_lines_are_what_line_feeds_end(s: Seq<char>)
    ensures
        ({
            let pieces = pieces_of(s, '\n');
            let ended = pieces.drop_last().map_values(
                |piece: Seq<char>|
                    if piece.len() > 0 && piece[piece.len() - 1] == '\r' {
                        piece.take(piece.len() - 1)
                    } else {
                        piece
                    },
            );
            lines_of(s) == if pieces.last().len() == 0 {
                ended
            } else {
                ended.push(pieces.last())
            }
        }),
    decreases s.len(),
{
    let n = until(s, '\n') as int;
    lemma_until(s, '\n');
    let f = |piece: Seq<char>|
        if piece.len() > 0 && piece[piece.len() - 1] == '\r' {
            piece.take(piece.len() - 1)
        } else {
            piece
        };
    let pieces = pieces_of(s, '\n');
    if n < s.len() {
        let t = s.skip(n + 1);
        let rest = pieces_of(t, '\n');
        law_lines_are_what_line_feeds_end(t);
        law_pieces_are_what_stands_between(t, '\n');
        assert(pieces =~= seq![s.take(n)] + rest);
        assert(pieces.last() == rest.last());
        assert(pieces.drop_last() =~= seq![s.take(n)] + rest.drop_last());
        assert(pieces.drop_last().map_values(f) =~= seq![f(s.take(n))] + rest.drop_last().map_values(
            f,
        ));
        assert(s.take(n).drop_last() =~= s.take(n).take(s.take(n).len() - 1) || s.take(n).len()
            == 0);
        assert(without_return(s.take(n)) =~= f(s.take(n)));
        assert(lines_of(s) =~= seq![f(s.take(n))] + lines_of(t));
        let ended = pieces.drop_last().map_values(f);
        if rest.last().len() == 0 {
            assert(lines_of(s) =~= ended);
        } else {
            assert(lines_of(s) =~= ended.push(pieces.last()));
        }
    } else {
        assert(pieces =~= seq![s]);
        assert(pieces.drop_last().map_values(f) =~= seq![]);
        if s.len() == 0 {
            assert(lines_of(s) =~= seq![]);
        } else {
            assert(lines_of(s) =~= seq![].push(s));
        }
    }
}

/// What is left without the first occurrence of a text is the text around that occurrence; a text
/// without one is left as it is.
pub proof fn law_only_the_first_occurrence_goes(a: Seq<char>, p: Seq<char>, b: Seq<char>)
    requires
        forall|i: int| 0 <= i < a.len() ==> !#[trigger] occurs_at(a + p + b, p, i),
    ensures
        without_first(a + p + b, p) == a + b,
        forall|s: Seq<char>|
            (forall|i: int| !#[trigger] occurs_at(s, p, i)) ==> #[trigger] without_first(s, p) == s,
{
    let s = a + p + b;
    lemma_find_from(s, p, 0);
    assert(s.subrange(a.len() as int, (a.len() + p.len()) as int) =~= p);
    assert(occurs_at(s, p, a.len() as int));
    assert(s.take(a.len() as int) + s.skip((a.len() + p.len()) as int) =~= a + b);
    assert forall|s: Seq<char>|
        (forall|i: int| !#[trigger] occurs_at(s, p, i)) implies #[trigger] without_first(s, p)
        == s by {
        lemma_find_from(s, p, 0);
    }
}

/// A text is cut at its first separator, and not at all where it has none; the first characters of a
/// text are those that it begins with, and all of it where it is short.
pub proof fn law_texts_are_cut_at_the_first_separator(a: Seq<char>, sep: char, b: Seq<char>)
    requires
        !a.contains(sep),
    ensures
        cut_at(a + seq![sep] + b, sep) == Some((a, b)),
        cut_at(a, sep) is None,
        first_chars(a + b, a.len()) == a,
        first_chars(a, a.len() + b.len()) == a,
{
    let all = a + seq![sep] + b;
    let n = a.len() as int;
    lemma_until(all, sep);
    lemma_until(a, sep);
    assert(all[n] == sep);
    let k = until(all, sep) as int;
    if k < n {
        assert(all[k] == a[k]);
        assert(a.contains(a[k]));
    }
    assert(all.take(n) =~= a);
    assert(all.skip(n + 1) =~= b);
    if until(a, sep) < a.len() {
        assert(a.contains(a[until(a, sep) as int]));
    }
    assert((a + b).take(n) =~= a);
    if b.len() == 0 {
        assert(a + b =~= a);
    }
}

} // verus!
