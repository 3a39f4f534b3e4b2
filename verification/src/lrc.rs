//! Lyric lines: cutting a spoken line into short pieces.

use crate::text::{
    copy, from_chars, is_white_space, lemma_leading, lemma_trailing, lemma_trimmed, texts, to_chars,
    trim_range, trimmed, trimmed_start_of, white_space, CharClass,
};
use vstd::prelude::*;

verus! {

/// The characters behind which a line may be cut: punctuation, quotation marks, brackets, space.
pub open spec fn break_character(c: char) -> bool {
    ||| c == '，' || c == '。' || c == '？' || c == '！' || c == '；' || c == '：' || c == '、'
    ||| c == ',' || c == '.' || c == '?' || c == '!' || c == ';' || c == ':'
    ||| c == '“' || c == '”' || c == '‘' || c == '’'
    ||| c == '【' || c == '】' || c == '（' || c == '）' || c == '《' || c == '》' || c == '『' || c == '』'
    ||| c == '\'' || c == '"' || c == '(' || c == ')' || c == '[' || c == ']' || c == '{' || c == '}'
    ||| c == ' '
}

/// Whether a line may be cut behind `c`.
pub fn is_break_character(c: char) -> (b: bool)
    ensures
        b == break_character(c),
{
    match c {
        '，' | '。' | '？' | '！' | '；' | '：' | '、' => true,
        ',' | '.' | '?' | '!' | ';' | ':' => true,
        '“' | '”' | '‘' | '’' => true,
        '【' | '】' | '（' | '）' | '《' | '》' | '『' | '』' => true,
        '\'' | '"' | '(' | ')' | '[' | ']' | '{' | '}' => true,
        ' ' => true,
        _ => false,
    }
}

/// The characters that no piece begins with: white space and break characters.
pub open spec fn skipped(c: char) -> bool {
    white_space(c) || break_character(c)
}

/// `s` without the white space and break characters at its start.
pub open spec fn without_lead(s: Seq<char>) -> Seq<char>
    decreases s.len(),
{
    if s.len() > 0 && skipped(s[0]) {
        without_lead(s.skip(1))
    } else {
        s
    }
}

/// The position behind the last break character of `s`; none where there is none.
pub open spec fn behind_last_break(s: Seq<char>) -> Option<int>
    decreases s.len(),
{
    if s.len() == 0 {
        None
    } else if break_character(s.last()) {
        Some(s.len() as int)
    } else {
        behind_last_break(s.drop_last())
    }
}

/// The position behind the first break character of `s` from `from` on; the end of `s` where
/// there is none.
pub open spec fn behind_first_break(s: Seq<char>, from: int) -> int
    decreases s.len() - from,
{
    if from < 0 || from >= s.len() {
        s.len() as int
    } else if break_character(s[from]) {
        from + 1
    } else {
        behind_first_break(s, from + 1)
    }
}

/// Where to cut a text longer than `max`: behind the last break character among the first `max`
/// characters, else behind all of these. Where `max` is none, behind the first break character.
pub open spec fn cut(s: Seq<char>, max: nat) -> int {
    match behind_last_break(s.take(max as int)) {
        Some(n) => n,
        None => if max > 0 {
            max as int
        } else {
            behind_first_break(s, 0)
        },
    }
}

/// The text as one piece, trimmed; no piece where nothing is left.
pub open spec fn piece(s: Seq<char>) -> Seq<Seq<char>> {
    if trimmed(s).len() > 0 {
        seq![trimmed(s)]
    } else {
        seq![]
    }
}

/// The pieces of a text that does not begin with white space or a break character.
pub open spec fn pieces(s: Seq<char>, max: nat) -> Seq<Seq<char>>
    decreases s.len(),
    via pieces_decreases
{
    if s.len() == 0 {
        seq![]
    } else if s.len() <= max {
        piece(s)
    } else {
        piece(s.take(cut(s, max))) + pieces(without_lead(s.skip(cut(s, max))), max)
    }
}

#[via_fn]
proof fn pieces_decreases(s: Seq<char>, max: nat) {
    if s.len() > max {
        lemma_cut(s, max);
        lemma_without_lead(s.skip(cut(s, max)));
    }
}

/// The pieces of a line: the line itself where it is short enough.
pub open spec fn line_pieces(line: Seq<char>, max: nat) -> Seq<Seq<char>> {
    if line.len() <= max {
        seq![line]
    } else {
        pieces(without_lead(line), max)
    }
}

/// What is left by `without_lead`: it begins with a character that is not skipped.
proof fn lemma_without_lead(s: Seq<char>)
    ensures
        without_lead(s).len() <= s.len(),
        without_lead(s).len() > 0 ==> !skipped(without_lead(s)[0]),
        without_lead(s) == s.skip(s.len() - without_lead(s).len()),
        forall|i: int| 0 <= i < s.len() - without_lead(s).len() ==> skipped(#[trigger] s[i]),
    decreases s.len(),
{
    if s.len() > 0 && skipped(s[0]) {
        let t = s.skip(1);
        lemma_without_lead(t);
        assert(t.skip(t.len() - without_lead(t).len()) =~= s.skip(s.len() - without_lead(s).len()));
        assert forall|i: int| 0 <= i < s.len() - without_lead(s).len() implies skipped(
            #[trigger] s[i],
        ) by {
            if i > 0 {
                assert(s[i] == t[i - 1]);
            }
        }
    } else {
        assert(s.skip(0) =~= s);
    }
}

proof fn lemma_behind_last_break(s: Seq<char>)
    ensures
        behind_last_break(s) matches Some(n) ==> 0 < n <= s.len() && break_character(s[n - 1])
            && forall|i: int| n <= i < s.len() ==> !break_character(#[trigger] s[i]),
        behind_last_break(s) is None ==> forall|i: int|
            0 <= i < s.len() ==> !break_character(#[trigger] s[i]),
    decreases s.len(),
{
    if s.len() > 0 && !break_character(s.last()) {
        let t = s.drop_last();
        lemma_behind_last_break(t);
        match behind_last_break(t) {
            Some(n) => {
                assert forall|i: int| n <= i < s.len() implies !break_character(#[trigger] s[i]) by {
                    if i < s.len() - 1 {
                        assert(s[i] == t[i]);
                    }
                }
            },
            None => {
                assert forall|i: int| 0 <= i < s.len() implies !break_character(#[trigger] s[i]) by {
                    if i < s.len() - 1 {
                        assert(s[i] == t[i]);
                    }
                }
            },
        }
    }
}

proof fn lemma_behind_first_break(s: Seq<char>, from: int)
    requires
        0 <= from <= s.len(),
    ensures
        from <= behind_first_break(s, from) <= s.len(),
        from < s.len() ==> from < behind_first_break(s, from),
        forall|i: int|
            from <= i < behind_first_break(s, from) - 1 ==> !break_character(#[trigger] s[i]),
        behind_first_break(s, from) < s.len() ==> break_character(
            s[behind_first_break(s, from) - 1],
        ),
    decreases s.len() - from,
{
    if from < s.len() && !break_character(s[from]) {
        lemma_behind_first_break(s, from + 1);
    }
}

/// A cut takes at least one character and at most `max`, unless `max` is none.
proof fn lemma_cut(s: Seq<char>, max: nat)
    requires
        s.len() > max,
    ensures
        0 < cut(s, max) <= s.len(),
        max > 0 ==> cut(s, max) <= max,
{
    lemma_behind_last_break(s.take(max as int));
    lemma_behind_first_break(s, 0);
}

/// Moves `from` over white space and break characters.
fn skip_lead(chars: &Vec<char>, from: usize) -> (r: usize)
    requires
        from <= chars@.len(),
    ensures
        from <= r <= chars@.len(),
        chars@.skip(r as int) == without_lead(chars@.skip(from as int)),
{
    let mut i: usize = from;
    while i < chars.len() && (is_white_space(chars[i]) || is_break_character(chars[i]))
        invariant
            from <= i <= chars@.len(),
            without_lead(chars@.skip(i as int)) == without_lead(chars@.skip(from as int)),
        decreases chars@.len() - i,
    {
        assert(chars@.skip(i as int).skip(1) =~= chars@.skip(i + 1));
        i += 1;
    }
    proof {
        if i < chars@.len() {
            assert(chars@.skip(i as int)[0] == chars@[i as int]);
        }
    }
    i
}

/// The position behind the last break character of `chars[from..to]`.
fn find_last_break(chars: &Vec<char>, from: usize, to: usize) -> (r: Option<usize>)
    requires
        from <= to <= chars@.len(),
    ensures
        r matches Some(n) ==> from < n <= to && behind_last_break(
            chars@.subrange(from as int, to as int),
        ) == Some(n - from),
        r is None ==> behind_last_break(chars@.subrange(from as int, to as int)) is None,
{
    let mut i: usize = to;
    while i > from
        invariant
            from <= i <= to <= chars@.len(),
            behind_last_break(chars@.subrange(from as int, i as int)) == behind_last_break(
                chars@.subrange(from as int, to as int),
            ),
        decreases i,
    {
        let ghost s = chars@.subrange(from as int, i as int);
        if is_break_character(chars[i - 1]) {
            return Some(i);
        }
        assert(s.drop_last() =~= chars@.subrange(from as int, i - 1));
        i -= 1;
    }
    None
}

/// The position behind the first break character of `chars[from..]`, or the end; `start` is where
/// the current piece begins.
fn find_next_break(chars: &Vec<char>, start: usize, from: usize) -> (r: usize)
    requires
        start <= from <= chars@.len(),
    ensures
        from <= r <= chars@.len(),
        r - start == behind_first_break(chars@.skip(start as int), from - start),
{
    let ghost s = chars@.skip(start as int);
    let mut i: usize = from;
    while i < chars.len()
        invariant
            start <= from <= i <= chars@.len(),
            s == chars@.skip(start as int),
            behind_first_break(s, i - start) == behind_first_break(s, from - start),
        decreases chars@.len() - i,
    {
        assert(s[i - start] == chars@[i as int]);
        if is_break_character(chars[i]) {
            return i + 1;
        }
        i += 1;
    }
    i
}

/// Adds `chars[from..to]`, trimmed, unless nothing is left of it.
fn push_piece(chunks: &mut Vec<String>, chars: &Vec<char>, from: usize, to: usize)
    requires
        from <= to <= chars@.len(),
    ensures
        texts(final(chunks)@) == texts(old(chunks)@) + piece(
            chars@.subrange(from as int, to as int),
        ),
{
    let ghost before = texts(chunks@);
    let (a, b) = trim_range(chars, from, to, CharClass::Space);
    if a < b {
        let chunk = from_chars(chars, a, b);
        chunks.push(chunk);
        assert(texts(chunks@) =~= before + seq![chunk@]);
    } else {
        assert(before + seq![] =~= before);
    }
}

/// Cuts a line into pieces of at most `max_chars` characters, behind break characters where it can,
/// so that no piece begins with punctuation. A line that is short enough stays as it is.
pub fn split_line_intelligently(line: &str, max_chars: usize) -> (r: Vec<String>)
    ensures
        texts(r@) == line_pieces(line@, max_chars as nat),
        max_chars > 0 ==> forall|i: int|
            0 <= i < r@.len() ==> (#[trigger] r@[i])@.len() <= max_chars,
{
    let chunks = split_line(line, max_chars);
    proof {
        if max_chars > 0 {
            law_pieces_are_short(line@, max_chars as nat);
        }
        assert forall|i: int| 0 <= i < chunks@.len() && max_chars > 0 implies (
        #[trigger] chunks@[i])@.len() <= max_chars by {
            assert(texts(chunks@)[i] == chunks@[i]@);
        }
    }
    chunks
}

fn split_line(line: &str, max_chars: usize) -> (r: Vec<String>)
    ensures
        texts(r@) == line_pieces(line@, max_chars as nat),
{
    let chars = to_chars(line);
    let n = chars.len();
    let mut chunks: Vec<String> = Vec::new();
    if n <= max_chars {
        chunks.push(copy(line));
        assert(texts(chunks@) =~= seq![line@]);
        return chunks;
    }
    assert(chars@.skip(0) =~= line@);
    let mut pos = skip_lead(&chars, 0);
    assert(texts(chunks@) + line_pieces(line@, max_chars as nat) =~= line_pieces(
        line@,
        max_chars as nat,
    ));
    while pos < n
        invariant
            pos <= n,
            n == chars@.len(),
            texts(chunks@) + pieces(chars@.skip(pos as int), max_chars as nat) == line_pieces(
                line@,
                max_chars as nat,
            ),
        decreases n - pos,
    {
        let ghost s = chars@.skip(pos as int);
        let ghost max = max_chars as nat;
        let ghost before = texts(chunks@);
        if n - pos <= max_chars {
            push_piece(&mut chunks, &chars, pos, n);
            proof {
                assert(chars@.subrange(pos as int, n as int) =~= s);
                assert(chars@.skip(n as int).len() == 0);
                assert(texts(chunks@) + pieces(chars@.skip(n as int), max) =~= line_pieces(
                    line@,
                    max,
                ));
            }
            pos = n;
        } else {
            let search_end = pos + max_chars;
            assert(s.take(max as int) =~= chars@.subrange(pos as int, search_end as int));
            let end = match find_last_break(&chars, pos, search_end) {
                Some(e) => e,
                None => if max_chars > 0 {
                    search_end
                } else {
                    find_next_break(&chars, pos, pos)
                },
            };
            proof {
                lemma_cut(s, max);
                assert(end - pos == cut(s, max));
                assert(s.take(cut(s, max)) =~= chars@.subrange(pos as int, end as int));
                assert(s.skip(cut(s, max)) =~= chars@.skip(end as int));
            }
            push_piece(&mut chunks, &chars, pos, end);
            pos = skip_lead(&chars, end);
            proof {
                let head = piece(s.take(cut(s, max)));
                let tail = pieces(chars@.skip(pos as int), max);
                assert(before + (head + tail) =~= before + head + tail);
            }
        }
    }
    proof {
        assert(chars@.skip(pos as int).len() == 0);
        assert(texts(chunks@) + pieces(chars@.skip(pos as int), max_chars as nat) =~= texts(
            chunks@,
        ));
    }
    chunks
}

/// The characters of a text that are neither white space nor break characters.
pub open spec fn solid(s: Seq<char>) -> Seq<char>
    decreases s.len(),
{
    if s.len() == 0 {
        seq![]
    } else if skipped(s.last()) {
        solid(s.drop_last())
    } else {
        solid(s.drop_last()).push(s.last())
    }
}

/// The solid characters of the pieces, one piece after the other.
pub open spec fn solid_pieces(v: Seq<Seq<char>>) -> Seq<char>
    decreases v.len(),
{
    if v.len() == 0 {
        seq![]
    } else {
        solid(v[0]) + solid_pieces(v.skip(1))
    }
}

proof fn lemma_solid_add(a: Seq<char>, b: Seq<char>)
    ensures
        solid(a + b) == solid(a) + solid(b),
    decreases b.len(),
{
    if b.len() == 0 {
        assert(a + b =~= a);
    } else {
        lemma_solid_add(a, b.drop_last());
        assert((a + b).drop_last() =~= a + b.drop_last());
    }
}

proof fn lemma_solid_of_skipped(s: Seq<char>)
    requires
        forall|i: int| 0 <= i < s.len() ==> skipped(#[trigger] s[i]),
    ensures
        solid(s) == Seq::<char>::empty(),
    decreases s.len(),
{
    if s.len() > 0 {
        assert(skipped(s[s.len() - 1]));
        lemma_solid_of_skipped(s.drop_last());
    }
}

proof fn lemma_solid_trimmed(s: Seq<char>)
    ensures
        solid(trimmed(s)) == solid(s),
{
    let class = CharClass::Space;
    let t = trimmed_start_of(s, class);
    lemma_leading(s, class);
    lemma_trailing(t, class);
    let head = s.take(s.len() - t.len());
    let tail = t.skip(trimmed(s).len() as int);
    lemma_solid_of_skipped(head);
    lemma_solid_of_skipped(tail);
    lemma_solid_add(head, t);
    lemma_solid_add(trimmed(s), tail);
    assert(head + t =~= s);
    assert(trimmed(s) + tail =~= t);
}

proof fn lemma_solid_without_lead(s: Seq<char>)
    ensures
        solid(without_lead(s)) == solid(s),
{
    lemma_without_lead(s);
    let head = s.take(s.len() - without_lead(s).len());
    lemma_solid_of_skipped(head);
    lemma_solid_add(head, without_lead(s));
    assert(head + without_lead(s) =~= s);
}

proof fn lemma_solid_piece(s: Seq<char>, rest: Seq<Seq<char>>)
    ensures
        solid_pieces(piece(s) + rest) == solid(s) + solid_pieces(rest),
{
    lemma_solid_trimmed(s);
    if trimmed(s).len() > 0 {
        assert((piece(s) + rest).skip(1) =~= rest);
    } else {
        assert(piece(s) + rest =~= rest);
        assert(solid(s) + solid_pieces(rest) =~= solid_pieces(rest));
    }
}

proof fn lemma_pieces_keep_solid(s: Seq<char>, max: nat)
    ensures
        solid_pieces(pieces(s, max)) == solid(s),
    decreases s.len(),
{
    if s.len() == 0 {
    } else if s.len() <= max {
        lemma_solid_piece(s, seq![]);
        assert(piece(s) + seq![] =~= piece(s));
        assert(solid(s) + solid_pieces(seq![]) =~= solid(s));
    } else {
        let n = cut(s, max);
        lemma_cut(s, max);
        let rest = without_lead(s.skip(n));
        lemma_without_lead(s.skip(n));
        lemma_pieces_keep_solid(rest, max);
        lemma_solid_without_lead(s.skip(n));
        lemma_solid_piece(s.take(n), pieces(rest, max));
        lemma_solid_add(s.take(n), s.skip(n));
        assert(s.take(n) + s.skip(n) =~= s);
    }
}

/// Cutting a line loses nothing but white space and break characters, and keeps the order.
pub proof fn law_pieces_keep_the_text(line: Seq<char>, max: nat)
    ensures
        solid_pieces(line_pieces(line, max)) == solid(line),
{
    if line.len() <= max {
        let one = seq![line];
        assert(one.skip(1) =~= seq![]);
        assert(solid_pieces(one.skip(1)) =~= seq![]);
        assert(solid_pieces(one) =~= solid(line));
    } else {
        lemma_solid_without_lead(line);
        lemma_pieces_keep_solid(without_lead(line), max);
    }
}

/// A piece that begins well and is not too long.
pub open spec fn good_piece(p: Seq<char>, max: nat) -> bool {
    &&& p.len() > 0
    &&& !skipped(p[0])
    &&& max > 0 ==> p.len() <= max
}

proof fn lemma_good_piece(s: Seq<char>, n: int, max: nat)
    requires
        0 < n <= s.len(),
        !skipped(s[0]),
        max > 0 ==> n <= max,
    ensures
        piece(s.take(n)).len() == 1,
        good_piece(piece(s.take(n))[0], max),
{
    let t = s.take(n);
    let class = CharClass::Space;
    assert(t[0] == s[0]);
    lemma_trimmed(t);
    assert(!crate::text::blank(t)) by {
        assert(!white_space(t[0]));
    }
    lemma_leading(t, class);
    assert(trimmed_start_of(t, class) =~= t);
    lemma_trailing(t, class);
}

proof fn lemma_pieces_are_good(s: Seq<char>, max: nat)
    requires
        s.len() > 0 ==> !skipped(s[0]),
    ensures
        forall|i: int| 0 <= i < pieces(s, max).len() ==> good_piece(#[trigger] pieces(s, max)[i], max),
    decreases s.len(),
{
    if s.len() == 0 {
    } else if s.len() <= max {
        lemma_good_piece(s, s.len() as int, max);
        assert(s.take(s.len() as int) =~= s);
    } else {
        let n = cut(s, max);
        lemma_cut(s, max);
        lemma_good_piece(s, n, max);
        let rest = without_lead(s.skip(n));
        lemma_without_lead(s.skip(n));
        lemma_pieces_are_good(rest, max);
        assert forall|i: int| 0 <= i < pieces(s, max).len() implies good_piece(
            #[trigger] pieces(s, max)[i],
            max,
        ) by {
            if i > 0 {
                assert(pieces(s, max)[i] == pieces(rest, max)[i - 1]);
            }
        }
    }
}

/// No piece of a line that is cut is empty or begins with white space or punctuation.
pub proof fn law_pieces_begin_well(line: Seq<char>, max: nat)
    requires
        line.len() > max,
    ensures
        forall|i: int|
            0 <= i < line_pieces(line, max).len() ==> good_piece(
                #[trigger] line_pieces(line, max)[i],
                max,
            ),
{
    lemma_without_lead(line);
    lemma_pieces_are_good(without_lead(line), max);
}

/// No piece of a line is longer than `max`, unless `max` is none.
pub proof fn law_pieces_are_short(line: Seq<char>, max: nat)
    requires
        max > 0,
    ensures
        forall|i: int|
            0 <= i < line_pieces(line, max).len() ==> (#[trigger] line_pieces(line, max)[i]).len()
                <= max,
{
    if line.len() > max {
        law_pieces_begin_well(line, max);
        assert forall|i: int| 0 <= i < line_pieces(line, max).len() implies (
        #[trigger] line_pieces(line, max)[i]).len() <= max by {
            assert(good_piece(line_pieces(line, max)[i], max));
        }
    }
}

/// The characters behind which a line may be cut are these and no others.
pub proof fn law_lines_may_be_cut_behind_punctuation(c: char)
    ensures
        break_character(c) <==> "，。？！；：、,.?!;:“”‘’【】（）《》『』'\"()[]{} "@.contains(c),
{
    reveal_strlit("，。？！；：、,.?!;:“”‘’【】（）《》『』'\"()[]{} ");
    let s = "，。？！；：、,.?!;:“”‘’【】（）《》『』'\"()[]{} "@;
    assert(s.len() == 34);
    assert(s[0] == '，' && s[1] == '。' && s[2] == '？' && s[3] == '！' && s[4] == '；' && s[5] == '：'
        && s[6] == '、');
    assert(s[7] == ',' && s[8] == '.' && s[9] == '?' && s[10] == '!' && s[11] == ';' && s[12] == ':');
    assert(s[13] == '“' && s[14] == '”' && s[15] == '‘' && s[16] == '’');
    assert(s[17] == '【' && s[18] == '】' && s[19] == '（' && s[20] == '）' && s[21] == '《' && s[22]
        == '》' && s[23] == '『' && s[24] == '』');
    assert(s[25] == '\'' && s[26] == '"' && s[27] == '(' && s[28] == ')' && s[29] == '[' && s[30]
        == ']' && s[31] == '{' && s[32] == '}' && s[33] == ' ');
    if s.contains(c) {
        let k = s.index_of(c);
        assert(s[k] == c);
    }
}

/// What is left in front of a piece is white space and punctuation alone, and all of it.
pub proof fn law_pieces_begin_behind_punctuation(a: Seq<char>, s: Seq<char>)
    requires
        forall|i: int| 0 <= i < a.len() ==> white_space(#[trigger] a[i]) || break_character(a[i]),
        s.len() > 0 ==> !white_space(s[0]) && !break_character(s[0]),
    ensures
        without_lead(a + s) == s,
    decreases a.len(),
{
    let all = a + s;
    if a.len() > 0 {
        assert(all[0] == a[0]);
        let rest = a.skip(1);
        assert(all.skip(1) =~= rest + s);
        assert forall|i: int| 0 <= i < rest.len() implies white_space(#[trigger] rest[i])
            || break_character(rest[i]) by {
            assert(rest[i] == a[i + 1]);
        }
        law_pieces_begin_behind_punctuation(rest, s);
    } else {
        assert(all =~= s);
    }
}

/// Where a line is cut: a line that is short enough not at all. A longer one, from its first character
/// on that is neither white space nor punctuation, behind the last punctuation mark among the first
/// `max` characters, or behind these where there is none; what follows is cut in the same way.
pub proof fn law_lines_are_cut_behind_the_last_mark(s: Seq<char>, max: nat, n: int)
    requires
        0 < max < s.len(),
        0 < n <= max,
        !white_space(s[0]) && !break_character(s[0]),
        break_character(s[n - 1]) || n == max,
        forall|i: int| n <= i < max ==> !break_character(#[trigger] s[i]),
        break_character(s[n - 1]) || forall|i: int| 0 <= i < max ==> !break_character(#[trigger] s[i]),
    ensures
        line_pieces(s, max) == seq![trimmed(s.take(n))] + pieces(without_lead(s.skip(n)), max),
        line_pieces(s.take(n), max) == seq![s.take(n)],
{
    let head = s.take(max as int);
    lemma_behind_last_break(head);
    match behind_last_break(head) {
        Some(m) => {
            assert(head[m - 1] == s[m - 1]);
            if m < n {
                if break_character(s[n - 1]) {
                    assert(head[n - 1] == s[n - 1]);
                } else {
                    assert(!break_character(s[m - 1]));
                }
            }
            if n < m {
                assert(!break_character(s[m - 1]));
            }
        },
        None => {
            if break_character(s[n - 1]) {
                assert(head[n - 1] == s[n - 1]);
            }
        },
    }
    assert(cut(s, max) == n);
    assert(without_lead(s) == s);
    lemma_good_piece(s, n, max);
    assert(piece(s.take(n)) =~= seq![trimmed(s.take(n))]);
}

/// Whatever stands in front of a long line changes nothing where it is white space and punctuation; the
/// pieces of what is left of a line are those of that line on its own, trimmed where it is short.
pub proof fn law_the_rest_of_a_line_is_cut_like_a_line(a: Seq<char>, s: Seq<char>, max: nat)
    requires
        forall|i: int| 0 <= i < a.len() ==> white_space(#[trigger] a[i]) || break_character(a[i]),
        s.len() > 0 ==> !white_space(s[0]) && !break_character(s[0]),
        (a + s).len() > max,
    ensures
        line_pieces(a + s, max) == pieces(s, max),
        s.len() > max ==> pieces(s, max) == line_pieces(s, max),
        0 < s.len() <= max ==> pieces(s, max) == seq![trimmed(s)],
        s.len() == 0 ==> pieces(s, max).len() == 0,
{
    law_pieces_begin_behind_punctuation(a, s);
    if s.len() > 0 {
        let e = Seq::<char>::empty();
        law_pieces_begin_behind_punctuation(e, s);
        assert(e + s =~= s);
        if s.len() <= max {
            lemma_good_piece(s, s.len() as int, s.len());
            assert(s.take(s.len() as int) =~= s);
            assert(piece(s) =~= seq![trimmed(s)]);
        }
    }
}

} // verus!
