//! Cutting a chapter into batches of text, each spoken in one request.

use crate::extractor::Chapter;
use crate::patterns::{find_match, quote_end, Pattern, DIALOGUE_PATTERN};
use crate::search::{joined, lemma_until, lemma_until_unique, lines, lines_of, until};
use crate::text::{blank, copy, is_blank, lemma_trimmed, texts, trim, trimmed};
use crate::utils::apply_blacklist;
use vstd::prelude::*;
use vstd::utf8::{encode_utf8, is_ascii_chars_encode_utf8};

verus! {

/// How many bytes a batch and the line added to it hold together at most.
pub const MAX_BATCH_BYTES: usize = 300;

/// Lines of a chapter that are spoken in one request.
#[derive(Debug)]
pub struct BatchData {
    pub text: String,
    pub lines: Vec<String>,
    pub is_dialogue: bool,
}

/// A batch as a value.
#[verifier::ext_equal]
pub struct BatchView {
    pub text: Seq<char>,
    pub lines: Seq<Seq<char>>,
    pub is_dialogue: bool,
}

impl View for BatchData {
    type V = BatchView;

    open spec fn view(&self) -> BatchView {
        BatchView { text: self.text@, lines: texts(self.lines@), is_dialogue: self.is_dialogue }
    }
}

/// The views of a sequence of batches.
pub open spec fn batch_views(batches: Seq<BatchData>) -> Seq<BatchView> {
    Seq::new(batches.len(), |i: int| batches[i]@)
}

/// A piece of a line, with whether it is a quotation.
pub type Segment = (Seq<char>, bool);

/// The bounds of the first quotation from position `from` on.
pub open spec fn first_quote(s: Seq<char>, from: int) -> Option<(int, int)>
    decreases s.len() - from,
{
    if from < 0 || from >= s.len() {
        None
    } else {
        match quote_end(s, from) {
            Some(end) => Some((from, end)),
            None => first_quote(s, from + 1),
        }
    }
}

/// `first_quote` gives the leftmost quotation.
pub proof fn lemma_first_quote(s: Seq<char>, from: int)
    requires
        0 <= from,
    ensures
        first_quote(s, from) matches Some((i, j)) ==> from <= i < j <= s.len() && quote_end(s, i)
            == Some(j) && (forall|k: int| from <= k < i ==> #[trigger] quote_end(s, k) is None),
        first_quote(s, from) is None ==> forall|k: int|
            from <= k < s.len() ==> #[trigger] quote_end(s, k) is None,
    decreases s.len() - from,
{
    if from < s.len() && quote_end(s, from) is None {
        lemma_first_quote(s, from + 1);
    }
}

/// The pieces of a line: its quotations, and what stands between them.
pub open spec fn segments_of(s: Seq<char>) -> Seq<Segment>
    decreases s.len(),
    via segments_of_decreases
{
    match first_quote(s, 0) {
        None => if s.len() == 0 {
            seq![]
        } else {
            seq![(s, false)]
        },
        Some((i, j)) => (if i > 0 {
            seq![(s.take(i), false)]
        } else {
            seq![]
        }) + seq![(s.subrange(i, j), true)] + segments_of(s.skip(j)),
    }
}

#[via_fn]
proof fn segments_of_decreases(s: Seq<char>) {
    lemma_first_quote(s, 0);
}

/// The texts of the segments, one after the other.
pub open spec fn spelled(segments: Seq<Segment>) -> Seq<char>
    decreases segments.len(),
{
    if segments.len() == 0 {
        seq![]
    } else {
        segments[0].0 + spelled(segments.skip(1))
    }
}

/// A line's segments, one after the other, are the line.
pub proof fn law_segments_spell_the_line(s: Seq<char>)
    ensures
        spelled(segments_of(s)) == s,
    decreases s.len(),
{
    lemma_first_quote(s, 0);
    reveal_with_fuel(spelled, 3);
    match first_quote(s, 0) {
        None => {
            if s.len() > 0 {
                let one = seq![(s, false)];
                assert(one.skip(1) =~= seq![]);
                assert(spelled(one) =~= s);
            }
        },
        Some((i, j)) => {
            let rest = segments_of(s.skip(j));
            law_segments_spell_the_line(s.skip(j));
            let quote = seq![(s.subrange(i, j), true)] + rest;
            assert(quote.skip(1) =~= rest);
            assert(spelled(quote) =~= s.subrange(i, j) + s.skip(j));
            if i > 0 {
                let all = segments_of(s);
                assert(all.skip(1) =~= quote);
                assert(spelled(all) =~= s.take(i) + (s.subrange(i, j) + s.skip(j)));
                assert(spelled(all) =~= s);
            } else {
                assert(segments_of(s) =~= quote);
                assert(spelled(quote) =~= s);
            }
        },
    }
}

/// The segments that are not blank.
pub open spec fn spoken(segments: Seq<Segment>) -> Seq<Segment>
    decreases segments.len(),
{
    if segments.len() == 0 {
        seq![]
    } else if blank(segments.last().0) {
        spoken(segments.drop_last())
    } else {
        spoken(segments.drop_last()).push(segments.last())
    }
}

/// The segments of the lines that are not blank, in order.
pub open spec fn line_segments(lines: Seq<Seq<char>>) -> Seq<Segment>
    decreases lines.len(),
{
    if lines.len() == 0 {
        seq![]
    } else {
        line_segments(lines.drop_last()) + spoken(segments_of(lines.last()))
    }
}

/// Whether the segment still fits into the batch.
pub open spec fn fits(batch: BatchView, g: Segment) -> bool {
    batch.is_dialogue == g.1 && encode_utf8(batch.text).len() + encode_utf8(g.0).len()
        <= MAX_BATCH_BYTES
}

/// The batches with one segment more: in the last batch where it fits, else in a new one.
pub open spec fn with_segment(batches: Seq<BatchView>, g: Segment) -> Seq<BatchView> {
    if batches.len() > 0 && fits(batches.last(), g) {
        let last = batches.last();
        batches.drop_last().push(
            BatchView {
                text: last.text + seq!['\n'] + g.0,
                lines: last.lines.push(g.0),
                is_dialogue: g.1,
            },
        )
    } else {
        batches.push(BatchView { text: g.0, lines: seq![g.0], is_dialogue: g.1 })
    }
}

/// The segments packed into batches.
pub open spec fn packed(segments: Seq<Segment>) -> Seq<BatchView>
    decreases segments.len(),
{
    if segments.len() == 0 {
        seq![]
    } else {
        with_segment(packed(segments.drop_last()), segments.last())
    }
}

/// The batches of lines of text.
pub open spec fn batches_of(lines: Seq<Seq<char>>) -> Seq<BatchView> {
    packed(line_segments(lines))
}

/// The lines of the batches in order, each with its batch's kind.
pub open spec fn batched(batches: Seq<BatchView>) -> Seq<Segment>
    decreases batches.len(),
{
    if batches.len() == 0 {
        seq![]
    } else {
        let last = batches.last();
        batched(batches.drop_last()) + Seq::new(
            last.lines.len(),
            |i: int| (last.lines[i], last.is_dialogue),
        )
    }
}

/// A batch has a line, none of its lines is blank, its text is its lines with line feeds between
/// them, and it is short unless it is a single line.
pub open spec fn sound(batch: BatchView) -> bool {
    &&& batch.lines.len() > 0
    &&& forall|i: int| 0 <= i < batch.lines.len() ==> !blank(#[trigger] batch.lines[i])
    &&& batch.text == joined(batch.lines, seq!['\n'])
    &&& batch.lines.len() == 1 || encode_utf8(batch.text).len() <= MAX_BATCH_BYTES + 1
}

proof fn lemma_encode_add(a: Seq<char>, b: Seq<char>)
    ensures
        encode_utf8(a + b) == encode_utf8(a) + encode_utf8(b),
    decreases a.len(),
{
    if a.len() == 0 {
        assert(a + b =~= b);
        assert(encode_utf8(a) + encode_utf8(b) =~= encode_utf8(b));
    } else {
        lemma_encode_add(a.drop_first(), b);
        assert((a + b).drop_first() =~= a.drop_first() + b);
        assert(encode_utf8(a + b) =~= encode_utf8(a) + encode_utf8(b));
    }
}

proof fn lemma_line_feed_is_one_byte()
    ensures
        encode_utf8(seq!['\n']).len() == 1,
{
    is_ascii_chars_encode_utf8(seq!['\n']);
}

proof fn lemma_spoken_is_not_blank(segments: Seq<Segment>)
    ensures
        forall|i: int| 0 <= i < spoken(segments).len() ==> !blank((#[trigger] spoken(segments)[i]).0),
    decreases segments.len(),
{
    if segments.len() > 0 {
        let before = spoken(segments.drop_last());
        lemma_spoken_is_not_blank(segments.drop_last());
        assert forall|i: int| 0 <= i < spoken(segments).len() implies !blank(
            (#[trigger] spoken(segments)[i]).0,
        ) by {
            if i < before.len() {
                assert(spoken(segments)[i] == before[i]);
            }
        }
    }
}

proof fn lemma_line_segments_are_not_blank(lines: Seq<Seq<char>>)
    ensures
        forall|i: int|
            0 <= i < line_segments(lines).len() ==> !blank((#[trigger] line_segments(lines)[i]).0),
    decreases lines.len(),
{
    if lines.len() > 0 {
        let before = line_segments(lines.drop_last());
        let more = spoken(segments_of(lines.last()));
        lemma_line_segments_are_not_blank(lines.drop_last());
        lemma_spoken_is_not_blank(segments_of(lines.last()));
        assert forall|i: int| 0 <= i < line_segments(lines).len() implies !blank(
            (#[trigger] line_segments(lines)[i]).0,
        ) by {
            if i < before.len() {
                assert(line_segments(lines)[i] == before[i]);
            } else {
                assert(line_segments(lines)[i] == more[i - before.len()]);
            }
        }
    }
}

proof fn lemma_packed(segments: Seq<Segment>)
    requires
        forall|i: int| 0 <= i < segments.len() ==> !blank((#[trigger] segments[i]).0),
    ensures
        batched(packed(segments)) == segments,
        forall|i: int| 0 <= i < packed(segments).len() ==> sound(#[trigger] packed(segments)[i]),
    decreases segments.len(),
{
    if segments.len() > 0 {
        let before = packed(segments.drop_last());
        let g = segments.last();
        let after = with_segment(before, g);
        lemma_packed(segments.drop_last());
        let last = after.last();
        let kind = Seq::new(last.lines.len(), |i: int| (last.lines[i], last.is_dialogue));
        if before.len() > 0 && fits(before.last(), g) {
            let b = before.last();
            let old_kind = Seq::new(b.lines.len(), |i: int| (b.lines[i], b.is_dialogue));
            assert(after.drop_last() =~= before.drop_last());
            assert(kind =~= old_kind.push(g));
            assert(batched(after) =~= batched(before).push(g));
            assert(segments =~= segments.drop_last().push(g));
            assert(last.lines.drop_last() =~= b.lines);
            lemma_line_feed_is_one_byte();
            lemma_encode_add(b.text + seq!['\n'], g.0);
            lemma_encode_add(b.text, seq!['\n']);
            assert(sound(last));
        } else {
            assert(after.drop_last() =~= before);
            assert(kind =~= seq![g]);
            assert(batched(after) =~= segments.drop_last() + seq![g]);
            assert(segments =~= segments.drop_last() + seq![g]);
            assert(sound(last));
        }
        assert forall|i: int| 0 <= i < after.len() implies sound(#[trigger] after[i]) by {
            if i < after.len() - 1 {
                assert(after[i] == before[i]);
            }
        }
    }
}

/// Batching loses nothing and changes no order: the lines of the batches are the segments of the
/// text that are not blank, each in a batch of its own kind, and every batch is sound.
pub proof fn law_batches_keep_the_segments(lines: Seq<Seq<char>>)
    ensures
        batched(batches_of(lines)) == line_segments(lines),
        forall|i: int|
            0 <= i < batches_of(lines).len() ==> sound(#[trigger] batches_of(lines)[i]),
{
    lemma_line_segments_are_not_blank(lines);
    lemma_packed(line_segments(lines));
}

/// What is left of a line to be spoken: trimmed, with words of the blacklist marked, and without
/// what is to be left out.
pub open spec fn processed(
    line: Seq<char>,
    blacklist: Option<Pattern>,
    ignore: Pattern,
) -> Seq<char> {
    let marked = match blacklist {
        Some(p) => p.replaced(trimmed(line), "[[$0]]"@),
        None => trimmed(line),
    };
    ignore.replaced(marked, ""@)
}

/// The lines that are not blank, processed, without those that are blank then.
pub open spec fn processed_lines_of(
    lines: Seq<Seq<char>>,
    blacklist: Option<Pattern>,
    ignore: Pattern,
) -> Seq<Seq<char>>
    decreases lines.len(),
{
    if lines.len() == 0 {
        seq![]
    } else {
        let before = processed_lines_of(lines.drop_last(), blacklist, ignore);
        let line = processed(lines.last(), blacklist, ignore);
        if blank(lines.last()) || blank(line) {
            before
        } else {
            before.push(line)
        }
    }
}

/// The lines of a chapter as they are to be spoken.
pub fn processed_lines(content: &str, blacklist: &Option<Pattern>, ignore: &Pattern) -> (r: Vec<
    String,
>)
    ensures
        texts(r@) == processed_lines_of(lines_of(content@), *blacklist, *ignore),
{
    let all = lines(content);
    let ghost views = texts(all@);
    let mut r: Vec<String> = Vec::new();
    let mut i: usize = 0;
    assert(views.take(0) =~= seq![]);
    assert(texts(r@) =~= seq![]);
    while i < all.len()
        invariant
            i <= all@.len(),
            views == texts(all@),
            texts(r@) == processed_lines_of(views.take(i as int), *blacklist, *ignore),
        decreases all@.len() - i,
    {
        let ghost before = texts(r@);
        let line = all[i].as_str();
        proof {
            assert(views.take(i + 1).drop_last() =~= views.take(i as int));
            assert(views.take(i + 1).last() == line@);
            lemma_trimmed(line@);
        }
        if !is_blank(line) {
            let short = trim(line);
            let marked = match blacklist {
                Some(p) => apply_blacklist(short.as_str(), p),
                None => short,
            };
            let left = ignore.replace_all(marked.as_str(), "");
            if !is_blank(left.as_str()) {
                r.push(left);
                assert(texts(r@) =~= before.push(left@));
            }
        }
        i += 1;
    }
    assert(views.take(i as int) =~= views);
    r
}

/// Adds a segment to the batches.
fn add_segment(batches: &mut Vec<BatchData>, text: &str, is_dialogue: bool)
    ensures
        batch_views(final(batches)@) == with_segment(
            batch_views(old(batches)@),
            (text@, is_dialogue),
        ),
{
    let ghost before = batch_views(batches@);
    let n = batches.len();
    if n > 0 {
        assert(before.last() == batches@[n - 1]@);
        let size = batches[n - 1].text.as_str().as_bytes().len();
        let more = text.as_bytes().len();
        if batches[n - 1].is_dialogue == is_dialogue && size <= MAX_BATCH_BYTES && more
            <= MAX_BATCH_BYTES - size {
            let mut last = match batches.pop() {
                Some(b) => b,
                None => BatchData { text: copy(text), lines: Vec::new(), is_dialogue },
            };
            let ghost old_last = last@;
            assert(old_last == before.last());
            last.text.push('\n');
            last.text.append(text);
            last.lines.push(copy(text));
            proof {
                assert(texts(last.lines@) =~= old_last.lines.push(text@));
                assert(last.text@ =~= old_last.text + seq!['\n'] + text@);
            }
            batches.push(last);
            proof {
                assert(batch_views(batches@) =~= with_segment(before, (text@, is_dialogue)));
            }
            return;
        }
    }
    let mut first: Vec<String> = Vec::new();
    first.push(copy(text));
    let batch = BatchData { text: copy(text), lines: first, is_dialogue };
    assert(batch@.lines =~= seq![text@]);
    batches.push(batch);
    assert(batch_views(batches@) =~= with_segment(before, (text@, is_dialogue)));
}

/// Adds a segment to the batches unless it is blank.
fn add_if_spoken(batches: &mut Vec<BatchData>, text: &str, is_dialogue: bool, before: Ghost<
    Seq<Segment>,
>)
    requires
        batch_views(old(batches)@) == packed(before@),
    ensures
        batch_views(final(batches)@) == packed(before@ + spoken(seq![(text@, is_dialogue)])),
{
    let ghost g = (text@, is_dialogue);
    let ghost one: Seq<Segment> = seq![g];
    proof {
        assert(one.drop_last() =~= seq![]);
        assert(spoken(one.drop_last()) =~= seq![]);
    }
    if !is_blank(text) {
        add_segment(batches, text, is_dialogue);
        proof {
            assert(spoken(one) =~= one);
            assert((before@ + one).drop_last() =~= before@);
        }
    } else {
        proof {
            assert(spoken(one) =~= seq![]);
            assert(before@ + spoken(one) =~= before@);
        }
    }
}

proof fn lemma_spoken_add(a: Seq<Segment>, b: Seq<Segment>)
    ensures
        spoken(a + b) == spoken(a) + spoken(b),
    decreases b.len(),
{
    if b.len() == 0 {
        assert(a + b =~= a);
    } else {
        lemma_spoken_add(a, b.drop_last());
        assert((a + b).drop_last() =~= a + b.drop_last());
    }
}

/// Adds the segments of a line to the batches.
fn add_line(batches: &mut Vec<BatchData>, line: &str, before: Ghost<Seq<Segment>>)
    requires
        batch_views(old(batches)@) == packed(before@),
    ensures
        batch_views(final(batches)@) == packed(before@ + spoken(segments_of(line@))),
{
    let mut rest = copy(line);
    let ghost mut done: Seq<Segment> = seq![];
    proof {
        assert(spoken(done) =~= seq![]);
        assert(before@ + spoken(done) =~= before@);
        assert(done + segments_of(rest@) =~= segments_of(line@));
    }
    loop
        invariant
            batch_views(batches@) == packed(before@ + spoken(done)),
            done + segments_of(rest@) == segments_of(line@),
        decreases rest@.len(),
    {
        let ghost s = rest@;
        proof {
            lemma_first_quote(s, 0);
        }
        match find_match(DIALOGUE_PATTERN, rest.as_str()) {
            Some((a, m, b)) => {
                let ghost i = a@.len() as int;
                let ghost j = (a@.len() + m@.len()) as int;
                proof {
                    assert(quote_end(s, i) == Some(j));
                    assert(first_quote(s, 0) == Some((i, j))) by {
                        match first_quote(s, 0) {
                            Some((x, _)) => {
                                if x < i {
                                    assert(quote_end(s, x) is None);
                                }
                                if i < x {
                                    assert(quote_end(s, i) is None);
                                }
                            },
                            None => {
                                assert(quote_end(s, i) is None);
                            },
                        }
                    }
                    assert(a@ =~= s.take(i));
                    assert(m@ =~= s.subrange(i, j));
                    assert(b@ =~= s.skip(j));
                }
                let ghost lead: Seq<Segment> = if i > 0 {
                    seq![(a@, false)]
                } else {
                    seq![]
                };
                let ghost quote: Seq<Segment> = seq![(m@, true)];
                if a.as_str().unicode_len() > 0 {
                    add_if_spoken(batches, a.as_str(), false, Ghost(before@ + spoken(done)));
                    proof {
                        lemma_spoken_add(done, lead);
                        assert(before@ + spoken(done) + spoken(lead) =~= before@ + spoken(
                            done + lead,
                        ));
                    }
                } else {
                    assert(done + lead =~= done);
                }
                add_if_spoken(batches, m.as_str(), true, Ghost(before@ + spoken(done + lead)));
                proof {
                    lemma_spoken_add(done + lead, quote);
                    assert(before@ + spoken(done + lead) + spoken(quote) =~= before@ + spoken(
                        done + lead + quote,
                    ));
                    assert(done + (lead + quote + segments_of(b@)) =~= done + lead + quote
                        + segments_of(b@));
                    done = done + lead + quote;
                }
                rest = b;
            },
            None => {
                proof {
                    assert(first_quote(s, 0) is None) by {
                        match first_quote(s, 0) {
                            Some((x, _)) => {
                                assert(quote_end(s, x) is None);
                            },
                            None => {},
                        }
                    }
                }
                if rest.as_str().unicode_len() > 0 {
                    let ghost last: Seq<Segment> = seq![(s, false)];
                    add_if_spoken(batches, rest.as_str(), false, Ghost(before@ + spoken(done)));
                    proof {
                        lemma_spoken_add(done, last);
                        assert(before@ + spoken(done) + spoken(last) =~= before@ + spoken(
                            done + last,
                        ));
                    }
                } else {
                    assert(done + segments_of(s) =~= done);
                }
                return;
            },
        }
    }
}

/// The batches of lines that are ready to be spoken.
pub fn batch_lines(lines: &Vec<String>) -> (r: Vec<BatchData>)
    ensures
        batch_views(r@) == batches_of(texts(lines@)),
{
    let ghost views = texts(lines@);
    let mut r: Vec<BatchData> = Vec::new();
    let mut i: usize = 0;
    assert(views.take(0) =~= seq![]);
    assert(batch_views(r@) =~= seq![]);
    while i < lines.len()
        invariant
            i <= lines@.len(),
            views == texts(lines@),
            batch_views(r@) == packed(line_segments(views.take(i as int))),
        decreases lines@.len() - i,
    {
        proof {
            assert(views.take(i + 1).drop_last() =~= views.take(i as int));
            assert(views.take(i + 1).last() == lines@[i as int]@);
        }
        add_line(&mut r, lines[i].as_str(), Ghost(line_segments(views.take(i as int))));
        i += 1;
    }
    assert(views.take(i as int) =~= views);
    r
}

/// The batches of a chapter: its lines are processed and cut into quotations and what stands
/// between them, and neighbours of one kind are joined while they are short enough.
pub fn build_chapter_batches(
    chapter: &Chapter,
    blacklist: &Option<Pattern>,
    ignore_regex: &Pattern,
) -> (r: Vec<BatchData>)
    ensures
        batch_views(r@) == batches_of(
            processed_lines_of(lines_of(chapter.content@), *blacklist, *ignore_regex),
        ),
{
    let lines = processed_lines(chapter.content.as_str(), blacklist, ignore_regex);
    batch_lines(&lines)
}

/// How many characters the segments have together.
pub open spec fn width(segments: Seq<Segment>) -> nat
    decreases segments.len(),
{
    if segments.len() == 0 {
        0
    } else {
        width(segments.drop_last()) + segments.last().0.len()
    }
}

proof fn lemma_width_add(a: Seq<Segment>, b: Seq<Segment>)
    ensures
        width(a + b) == width(a) + width(b),
    decreases b.len(),
{
    if b.len() == 0 {
        assert(a + b =~= a);
    } else {
        lemma_width_add(a, b.drop_last());
        assert((a + b).drop_last() =~= a + b.drop_last());
    }
}

proof fn lemma_quote_behind(s: Seq<char>, j: int, k: int)
    requires
        0 <= j <= s.len(),
        0 <= k,
    ensures
        quote_end(s.skip(j), k) == match quote_end(s, j + k) {
            Some(e) => Some(e - j),
            None => None,
        },
{
    let t = s.skip(j);
    if k < t.len() {
        assert(t[k] == s[j + k]);
        assert(t.skip(k + 1) =~= s.skip(j + k + 1));
    }
}

/// A quotation begins with an opening mark and ends at the first closing mark of its kind behind it,
/// and nothing else is a quotation.
pub proof fn law_quotations_end_at_their_mark(s: Seq<char>, i: int, j: int)
    ensures
        quote_end(s, i) == Some(j) <==> 0 <= i < j - 1 < s.len() && ({
            ||| s[i] == '“' && s[j - 1] == '”' && forall|k: int|
                i < k < j - 1 ==> #[trigger] s[k] != '”'
            ||| s[i] == '「' && s[j - 1] == '」' && forall|k: int|
                i < k < j - 1 ==> #[trigger] s[k] != '」'
        }),
{
    if 0 <= i < s.len() && (s[i] == '“' || s[i] == '「') {
        let close = if s[i] == '“' {
            '”'
        } else {
            '」'
        };
        let t = s.skip(i + 1);
        lemma_until(t, close);
        let n = until(t, close) as int;
        assert forall|k: int| i < k < i + 1 + n implies #[trigger] s[k] != close by {
            assert(t[k - i - 1] == s[k]);
        }
        if n < t.len() {
            assert(s[i + 1 + n] == t[n]);
        }
        if 0 <= i < j - 1 < s.len() && s[j - 1] == close && (forall|k: int|
            i < k < j - 1 ==> #[trigger] s[k] != close) {
            assert forall|k: int| 0 <= k < j - i - 2 implies #[trigger] t[k] != close by {
                assert(t[k] == s[i + 1 + k]);
            }
            assert(t[j - i - 2] == s[j - 1]);
            lemma_until_unique(t, close, j - i - 2);
        }
    }
}

/// The segments of a line are its quotations and what stands between them: each is what the line has
/// at its place, it is marked as a quotation exactly where a quotation begins there and ends with it,
/// no quotation begins in one that is not marked, and no two of these follow each other.
pub proof fn law_segments_are_quotations_or_hold_none(s: Seq<char>, i: int)
    requires
        0 <= i < segments_of(s).len(),
    ensures
        ({
            let g = segments_of(s);
            let a = width(g.take(i)) as int;
            let b = a + g[i].0.len();
            &&& a < b <= s.len()
            &&& g[i].0 == s.subrange(a, b)
            &&& g[i].1 <==> quote_end(s, a) == Some(b)
            &&& g[i].1 <==> quote_end(s, a) is Some
            &&& !g[i].1 ==> forall|k: int| a <= k < b ==> #[trigger] quote_end(s, k) is None
            &&& !g[i].1 && i + 1 < g.len() ==> g[i + 1].1
        }),
    decreases s.len(),
{
    lemma_first_quote(s, 0);
    let g = segments_of(s);
    match first_quote(s, 0) {
        None => {
            assert(g.take(0) =~= seq![]);
            assert(s.subrange(0, s.len() as int) =~= s);
        },
        Some((x, y)) => {
            let lead: Seq<Segment> = if x > 0 {
                seq![(s.take(x), false)]
            } else {
                seq![]
            };
            let quote: Seq<Segment> = seq![(s.subrange(x, y), g[lead.len() as int].1)];
            let rest = segments_of(s.skip(y));
            let head = lead + quote;
            assert(g =~= head + rest);
            reveal_with_fuel(width, 3);
            assert(lead.drop_last() =~= seq![] || lead.len() == 0);
            lemma_width_add(lead, quote);
            assert(quote.drop_last() =~= seq![]);
            if i < lead.len() {
                assert(g.take(0) =~= seq![]);
                assert(s.take(x) =~= s.subrange(0, x));
            } else if i < head.len() {
                assert(g.take(i) =~= lead);
            } else {
                let m = i - head.len();
                law_segments_are_quotations_or_hold_none(s.skip(y), m);
                assert(g.take(i) =~= head + rest.take(m));
                lemma_width_add(head, rest.take(m));
                let a = width(rest.take(m)) as int;
                let b = a + rest[m].0.len();
                assert(s.skip(y).subrange(a, b) =~= s.subrange(y + a, y + b));
                lemma_quote_behind(s, y, a);
                if !rest[m].1 {
                    assert forall|k: int| y + a <= k < y + b implies #[trigger] quote_end(
                        s,
                        k,
                    ) is None by {
                        lemma_quote_behind(s, y, k - y);
                        assert(quote_end(s.skip(y), k - y) is None);
                    }
                }
            }
        },
    }
}

/// Whether a segment is marked for what it is on its own: a quotation as a whole, or one in which no
/// quotation begins.
pub open spec fn marked_rightly(g: Segment) -> bool {
    if g.1 {
        quote_end(g.0, 0) == Some(g.0.len() as int)
    } else {
        forall|k: int| 0 <= k < g.0.len() ==> #[trigger] quote_end(g.0, k) is None
    }
}

proof fn lemma_quote_within(s: Seq<char>, a: int, b: int, k: int)
    requires
        0 <= a <= k < b <= s.len(),
    ensures
        quote_end(s.subrange(a, b), k - a) == match quote_end(s, k) {
            Some(e) => if e <= b {
                Some(e - a)
            } else {
                None
            },
            None => None,
        },
{
    let t = s.subrange(a, b);
    assert(t[k - a] == s[k]);
    match quote_end(t, k - a) {
        Some(e) => {
            law_quotations_end_at_their_mark(t, k - a, e);
            assert(t[e - 1] == s[a + e - 1]);
            assert forall|m: int| k < m < a + e - 1 implies #[trigger] s[m] == t[m - a] by {}
            law_quotations_end_at_their_mark(s, k, a + e);
        },
        None => {
            match quote_end(s, k) {
                Some(e) => {
                    law_quotations_end_at_their_mark(s, k, e);
                    if e <= b {
                        assert(t[e - a - 1] == s[e - 1]);
                        assert forall|m: int| k - a < m < e - a - 1 implies #[trigger] t[m]
                            == s[a + m] by {}
                        law_quotations_end_at_their_mark(t, k - a, e - a);
                    }
                },
                None => {},
            }
        },
    }
}

proof fn lemma_segments_are_marked_rightly(s: Seq<char>)
    ensures
        forall|i: int|
            0 <= i < segments_of(s).len() ==> marked_rightly(#[trigger] segments_of(s)[i]),
{
    let g = segments_of(s);
    assert forall|i: int| 0 <= i < g.len() implies marked_rightly(#[trigger] g[i]) by {
        law_segments_are_quotations_or_hold_none(s, i);
        let a = width(g.take(i)) as int;
        let b = a + g[i].0.len();
        if g[i].1 {
            lemma_quote_within(s, a, b, a);
        } else {
            assert forall|k: int| 0 <= k < g[i].0.len() implies #[trigger] quote_end(
                g[i].0,
                k,
            ) is None by {
                lemma_quote_within(s, a, b, a + k);
                assert(quote_end(s, a + k) is None);
            }
        }
    }
}

proof fn lemma_spoken_is_marked_rightly(segments: Seq<Segment>)
    requires
        forall|i: int| 0 <= i < segments.len() ==> marked_rightly(#[trigger] segments[i]),
    ensures
        forall|i: int|
            0 <= i < spoken(segments).len() ==> marked_rightly(#[trigger] spoken(segments)[i]),
    decreases segments.len(),
{
    if segments.len() > 0 {
        let before = segments.drop_last();
        assert forall|i: int| 0 <= i < before.len() implies marked_rightly(
            #[trigger] before[i],
        ) by {
            assert(before[i] == segments[i]);
        }
        lemma_spoken_is_marked_rightly(before);
        assert(marked_rightly(segments[segments.len() - 1]));
        let all = spoken(segments);
        assert forall|i: int| 0 <= i < all.len() implies marked_rightly(#[trigger] all[i]) by {
            if i < spoken(before).len() {
                assert(all[i] == spoken(before)[i]);
            }
        }
    }
}

proof fn lemma_lines_are_marked_rightly(lines: Seq<Seq<char>>)
    ensures
        forall|i: int|
            0 <= i < line_segments(lines).len() ==> marked_rightly(
                #[trigger] line_segments(lines)[i],
            ),
    decreases lines.len(),
{
    if lines.len() > 0 {
        lemma_lines_are_marked_rightly(lines.drop_last());
        lemma_segments_are_marked_rightly(lines.last());
        lemma_spoken_is_marked_rightly(segments_of(lines.last()));
        let front = line_segments(lines.drop_last());
        let more = spoken(segments_of(lines.last()));
        let all = line_segments(lines);
        assert forall|i: int| 0 <= i < all.len() implies marked_rightly(#[trigger] all[i]) by {
            if i < front.len() {
                assert(all[i] == front[i]);
            } else {
                assert(all[i] == more[i - front.len()]);
            }
        }
    }
}

/// Where the line `k` of the batch `i` stands among the lines of all batches.
proof fn lemma_batched_at(batches: Seq<BatchView>, i: int, k: int) -> (at: int)
    requires
        0 <= i < batches.len(),
        0 <= k < batches[i].lines.len(),
    ensures
        0 <= at < batched(batches).len(),
        batched(batches)[at] == (batches[i].lines[k], batches[i].is_dialogue),
    decreases batches.len(),
{
    let front = batched(batches.drop_last());
    if i < batches.len() - 1 {
        let at = lemma_batched_at(batches.drop_last(), i, k);
        assert(batched(batches)[at] == front[at]);
        at
    } else {
        front.len() + k
    }
}

/// Every line of a batch of quotations is a quotation as a whole, and in no line of any other batch
/// does a quotation begin, so that what is said in quotation marks is never read as narration.
pub proof fn law_batches_are_of_one_kind(lines: Seq<Seq<char>>, i: int, k: int)
    requires
        0 <= i < batches_of(lines).len(),
        0 <= k < batches_of(lines)[i].lines.len(),
    ensures
        ({
            let batch = batches_of(lines)[i];
            let line = batch.lines[k];
            &&& batch.is_dialogue ==> quote_end(line, 0) == Some(line.len() as int)
            &&& !batch.is_dialogue ==> forall|m: int|
                0 <= m < line.len() ==> #[trigger] quote_end(line, m) is None
        }),
{
    law_batches_keep_the_segments(lines);
    lemma_lines_are_marked_rightly(lines);
    let at = lemma_batched_at(batches_of(lines), i, k);
    assert(marked_rightly(line_segments(lines)[at]));
}

/// The lines of the batches, one after the other, are all the segments of all the lines that are not
/// blank: nothing is left out, added or moved.
pub proof fn law_batches_hold_every_segment(lines: Seq<Seq<char>>)
    ensures
        batched(batches_of(lines)) == lines.map_values(
            |line: Seq<char>| segments_of(line).filter(|g: Segment| !blank(g.0)),
        ).flatten_alt(),
{
    law_batches_keep_the_segments(lines);
    lemma_line_segments_are_all(lines);
}

proof fn lemma_spoken_is_filtered(segments: Seq<Segment>)
    ensures
        spoken(segments) == segments.filter(|g: Segment| !blank(g.0)),
    decreases segments.len(),
{
    reveal(Seq::filter);
    if segments.len() > 0 {
        lemma_spoken_is_filtered(segments.drop_last());
    }
}

proof fn lemma_line_segments_are_all(lines: Seq<Seq<char>>)
    ensures
        line_segments(lines) == lines.map_values(
            |line: Seq<char>| segments_of(line).filter(|g: Segment| !blank(g.0)),
        ).flatten_alt(),
    decreases lines.len(),
{
    let f = |line: Seq<char>| segments_of(line).filter(|g: Segment| !blank(g.0));
    if lines.len() > 0 {
        lemma_line_segments_are_all(lines.drop_last());
        lemma_spoken_is_filtered(segments_of(lines.last()));
        assert(lines.map_values(f).drop_last() =~= lines.drop_last().map_values(f));
        assert(lines.map_values(f).last() == f(lines.last()));
    }
}

/// How a text is measured: by its bytes.
pub open spec fn bytes_of(text: Seq<char>) -> nat {
    encode_utf8(text).len()
}

/// Whether each line but the first of a batch had room behind the lines before it.
pub open spec fn filled(batch: BatchView) -> bool {
    forall|k: int|
        0 < k < batch.lines.len() ==> bytes_of(joined(#[trigger] batch.lines.take(k), seq!['\n']))
            + bytes_of(batch.lines[k]) <= 300
}

/// Whether neither of two neighbours could have taken up the other: they are of two kinds, or the
/// first line of the second had no room in the first.
pub open spec fn apart(a: BatchView, b: BatchView) -> bool {
    a.is_dialogue != b.is_dialogue || bytes_of(a.text) + bytes_of(b.lines[0]) > 300
}

proof fn lemma_packed_tightly(segments: Seq<Segment>)
    requires
        forall|i: int| 0 <= i < segments.len() ==> !blank((#[trigger] segments[i]).0),
    ensures
        forall|i: int| 0 <= i < packed(segments).len() ==> filled(#[trigger] packed(segments)[i]),
        forall|i: int, j: int|
            0 <= i && j == i + 1 && j < packed(segments).len() ==> apart(
                #[trigger] packed(segments)[i],
                #[trigger] packed(segments)[j],
            ),
    decreases segments.len(),
{
    if segments.len() > 0 {
        let before = packed(segments.drop_last());
        let g = segments.last();
        let after = with_segment(before, g);
        lemma_packed_tightly(segments.drop_last());
        lemma_packed(segments.drop_last());
        lemma_packed(segments);
        let n = after.len() - 1;
        let last = after[n];
        if before.len() > 0 && fits(before.last(), g) {
            let old_last = before[n];
            assert(filled(old_last) && sound(old_last));
            assert forall|k: int| 0 < k < last.lines.len() implies bytes_of(
                joined(#[trigger] last.lines.take(k), seq!['\n']),
            ) + bytes_of(last.lines[k]) <= 300 by {
                assert(last.lines.take(k) =~= old_last.lines.take(k));
                if k == old_last.lines.len() {
                    assert(old_last.lines.take(k) =~= old_last.lines);
                }
            }
            if n > 0 {
                assert(apart(before[n - 1], before[n]));
                assert(last.lines[0] == old_last.lines[0]);
            }
        } else {
            assert(filled(last));
        }
        assert forall|i: int| 0 <= i < after.len() implies filled(#[trigger] after[i]) by {
            if i < n {
                assert(after[i] == before[i]);
            }
        }
        assert forall|i: int, j: int| 0 <= i && j == i + 1 && j < after.len() implies apart(
            #[trigger] after[i],
            #[trigger] after[j],
        ) by {
            assert(after[i] == before[i]);
            if j < n {
                assert(after[j] == before[j]);
            }
        }
    }
}

/// Batches are as long as they can be, and no longer: a line is joined to the batch before it exactly
/// where it is of the same kind and both have 300 bytes at most; the text of a batch is its lines with
/// line feeds between them.
pub proof fn law_batches_are_packed_tightly(lines: Seq<Seq<char>>, i: int)
    requires
        0 <= i < batches_of(lines).len(),
    ensures
        ({
            let batches = batches_of(lines);
            &&& batches[i].lines.len() > 0
            &&& batches[i].text == joined(batches[i].lines, seq!['\n'])
            &&& filled(batches[i])
            &&& i + 1 < batches.len() ==> apart(batches[i], batches[i + 1])
        }),
{
    lemma_line_segments_are_not_blank(lines);
    lemma_packed_tightly(line_segments(lines));
    law_batches_keep_the_segments(lines);
    assert(sound(batches_of(lines)[i]));
}

/// Of a chapter's lines those that are not blank are spoken, each trimmed, with what the blacklist
/// names in double brackets and without what is to be left out, unless nothing is left.
pub proof fn law_lines_are_processed_one_by_one(
    lines: Seq<Seq<char>>,
    blacklist: Option<Pattern>,
    ignore: Pattern,
)
    ensures
        processed_lines_of(lines, blacklist, ignore) == lines.filter(
            |line: Seq<char>| !blank(line),
        ).map_values(
            |line: Seq<char>|
                ignore.replaced(
                    match blacklist {
                        Some(p) => p.replaced(trimmed(line), "[[$0]]"@),
                        None => trimmed(line),
                    },
                    ""@,
                ),
        ).filter(|line: Seq<char>| !blank(line)),
    decreases lines.len(),
{
    reveal(Seq::filter);
    let spoken = |line: Seq<char>| !blank(line);
    let f = |line: Seq<char>|
        ignore.replaced(
            match blacklist {
                Some(p) => p.replaced(trimmed(line), "[[$0]]"@),
                None => trimmed(line),
            },
            ""@,
        );
    if lines.len() > 0 {
        let front = lines.drop_last().filter(spoken);
        law_lines_are_processed_one_by_one(lines.drop_last(), blacklist, ignore);
        if !blank(lines.last()) {
            let all = lines.filter(spoken);
            assert(all =~= front.push(lines.last()));
            assert(all.map_values(f) =~= front.map_values(f).push(f(lines.last())));
            assert(all.map_values(f).drop_last() =~= front.map_values(f));
        }
    } else {
        assert(lines.filter(spoken).map_values(f) =~= seq![]);
        assert(processed_lines_of(lines, blacklist, ignore) =~= seq![]);
    }
}

/// The values of batches are those of each, in their order, with their text, their lines and whether
/// they are quotations.
pub proof fn law_batches_keep_their_order(v: Seq<BatchData>, i: int)
    ensures
        batch_views(v).len() == v.len(),
        0 <= i < v.len() ==> {
            &&& batch_views(v)[i].text == v[i].text@
            &&& batch_views(v)[i].lines == texts(v[i].lines@)
            &&& batch_views(v)[i].is_dialogue == v[i].is_dialogue
        },
{
}

} // verus!
