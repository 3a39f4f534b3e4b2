//! Markup that can be laid out: no number in it, no nesting and no word is beyond what the layout of
//! a section copes with.

use crate::search::{
    contains_text, find_from, find_next, holds_text, is_at, lemma_find_from, lemma_positions_step,
    occurs_at, positions, same,
};
use crate::text::{ascii_lower, copy, from_chars, is_white_space, texts, to_chars, white_space};
use crate::utils::lower_ascii;
use vstd::prelude::*;

verus! {

/// How many characters the markup of a section may have.
pub const MAX_MARKUP_CHARS: usize = 0x1000_0000;

/// How many digits the number of columns that a cell spans may have.
pub const MAX_SPAN_DIGITS: usize = 4;

/// How many digits the first number of a list may have.
pub const MAX_START_DIGITS: usize = 9;

/// How many cells tables may have together.
pub const MAX_CELLS: usize = 50_000;

/// How many elements may be open at a time.
pub const MAX_NESTING: usize = 400;

/// How many elements may be open at a time, where some character may be shown wider than it is
/// counted.
pub const MAX_WIDE_NESTING: usize = 100;

/// How many lists of descriptions may be open at a time.
pub const MAX_LISTS: usize = 50;

/// How many elements may be left open at most once they are ended without an end tag of their own.
pub const MAX_LEFT_OPEN: usize = 4000;

/// How many characters of markup may follow each other without white space in the text, where some
/// character may be shown wider than it is counted.
pub const MAX_WORD_CHARS: usize = 4000;

/// How many characters of markup a table may have in which some character may be shown wider than it
/// is counted.
pub const MAX_WIDE_TABLE_CHARS: usize = 4000;

/// Elements that have no end.
pub const EMPTY_ELEMENTS: &'static str =
    " area base basefont bgsound br col embed frame hr image img input keygen link meta param source track wbr ";

/// Elements of which a document has one each, wherever their tags stand.
pub const ROOT_ELEMENTS: &'static str = " html head body ";

/// Elements that hold text up to their end tag, whatever stands in it.
pub const TEXT_ELEMENTS: &'static str = " script style title ";

/// Elements in which tags mean something else than elsewhere.
pub const ODD_ELEMENTS: &'static str =
    " applet button form frameset iframe marquee math noembed noframes noscript object plaintext select template textarea xmp ";

/// Elements whose end tag ends an open `a` or `span` within them too.
pub const CLOSING_ELEMENTS: &'static str =
    " a b blockquote div em h1 h2 h3 h4 h5 h6 i li p section span strong td th ";

/// Elements whose end tag ends an open paragraph within them too.
pub const CLOSING_BLOCKS: &'static str = " blockquote div li section td th ";

/// Elements that add nothing to the text of a table.
pub const PLAIN_ELEMENTS: &'static str =
    " br caption col colgroup div p span tbody td tfoot th thead tr ";

/// Whether a name stands in a list of names between spaces.
pub open spec fn listed(name: Seq<char>, list: Seq<char>) -> bool {
    holds_text(list, " "@ + name + " "@)
}

fn is_listed(name: &str, list: &str) -> (r: bool)
    ensures
        r == listed(name@, list@),
{
    let mut padded = copy(" ");
    padded.append(name);
    padded.append(" ");
    contains_text(list, padded.as_str())
}

/// The text with its ASCII letters in lower case.
pub open spec fn lowered(s: Seq<char>) -> Seq<char> {
    Seq::new(s.len(), |i: int| ascii_lower(s[i]))
}

fn lower_chars(s: &str) -> (r: Vec<char>)
    ensures
        r@ == lowered(s@),
{
    let chars = to_chars(s);
    let mut r: Vec<char> = Vec::new();
    let mut i: usize = 0;
    while i < chars.len()
        invariant
            i <= chars@.len(),
            chars@ == s@,
            r@.len() == i,
            forall|k: int| 0 <= k < i ==> #[trigger] r@[k] == ascii_lower(s@[k]),
        decreases chars@.len() - i,
    {
        r.push(lower_ascii(chars[i]));
        i += 1;
    }
    assert(r@ =~= lowered(s@));
    r
}

/// The white space between the parts of a tag.
pub open spec fn tag_space(c: char) -> bool {
    c == ' ' || c == '\t' || c == '\n' || c == '\r' || c == '\u{c}'
}

fn is_tag_space(c: char) -> (r: bool)
    ensures
        r == tag_space(c),
{
    c == ' ' || c == '\t' || c == '\n' || c == '\r' || c == '\u{c}'
}

/// The first position from `i` on that holds no white space of a tag.
pub open spec fn behind_spaces(s: Seq<char>, i: int) -> int
    decreases s.len() - i,
{
    if 0 <= i < s.len() && tag_space(s[i]) {
        behind_spaces(s, i + 1)
    } else {
        i
    }
}

fn skip_spaces(s: &Vec<char>, i: usize) -> (r: usize)
    requires
        i <= s@.len(),
    ensures
        r == behind_spaces(s@, i as int),
        i <= r <= s@.len(),
{
    let mut k: usize = i;
    while k < s.len() && is_tag_space(s[k])
        invariant
            i <= k <= s@.len(),
            behind_spaces(s@, k as int) == behind_spaces(s@, i as int),
        decreases s@.len() - k,
    {
        k += 1;
    }
    k
}

/// The first position from `i` on that holds no digit.
pub open spec fn behind_digits(s: Seq<char>, i: int) -> int
    decreases s.len() - i,
{
    if 0 <= i < s.len() && '0' <= s[i] <= '9' {
        behind_digits(s, i + 1)
    } else {
        i
    }
}

fn skip_digits(s: &Vec<char>, i: usize) -> (r: usize)
    requires
        i <= s@.len(),
    ensures
        r == behind_digits(s@, i as int),
        i <= r <= s@.len(),
{
    let mut k: usize = i;
    while k < s.len() && '0' <= s[k] && s[k] <= '9'
        invariant
            i <= k <= s@.len(),
            behind_digits(s@, k as int) == behind_digits(s@, i as int),
        decreases s@.len() - k,
    {
        k += 1;
    }
    k
}

/// Whether `i` is the position of one of two characters.
pub open spec fn either_at(s: Seq<char>, i: int, a: char, b: char) -> bool {
    0 <= i < s.len() && (s[i] == a || s[i] == b)
}

/// Where the digits of the value stand that is given to what ends before `i`: behind an equals
/// sign, a quotation mark and a sign; none where no value is given.
pub open spec fn value_at(s: Seq<char>, i: int) -> Option<int> {
    let e = behind_spaces(s, i);
    if 0 <= e < s.len() && s[e] == '=' {
        let v = behind_spaces(s, e + 1);
        let q = if either_at(s, v, '"', '\'') { v + 1 } else { v };
        Some(if either_at(s, q, '+', '-') { q + 1 } else { q })
    } else {
        None
    }
}

/// Whether the value that is given to what ends before `i`, if it is a number, has at most `max`
/// digits: it has no more of them, and none that is written as a character reference.
pub open spec fn short_number(s: Seq<char>, i: int, max: int) -> bool {
    match value_at(s, i) {
        Some(v) => behind_digits(s, v) - v <= max && !either_at(s, behind_digits(s, v), '&', '&'),
        None => true,
    }
}

/// Whether an attribute with that name may begin at `i`.
pub open spec fn attribute_at(s: Seq<char>, name: Seq<char>, i: int) -> bool {
    &&& 0 < i
    &&& occurs_at(s, name, i)
    &&& tag_space(s[i - 1]) || s[i - 1] == '/' || s[i - 1] == '"' || s[i - 1] == '\''
}

/// Whether the numbers that attributes with that name may have are short.
pub open spec fn short_numbers(s: Seq<char>, name: Seq<char>, max: int) -> bool {
    forall|i: int| #[trigger] attribute_at(s, name, i) ==> short_number(s, i + name.len(), max)
}

/// How many attributes with that name may begin before `n`.
pub open spec fn attribute_count(s: Seq<char>, name: Seq<char>, n: nat) -> nat
    decreases n,
{
    if n == 0 {
        0
    } else {
        attribute_count(s, name, (n - 1) as nat) + if attribute_at(s, name, n - 1) {
            1nat
        } else {
            0nat
        }
    }
}

fn is_short_number(s: &Vec<char>, i: usize, max: usize) -> (r: bool)
    requires
        i <= s@.len(),
    ensures
        r == short_number(s@, i as int, max as int),
{
    let n = s.len();
    let e = skip_spaces(s, i);
    if e >= n || s[e] != '=' {
        return true;
    }
    let mut v = skip_spaces(s, e + 1);
    if v < n && (s[v] == '"' || s[v] == '\'') {
        v += 1;
    }
    if v < n && (s[v] == '+' || s[v] == '-') {
        v += 1;
    }
    let d = skip_digits(s, v);
    d - v <= max && !(d < n && s[d] == '&')
}

fn is_attribute_at(s: &Vec<char>, name: &str, i: usize) -> (r: bool)
    requires
        i < s@.len(),
    ensures
        r == attribute_at(s@, name@, i as int),
{
    i > 0 && (is_tag_space(s[i - 1]) || s[i - 1] == '/' || s[i - 1] == '"' || s[i - 1] == '\'')
        && is_at(s, name, i)
}

/// Whether the numbers of the attributes are short, and how many attributes there may be.
fn check_numbers(s: &Vec<char>, name: &str, max: usize) -> (r: Option<usize>)
    requires
        name@.len() > 0,
    ensures
        r is Some == short_numbers(s@, name@, max as int),
        r matches Some(n) ==> n == attribute_count(s@, name@, s@.len()) && n <= s@.len(),
{
    let mut count: usize = 0;
    let mut i: usize = 0;
    while i < s.len()
        invariant
            i <= s@.len(),
            count <= i,
            count == attribute_count(s@, name@, i as nat),
            forall|k: int|
                k < i && #[trigger] attribute_at(s@, name@, k) ==> short_number(
                    s@,
                    k + name@.len(),
                    max as int,
                ),
        decreases s@.len() - i,
    {
        if is_attribute_at(s, name, i) {
            if !is_short_number(s, i + name.unicode_len(), max) {
                assert(!short_numbers(s@, name@, max as int));
                return None;
            }
            count += 1;
        }
        i += 1;
    }
    Some(count)
}

/// The parts of a tag.
#[derive(Clone, Copy, Debug, PartialEq, Eq, Structural)]
pub enum TagPart {
    /// Its name.
    Name,
    /// What stands before an attribute.
    Before,
    /// The name of an attribute.
    Attribute,
    /// What stands behind the name of an attribute.
    After,
    /// What stands behind an equals sign.
    Value,
    /// A value in double quotation marks.
    Double,
    /// A value in single quotation marks.
    Single,
    /// A value without quotation marks.
    Bare,
    /// What stands behind a quotation mark that ends a value.
    Quoted,
    /// What stands behind a slash.
    Slash,
}

/// The part of a tag that a character leads to; none where it ends the tag.
pub open spec fn next_part(part: TagPart, c: char) -> Option<TagPart> {
    match part {
        TagPart::Double => Some(
            if c == '"' {
                TagPart::Quoted
            } else {
                part
            },
        ),
        TagPart::Single => Some(
            if c == '\'' {
                TagPart::Quoted
            } else {
                part
            },
        ),
        _ => if c == '>' {
            None
        } else if tag_space(c) {
            Some(
                match part {
                    TagPart::Attribute | TagPart::After => TagPart::After,
                    TagPart::Value => TagPart::Value,
                    _ => TagPart::Before,
                },
            )
        } else {
            Some(
                match part {
                    TagPart::Value => if c == '"' {
                        TagPart::Double
                    } else if c == '\'' {
                        TagPart::Single
                    } else {
                        TagPart::Bare
                    },
                    TagPart::Bare => TagPart::Bare,
                    _ => if c == '/' {
                        TagPart::Slash
                    } else if c == '=' && (part == TagPart::Attribute || part == TagPart::After) {
                        TagPart::Value
                    } else if part == TagPart::Name {
                        TagPart::Name
                    } else {
                        TagPart::Attribute
                    },
                },
            )
        },
    }
}

fn find_next_part(part: TagPart, c: char) -> (r: Option<TagPart>)
    ensures
        r == next_part(part, c),
{
    match part {
        TagPart::Double => if c == '"' {
            Some(TagPart::Quoted)
        } else {
            Some(part)
        },
        TagPart::Single => if c == '\'' {
            Some(TagPart::Quoted)
        } else {
            Some(part)
        },
        _ => if c == '>' {
            None
        } else if is_tag_space(c) {
            match part {
                TagPart::Attribute | TagPart::After => Some(TagPart::After),
                TagPart::Value => Some(TagPart::Value),
                _ => Some(TagPart::Before),
            }
        } else {
            match part {
                TagPart::Value => if c == '"' {
                    Some(TagPart::Double)
                } else if c == '\'' {
                    Some(TagPart::Single)
                } else {
                    Some(TagPart::Bare)
                },
                TagPart::Bare => Some(TagPart::Bare),
                _ => if c == '/' {
                    Some(TagPart::Slash)
                } else if c == '=' && (part == TagPart::Attribute || part == TagPart::After) {
                    Some(TagPart::Value)
                } else if part == TagPart::Name {
                    Some(TagPart::Name)
                } else {
                    Some(TagPart::Attribute)
                },
            }
        },
    }
}

/// Where a tag ends that goes on at `i` in that part, and whether a slash stands before its end; the
/// end of the text where it does not end.
pub open spec fn tag_end(s: Seq<char>, i: int, part: TagPart) -> (int, bool)
    decreases s.len() - i,
{
    if i < 0 || i >= s.len() {
        (s.len() as int, false)
    } else {
        match next_part(part, s[i]) {
            Some(p) => tag_end(s, i + 1, p),
            None => (i, part == TagPart::Slash),
        }
    }
}

fn find_tag_end(s: &Vec<char>, i: usize) -> (r: (usize, bool))
    requires
        i <= s@.len(),
    ensures
        i <= r.0 <= s@.len(),
        (r.0 as int, r.1) == tag_end(s@, i as int, TagPart::Name),
{
    let mut part = TagPart::Name;
    let mut k: usize = i;
    while k < s.len()
        invariant
            i <= k <= s@.len(),
            tag_end(s@, k as int, part) == tag_end(s@, i as int, TagPart::Name),
        decreases s@.len() - k,
    {
        match find_next_part(part, s[k]) {
            Some(p) => {
                part = p;
            },
            None => {
                return (k, part == TagPart::Slash);
            },
        }
        k += 1;
    }
    (k, false)
}

/// Whether the character ends the name of a tag.
pub open spec fn ends_name(c: char) -> bool {
    tag_space(c) || c == '/' || c == '>'
}

fn is_name_end(c: char) -> (r: bool)
    ensures
        r == ends_name(c),
{
    is_tag_space(c) || c == '/' || c == '>'
}

/// Where the name of a tag that goes on at `i` ends.
pub open spec fn name_end(s: Seq<char>, i: int) -> int
    decreases s.len() - i,
{
    if 0 <= i < s.len() && !ends_name(s[i]) {
        name_end(s, i + 1)
    } else {
        i
    }
}

fn find_name_end(s: &Vec<char>, i: usize) -> (r: usize)
    requires
        i <= s@.len(),
    ensures
        i <= r <= s@.len(),
        r == name_end(s@, i as int),
{
    let mut k: usize = i;
    while k < s.len() && !is_name_end(s[k])
        invariant
            i <= k <= s@.len(),
            name_end(s@, k as int) == name_end(s@, i as int),
        decreases s@.len() - k,
    {
        k += 1;
    }
    k
}

/// Where the end tag of an element that holds text begins, from `i` on; the end of the text where
/// there is none.
pub open spec fn text_end(s: Seq<char>, name: Seq<char>, i: int) -> int
    decreases s.len() - i,
{
    if i < 0 || i >= s.len() {
        s.len() as int
    } else if occurs_at(s, "</"@ + name, i) && i + 2 + name.len() < s.len() && ends_name(
        s[i + 2 + name.len()],
    ) {
        i
    } else {
        text_end(s, name, i + 1)
    }
}

fn find_text_end(s: &Vec<char>, name: &str, i: usize) -> (r: usize)
    requires
        i <= s@.len(),
    ensures
        i <= r <= s@.len(),
        r == text_end(s@, name@, i as int),
        r < s@.len() ==> r + 2 + name@.len() < s@.len(),
{
    proof {
        reveal_strlit("</");
    }
    let mut tag = copy("</");
    tag.append(name);
    let n = tag.as_str().unicode_len();
    let mut k: usize = i;
    while k < s.len()
        invariant
            i <= k <= s@.len(),
            tag@ == "</"@ + name@,
            n == 2 + name@.len(),
            text_end(s@, name@, k as int) == text_end(s@, name@, i as int),
        decreases s@.len() - k,
    {
        if s[k] == '<' && is_at(s, tag.as_str(), k) && n < s.len() - k && is_name_end(s[k + n]) {
            return k;
        }
        assert(s@[k as int] != '<' ==> !occurs_at(s@, tag@, k as int)) by {
            reveal_strlit("</");
            if occurs_at(s@, tag@, k as int) {
                assert(s@.subrange(k as int, k + tag@.len())[0] == tag@[0]);
            }
        }
        k += 1;
    }
    k
}

/// The first position from `i` on that holds no zero.
pub open spec fn behind_zeros(s: Seq<char>, i: int) -> int
    decreases s.len() - i,
{
    if 0 <= i < s.len() && s[i] == '0' {
        behind_zeros(s, i + 1)
    } else {
        i
    }
}

fn skip_zeros(s: &Vec<char>, i: usize) -> (r: usize)
    requires
        i <= s@.len(),
    ensures
        r == behind_zeros(s@, i as int),
        i <= r <= s@.len(),
{
    let mut k: usize = i;
    while k < s.len() && s[k] == '0'
        invariant
            i <= k <= s@.len(),
            behind_zeros(s@, k as int) == behind_zeros(s@, i as int),
        decreases s@.len() - k,
    {
        k += 1;
    }
    k
}

/// Whether a reference to a character by its number, in either notation, may stand at `i`.
pub open spec fn reference_at(s: Seq<char>, i: int, hex: Seq<char>, dec: Seq<char>) -> bool {
    occurs_at(s, "&#"@, i) && if either_at(s, i + 2, 'x', 'x') {
        occurs_at(s, hex, behind_zeros(s, i + 3))
    } else {
        occurs_at(s, dec, behind_zeros(s, i + 2))
    }
}

fn is_reference_at(s: &Vec<char>, i: usize, hex: &str, dec: &str) -> (r: bool)
    requires
        i < s@.len(),
    ensures
        r == reference_at(s@, i as int, hex@, dec@),
{
    proof {
        reveal_strlit("&#");
        if occurs_at(s@, "&#"@, i as int) {
            assert(s@.subrange(i as int, i + 2)[0] == "&#"@[0]);
        }
    }
    let n = s.len();
    if s[i] != '&' || !is_at(s, "&#", i) {
        return false;
    }
    if n - i > 2 && s[i + 2] == 'x' {
        is_at(s, hex, skip_zeros(s, i + 3))
    } else {
        is_at(s, dec, skip_zeros(s, i + 2))
    }
}

/// Whether a character stands at `i` that asks for the picture of the one before, which is then shown
/// wider than it is counted.
pub open spec fn mark_at(s: Seq<char>, i: int) -> bool {
    either_at(s, i, '\u{fe0f}', '\u{fe0f}') || reference_at(s, i, "fe0f"@, "65039"@)
}

fn is_mark_at(s: &Vec<char>, i: usize) -> (r: bool)
    requires
        i < s@.len(),
    ensures
        r == mark_at(s@, i as int),
{
    s[i] == '\u{fe0f}' || is_reference_at(s, i, "fe0f", "65039")
}

/// Whether such a character stands from `a` on before `b`.
pub open spec fn mark_between(s: Seq<char>, a: int, b: int) -> bool {
    exists|i: int| a <= i < b && #[trigger] mark_at(s, i)
}

fn has_mark(s: &Vec<char>, a: usize, b: usize) -> (r: bool)
    requires
        b <= s@.len(),
    ensures
        r == mark_between(s@, a as int, b as int),
{
    let mut i: usize = a;
    while i < b
        invariant
            a <= i,
            i <= b || i == a,
            b <= s@.len(),
            forall|k: int| a <= k < i ==> !#[trigger] mark_at(s@, k),
        decreases b - i,
    {
        if is_mark_at(s, i) {
            return true;
        }
        i += 1;
    }
    false
}

/// Whether a tab may stand at `i`.
pub open spec fn tab_at(s: Seq<char>, i: int) -> bool {
    either_at(s, i, '\t', '\t') || occurs_at(s, "&tab"@, i) || reference_at(s, i, "9"@, "9"@)
}

fn is_tab_at(s: &Vec<char>, i: usize) -> (r: bool)
    requires
        i < s@.len(),
    ensures
        r == tab_at(s@, i as int),
{
    proof {
        reveal_strlit("&tab");
        reveal_strlit("&#");
        if occurs_at(s@, "&tab"@, i as int) {
            assert(s@.subrange(i as int, i + 4)[0] == "&tab"@[0]);
        }
        if occurs_at(s@, "&#"@, i as int) {
            assert(s@.subrange(i as int, i + 2)[0] == "&#"@[0]);
        }
    }
    s[i] == '\t' || (s[i] == '&' && (is_at(s, "&tab", i) || is_reference_at(s, i, "9", "9")))
}

/// Whether a tab may stand from `a` on before `b`.
pub open spec fn tab_between(s: Seq<char>, a: int, b: int) -> bool {
    exists|i: int| a <= i < b && #[trigger] tab_at(s, i)
}

fn has_tab(s: &Vec<char>, a: usize, b: usize) -> (r: bool)
    requires
        b <= s@.len(),
    ensures
        r == tab_between(s@, a as int, b as int),
{
    let mut i: usize = a;
    while i < b
        invariant
            a <= i,
            i <= b || i == a,
            b <= s@.len(),
            forall|k: int| a <= k < i ==> !#[trigger] tab_at(s@, k),
        decreases b - i,
    {
        if is_tab_at(s, i) {
            return true;
        }
        i += 1;
    }
    false
}

/// Whether a text begins from `a` on before `b`.
pub open spec fn begins_between(s: Seq<char>, p: Seq<char>, a: int, b: int) -> bool {
    find_from(s, p, a) matches Some(i) && i < b
}

fn does_begin_between(s: &Vec<char>, p: &str, a: usize, b: usize) -> (r: bool)
    ensures
        r == begins_between(s@, p@, a as int, b as int),
{
    match find_next(s, &to_chars(p), a) {
        Some(i) => i < b,
        None => false,
    }
}

/// Whether an element may have a name of its own, by which it is referred to, from `a` on before `b`.
pub open spec fn name_between(s: Seq<char>, a: int, b: int) -> bool {
    begins_between(s, "id"@, a, b) || begins_between(s, "name"@, a, b)
}

fn has_name_between(s: &Vec<char>, a: usize, b: usize) -> (r: bool)
    ensures
        r == name_between(s@, a as int, b as int),
{
    does_begin_between(s, "id", a, b) || does_begin_between(s, "name", a, b)
}

/// Where reading stands in markup.
pub struct Reading {
    /// The position.
    pub at: int,
    /// The names of the elements that are open.
    pub open: Seq<Seq<char>>,
    /// Where the current word began at the earliest.
    pub word: int,
    /// Whether a link was ended without an end tag.
    pub stray: bool,
    /// How many elements may still be open at most that were ended without an end tag.
    pub left: int,
    /// Where the table began that is open.
    pub table: int,
    /// Whether that table has elements that add to its text.
    pub mixed: bool,
    /// Whether that table has characters that are shown wider than they are counted.
    pub marked: bool,
}

/// Whether an open element ends with the element around it when that is closed.
pub open spec fn ends_with(inner: Seq<char>, name: Seq<char>) -> bool {
    ||| (inner == "a"@ || inner == "span"@) && listed(name, CLOSING_ELEMENTS@)
    ||| inner == "p"@ && listed(name, CLOSING_BLOCKS@)
}

/// The position of the open element that an end tag closes; none where it closes none.
pub open spec fn closed_at(open: Seq<Seq<char>>, name: Seq<char>) -> Option<int>
    decreases open.len(),
{
    if open.len() == 0 {
        None
    } else if open.last() == name {
        Some(open.len() - 1)
    } else if ends_with(open.last(), name) {
        closed_at(open.drop_last(), name)
    } else {
        None
    }
}

/// Reading behind an end tag. Where the element that it ends is not open any more, the elements within
/// it stay open; and where a paragraph does, so may those around it.
pub open spec fn closed(r: Reading, name: Seq<char>) -> Reading {
    match closed_at(r.open, name) {
        Some(k) => {
            let past = r.open.skip(k + 1);
            Reading {
                open: r.open.take(k),
                stray: r.stray || past.contains("a"@),
                left: r.left + if past.contains("p"@) {
                    r.open.len()
                } else {
                    past.len()
                },
                ..r
            }
        },
        None => r,
    }
}

/// Whether reading is within a drawing.
pub open spec fn drawing(open: Seq<Seq<char>>) -> bool {
    open.len() > 0 && open.last() == "svg"@
}

/// The position behind the one that is given, as far as there is one.
pub open spec fn behind(s: Seq<char>, i: int) -> int {
    if i < s.len() {
        i + 1
    } else {
        s.len() as int
    }
}

/// Reading behind the end of one of two elements, where an end tag of the one, or else of the other,
/// would close an element.
pub open spec fn closed_either(r: Reading, a: Seq<char>, b: Seq<char>) -> Reading {
    if closed_at(r.open, a) is Some {
        closed(r, a)
    } else {
        closed(r, b)
    }
}

/// Reading where a start tag has closed the elements that it ends: a paragraph ends a paragraph, an
/// item an item, a cell a cell, and a row a row with its cell.
pub open spec fn ended_by(r: Reading, name: Seq<char>) -> Reading {
    if name == "p"@ || name == "li"@ {
        closed(r, name)
    } else if name == "dd"@ || name == "dt"@ {
        closed_either(r, "dd"@, "dt"@)
    } else if name == "td"@ || name == "th"@ {
        closed_either(r, "td"@, "th"@)
    } else if name == "tr"@ {
        closed(closed_either(r, "td"@, "th"@), name)
    } else {
        r
    }
}

/// Reading behind the start tag at its position; none where it cannot be told what follows.
pub open spec fn after_start(s: Seq<char>, r: Reading) -> Option<Reading> {
    let end = name_end(s, r.at + 1);
    let name = s.subrange(r.at + 1, end);
    let (close, slash) = tag_end(s, end, TagPart::Name);
    let next = Reading { at: behind(s, close), ..r };
    if close >= s.len() {
        Some(next)
    } else if drawing(r.open) {
        if name == "image"@ && slash {
            Some(next)
        } else {
            None
        }
    } else if listed(name, ODD_ELEMENTS@) {
        None
    } else if listed(name, TEXT_ELEMENTS@) {
        let e = text_end(s, name, close + 1);
        if name == "script"@ && (find_from(s, "<!--"@, close + 1) matches Some(i) && i < e) {
            None
        } else if e >= s.len() {
            Some(Reading { at: s.len() as int, ..r })
        } else {
            Some(Reading { at: behind(s, tag_end(s, e + 2 + name.len(), TagPart::Name).0), ..r })
        }
    } else if listed(name, ROOT_ELEMENTS@) || listed(name, EMPTY_ELEMENTS@) {
        Some(next)
    } else {
        let ended = ended_by(next, name);
        Some(Reading { open: ended.open.push(name), ..ended })
    }
}

/// Reading behind the end tag at its position; none where it cannot be told what follows.
pub open spec fn after_end(s: Seq<char>, r: Reading) -> Option<Reading> {
    let end = name_end(s, r.at + 2);
    let name = s.subrange(r.at + 2, end);
    let (close, slash) = tag_end(s, end, TagPart::Name);
    let next = Reading { at: behind(s, close), ..r };
    if close >= s.len() {
        Some(next)
    } else if drawing(r.open) {
        if name == "svg"@ {
            Some(Reading { open: r.open.drop_last(), ..next })
        } else {
            None
        }
    } else {
        Some(closed(next, name))
    }
}

/// Reading behind the comment at its position; none where it ends in an unusual way.
pub open spec fn after_comment(s: Seq<char>, r: Reading) -> Option<Reading> {
    let i = r.at + 4;
    if either_at(s, i, '>', '>') || occurs_at(s, "->"@, i) {
        None
    } else {
        match (find_from(s, "-->"@, i), find_from(s, "--!>"@, i)) {
            (Some(e), Some(b)) => if b < e {
                None
            } else {
                Some(Reading { at: e + 3, ..r })
            },
            (Some(e), None) => Some(Reading { at: e + 3, ..r }),
            (None, Some(_)) => None,
            (None, None) => Some(Reading { at: s.len() as int, ..r }),
        }
    }
}

/// Whether the character is a letter of a name in lower case.
pub open spec fn letter_at(s: Seq<char>, i: int) -> bool {
    0 <= i < s.len() && 'a' <= s[i] <= 'z'
}

/// Reading one step on; none where it cannot be told what follows.
pub open spec fn step(s: Seq<char>, r: Reading) -> Option<Reading> {
    let i = r.at;
    if s[i] != '<' {
        let apart = white_space(s[i]) && !r.stray && !r.open.contains("a"@);
        Some(
            Reading {
                at: i + 1,
                word: if apart {
                    i + 1
                } else {
                    r.word
                },
                ..r
            },
        )
    } else if letter_at(s, i + 1) {
        after_start(s, r)
    } else if either_at(s, i + 1, '/', '/') && letter_at(s, i + 2) {
        after_end(s, r)
    } else if occurs_at(s, "<!--"@, i) {
        after_comment(s, r)
    } else if either_at(s, i + 1, '!', '!') && drawing(r.open) {
        None
    } else if either_at(s, i + 1, '/', '?') || either_at(s, i + 1, '!', '!') {
        match find_from(s, ">"@, i) {
            Some(e) => Some(Reading { at: e + 1, ..r }),
            None => Some(Reading { at: s.len() as int, ..r }),
        }
    } else {
        Some(Reading { at: i + 1, ..r })
    }
}

/// How many start tags there may be from `i` on.
pub open spec fn starts_from(s: Seq<char>, i: int) -> nat
    decreases s.len() - i,
{
    if i < 0 || i >= s.len() {
        0
    } else {
        starts_from(s, i + 1) + if s[i] == '<' && letter_at(s, i + 1) {
            1nat
        } else {
            0nat
        }
    }
}

/// How often `p` stands in the text from `i` on.
pub open spec fn occurrences_from(s: Seq<char>, p: Seq<char>, i: int) -> nat
    decreases s.len() - i,
{
    if i < 0 || i >= s.len() {
        0
    } else {
        occurrences_from(s, p, i + 1) + if occurs_at(s, p, i) {
            1nat
        } else {
            0nat
        }
    }
}

/// How many of the open elements have that name.
pub open spec fn count_of(open: Seq<Seq<char>>, name: Seq<char>) -> nat
    decreases open.len(),
{
    if open.len() == 0 {
        0
    } else {
        count_of(open.drop_last(), name) + if open.last() == name {
            1nat
        } else {
            0nat
        }
    }
}

/// Whether no start tag stands at `i` that adds to the text of a table.
pub open spec fn plain_at(s: Seq<char>, i: int) -> bool {
    letter_at(s, i + 1) ==> listed(s.subrange(i + 1, name_end(s, i + 1)), PLAIN_ELEMENTS@)
}

/// Reading one step on, with what is known of the table that is open; none where it cannot be told
/// what follows.
pub open spec fn advance(s: Seq<char>, r: Reading) -> Option<Reading> {
    match step(s, r) {
        Some(next) => {
            let within = r.open.contains("table"@);
            if s[r.at] != '<' {
                Some(Reading { marked: r.marked || (mark_at(s, r.at) && within), ..next })
            } else {
                Some(
                    Reading {
                        table: if within {
                            r.table
                        } else {
                            r.at
                        },
                        mixed: within && (r.mixed || !plain_at(s, r.at)),
                        marked: within && next.open.contains("table"@) && (r.marked
                            || mark_between(s, r.at, next.at)),
                        ..next
                    },
                )
            }
        },
        None => None,
    }
}

/// How many elements may be open.
pub open spec fn nesting_limit(wide: bool) -> int {
    if wide {
        MAX_WIDE_NESTING as int
    } else {
        MAX_NESTING as int
    }
}

/// Whether no more elements are open than may be and, where some characters may be `wide`, the word
/// and the table that are read are short enough, and such a table is plain.
pub open spec fn bounded(r: Reading, wide: bool) -> bool {
    &&& r.open.len() <= nesting_limit(wide)
    &&& r.left <= MAX_LEFT_OPEN
    &&& count_of(r.open, "dl"@) <= MAX_LISTS
    &&& wide ==> r.at - r.word <= MAX_WORD_CHARS
    &&& wide && r.marked ==> !r.mixed && r.at - r.table <= MAX_WIDE_TABLE_CHARS
}

/// Whether an element is open, or may be opened later.
pub open spec fn may_be_open(s: Seq<char>, r: Reading, name: Seq<char>) -> bool {
    r.open.contains(name) || find_from(s, "<"@ + name, r.at) is Some
}

/// Whether the rest of the markup is within all bounds when no element in it counts as closed and no
/// word as ended.
pub open spec fn rest_bounded(s: Seq<char>, r: Reading, wide: bool) -> bool {
    &&& r.open.len() + starts_from(s, r.at) <= nesting_limit(wide)
    &&& count_of(r.open, "dl"@) + occurrences_from(s, "<dl"@, r.at) <= MAX_LISTS
    &&& wide ==> s.len() - r.word <= MAX_WORD_CHARS && !may_be_open(s, r, "table"@)
    &&& may_be_open(s, r, "table"@) && may_be_open(s, r, "pre"@) ==> !tab_between(
        s,
        r.at,
        s.len() as int,
    ) && !name_between(s, r.at, s.len() as int)
}

/// Whether reading comes by a tab, or by an element with a name of its own, in preformatted text in a
/// table.
pub open spec fn unfit(s: Seq<char>, r: Reading, end: int) -> bool {
    &&& r.open.contains("table"@)
    &&& r.open.contains("pre"@)
    &&& tab_between(s, r.at, end) || (s[r.at] == '<' && name_between(s, r.at, end))
}

/// Whether the markup stays within all bounds, from a place of reading on: those of `bounded`, and
/// that nothing unfit stands in preformatted text in a table.
pub open spec fn well_nested(s: Seq<char>, r: Reading, wide: bool) -> bool
    decreases s.len() - r.at,
{
    if !bounded(r, wide) {
        false
    } else if r.at < 0 || r.at >= s.len() {
        true
    } else {
        match advance(s, r) {
            Some(next) => {
                &&& r.at < next.at <= s.len()
                &&& !unfit(s, r, next.at)
                &&& well_nested(s, next, wide)
            },
            None => rest_bounded(s, r, wide),
        }
    }
}

/// Reading at the beginning.
pub open spec fn beginning() -> Reading {
    Reading {
        at: 0,
        open: seq![],
        word: 0,
        stray: false,
        left: 0,
        table: 0,
        mixed: false,
        marked: false,
    }
}

/// Whether markup can be laid out. What is left out is markup on which the layout fails or does not
/// end, and some more: spans of columns that do not add up, numbers of list items past the greatest,
/// tables with too many cells, too deep a nesting, words that are wider than a line once they are
/// shown, and, in preformatted text in a table, tabs and elements with names of their own.
pub open spec fn renderable(markup: Seq<char>) -> bool {
    let s = lowered(markup);
    let spans = attribute_count(s, "colspan"@, s.len());
    &&& s.len() <= MAX_MARKUP_CHARS
    &&& short_numbers(s, "colspan"@, MAX_SPAN_DIGITS as int)
    &&& short_numbers(s, "start"@, MAX_START_DIGITS as int)
    &&& (s.len() + 10_000 * spans) * (spans + 1) <= usize::MAX
    &&& occurrences_from(s, "<td"@, 0) + occurrences_from(s, "<th"@, 0) <= MAX_CELLS
    &&& well_nested(s, beginning(), mark_between(s, 0, s.len() as int))
}

/// Where reading stands in markup.
struct Reader {
    at: usize,
    open: Vec<String>,
    word: usize,
    stray: bool,
    left: usize,
    table: usize,
    mixed: bool,
    marked: bool,
}

impl Reader {
    spec fn reading(self) -> Reading {
        Reading {
            at: self.at as int,
            open: texts(self.open@),
            word: self.word as int,
            stray: self.stray,
            left: self.left as int,
            table: self.table as int,
            mixed: self.mixed,
            marked: self.marked,
        }
    }

    /// Whether the word and the table began before the position.
    spec fn valid(self, s: Seq<char>) -> bool {
        self.word <= self.at <= s.len() && self.table <= self.at
    }

    /// Whether no more elements are open, and left open, than may be.
    spec fn sparse(self) -> bool {
        self.open@.len() <= MAX_NESTING && self.left <= MAX_LEFT_OPEN
    }
}

fn does_end_with(inner: &str, name: &str) -> (r: bool)
    ensures
        r == ends_with(inner@, name@),
{
    ((same(inner, "a") || same(inner, "span")) && is_listed(name, CLOSING_ELEMENTS)) || (same(
        inner,
        "p",
    ) && is_listed(name, CLOSING_BLOCKS))
}

fn find_closed(open: &Vec<String>, name: &str) -> (r: Option<usize>)
    ensures
        match closed_at(texts(open@), name@) {
            Some(k) => r matches Some(i) && i == k && k < open@.len(),
            None => r is None,
        },
{
    let ghost views = texts(open@);
    let mut k: usize = open.len();
    assert(views.take(k as int) =~= views);
    while k > 0
        invariant
            k <= open@.len(),
            views == texts(open@),
            closed_at(views, name@) == closed_at(views.take(k as int), name@),
        decreases k,
    {
        let ghost now = views.take(k as int);
        assert(now.last() == open@[k - 1]@);
        assert(now.drop_last() =~= views.take(k - 1));
        if same(open[k - 1].as_str(), name) {
            return Some(k - 1);
        }
        if !does_end_with(open[k - 1].as_str(), name) {
            return None;
        }
        k -= 1;
    }
    None
}

fn has_name(open: &Vec<String>, from: usize, name: &str) -> (r: bool)
    requires
        from <= open@.len(),
    ensures
        r == texts(open@).skip(from as int).contains(name@),
{
    let ghost rest = texts(open@).skip(from as int);
    let mut i: usize = from;
    while i < open.len()
        invariant
            from <= i <= open@.len(),
            rest == texts(open@).skip(from as int),
            forall|k: int| 0 <= k < i - from ==> #[trigger] rest[k] != name@,
        decreases open@.len() - i,
    {
        assert(rest[i - from] == open@[i as int]@);
        if same(open[i].as_str(), name) {
            return true;
        }
        i += 1;
    }
    false
}

impl Reader {
    /// Reads on behind an end tag.
    fn close(&mut self, name: &str)
        requires
            old(self).left + old(self).open@.len() <= usize::MAX,
        ensures
            final(self).reading() == closed(old(self).reading(), name@),
            final(self).at == old(self).at,
            final(self).open@.len() <= old(self).open@.len(),
            final(self).left <= old(self).left + old(self).open@.len(),
    {
        let ghost views = texts(self.open@);
        if let Some(k) = find_closed(&self.open, name) {
            let n = self.open.len();
            assert(k < n);
            if has_name(&self.open, k + 1, "a") {
                self.stray = true;
            }
            self.left = self.left + if has_name(&self.open, k + 1, "p") {
                n
            } else {
                n - k - 1
            };
            self.open.truncate(k);
            assert(texts(self.open@) =~= views.take(k as int));
        }
    }

    fn has_open(&self, name: &str) -> (r: bool)
        ensures
            r == self.reading().open.contains(name@),
    {
        assert(texts(self.open@).skip(0) =~= texts(self.open@));
        has_name(&self.open, 0, name)
    }

    fn close_either(&mut self, a: &str, b: &str)
        requires
            old(self).left + old(self).open@.len() <= usize::MAX,
        ensures
            final(self).reading() == closed_either(old(self).reading(), a@, b@),
            final(self).at == old(self).at,
            final(self).open@.len() <= old(self).open@.len(),
            final(self).left <= old(self).left + old(self).open@.len(),
    {
        if find_closed(&self.open, a).is_some() {
            self.close(a);
        } else {
            self.close(b);
        }
    }

    /// Closes the elements that a start tag ends.
    fn end_by(&mut self, name: &str)
        requires
            old(self).sparse(),
        ensures
            final(self).reading() == ended_by(old(self).reading(), name@),
            final(self).at == old(self).at,
            final(self).open@.len() <= old(self).open@.len(),
    {
        if same(name, "p") || same(name, "li") {
            self.close(name);
        } else if same(name, "dd") || same(name, "dt") {
            self.close_either("dd", "dt");
        } else if same(name, "td") || same(name, "th") {
            self.close_either("td", "th");
        } else if same(name, "tr") {
            self.close_either("td", "th");
            self.close("tr");
        }
    }

    fn is_drawing(&self) -> (r: bool)
        ensures
            r == drawing(self.reading().open),
    {
        let n = self.open.len();
        if n == 0 {
            return false;
        }
        assert(texts(self.open@).last() == self.open@[n - 1]@);
        same(self.open[n - 1].as_str(), "svg")
    }

    /// Reads on to the position behind `i`.
    fn go_behind(&mut self, s: &Vec<char>, i: usize)
        requires
            i <= s@.len(),
        ensures
            final(self).reading() == (Reading { at: behind(s@, i as int), ..old(self).reading() }),
            i <= final(self).at <= s@.len(),
            i < s@.len() ==> final(self).at == i + 1,
            final(self).open == old(self).open,
    {
        self.at = if i < s.len() {
            i + 1
        } else {
            i
        };
    }

    /// Reads on behind the start tag; says whether it can be told what follows.
    fn read_start(&mut self, s: &Vec<char>) -> (r: bool)
        requires
            old(self).at + 1 < s@.len(),
            old(self).sparse(),
        ensures
            r == (after_start(s@, old(self).reading()) is Some),
            r ==> Some(final(self).reading()) == after_start(s@, old(self).reading()),
            r ==> old(self).at < final(self).at <= s@.len(),
            !r ==> final(self).reading() == old(self).reading(),
            r ==> final(self).open@.len() <= old(self).open@.len() + 1,
    {
        let n = s.len();
        assert(self.at + 1 < n);
        let begin = self.at + 1;
        let end = find_name_end(s, begin);
        let name = from_chars(s, begin, end);
        let (close, slash) = find_tag_end(s, end);
        if close >= s.len() {
            self.go_behind(s, close);
            return true;
        }
        if self.is_drawing() {
            if same(name.as_str(), "image") && slash {
                self.go_behind(s, close);
                return true;
            }
            return false;
        }
        if is_listed(name.as_str(), ODD_ELEMENTS) {
            return false;
        }
        if is_listed(name.as_str(), TEXT_ELEMENTS) {
            let e = find_text_end(s, name.as_str(), close + 1);
            if same(name.as_str(), "script") {
                if let Some(i) = find_next(s, &to_chars("<!--"), close + 1) {
                    if i < e {
                        return false;
                    }
                }
            }
            if e >= s.len() {
                self.at = s.len();
                return true;
            }
            let (last, _) = find_tag_end(s, e + 2 + name.as_str().unicode_len());
            self.go_behind(s, last);
            return true;
        }
        self.go_behind(s, close);
        if is_listed(name.as_str(), ROOT_ELEMENTS) || is_listed(name.as_str(), EMPTY_ELEMENTS) {
            return true;
        }
        self.end_by(name.as_str());
        let ghost views = texts(self.open@);
        self.open.push(name);
        assert(texts(self.open@) =~= views.push(name@));
        true
    }

    /// Reads on behind the end tag; says whether it can be told what follows.
    fn read_end(&mut self, s: &Vec<char>) -> (r: bool)
        requires
            old(self).at + 2 < s@.len(),
            old(self).sparse(),
        ensures
            r == (after_end(s@, old(self).reading()) is Some),
            r ==> Some(final(self).reading()) == after_end(s@, old(self).reading()),
            r ==> old(self).at < final(self).at <= s@.len(),
            !r ==> final(self).reading() == old(self).reading(),
            r ==> final(self).open@.len() <= old(self).open@.len(),
    {
        let n = s.len();
        assert(self.at + 2 < n);
        let begin = self.at + 2;
        let end = find_name_end(s, begin);
        let name = from_chars(s, begin, end);
        let (close, _) = find_tag_end(s, end);
        if close >= s.len() {
            self.go_behind(s, close);
            return true;
        }
        if self.is_drawing() {
            if !same(name.as_str(), "svg") {
                return false;
            }
            let ghost views = texts(self.open@);
            self.go_behind(s, close);
            self.open.pop();
            assert(texts(self.open@) =~= views.drop_last());
            return true;
        }
        self.go_behind(s, close);
        self.close(name.as_str());
        true
    }

    /// Reads on behind the comment; says whether it ends in a usual way.
    fn read_comment(&mut self, s: &Vec<char>) -> (r: bool)
        requires
            old(self).at + 4 <= s@.len(),
        ensures
            r == (after_comment(s@, old(self).reading()) is Some),
            r ==> Some(final(self).reading()) == after_comment(s@, old(self).reading()),
            r ==> old(self).at < final(self).at <= s@.len(),
            !r ==> final(self).reading() == old(self).reading(),
            final(self).open == old(self).open,
    {
        proof {
            reveal_strlit("-->");
        }
        let n = s.len();
        assert(self.at + 4 <= n);
        let i = self.at + 4;
        if (i < s.len() && s[i] == '>') || is_at(s, "->", i) {
            return false;
        }
        let end = find_next(s, &to_chars("-->"), i);
        let bang = find_next(s, &to_chars("--!>"), i);
        match (end, bang) {
            (Some(e), Some(b)) => {
                if b < e {
                    return false;
                }
                self.at = e + 3;
            },
            (Some(e), None) => {
                self.at = e + 3;
            },
            (None, Some(_)) => {
                return false;
            },
            (None, None) => {
                self.at = s.len();
            },
        }
        true
    }

    /// Reads one step on; says whether it can be told what follows.
    fn read(&mut self, s: &Vec<char>) -> (r: bool)
        requires
            old(self).word <= old(self).at < s@.len(),
            old(self).sparse(),
        ensures
            final(self).word <= final(self).at,
            r == (step(s@, old(self).reading()) is Some),
            r ==> Some(final(self).reading()) == step(s@, old(self).reading()),
            r ==> old(self).at < final(self).at <= s@.len(),
            !r ==> final(self).reading() == old(self).reading(),
            r ==> final(self).open@.len() <= old(self).open@.len() + 1,
    {
        proof {
            reveal_strlit("<!--");
            reveal_strlit(">");
        }
        let n = s.len();
        let i = self.at;
        if s[i] != '<' {
            if is_white_space(s[i]) && !self.stray && !self.has_open("a") {
                self.word = i + 1;
            }
            self.at = i + 1;
            return true;
        }
        if n - i > 1 && 'a' <= s[i + 1] && s[i + 1] <= 'z' {
            return self.read_start(s);
        }
        if n - i > 2 && s[i + 1] == '/' && 'a' <= s[i + 2] && s[i + 2] <= 'z' {
            return self.read_end(s);
        }
        if is_at(s, "<!--", i) {
            return self.read_comment(s);
        }
        if n - i > 1 && s[i + 1] == '!' && self.is_drawing() {
            return false;
        }
        if n - i > 1 && (s[i + 1] == '/' || s[i + 1] == '?' || s[i + 1] == '!') {
            match find_next(s, &to_chars(">"), i) {
                Some(e) => {
                    self.at = e + 1;
                },
                None => {
                    self.at = n;
                },
            }
            return true;
        }
        self.at = i + 1;
        true
    }
}

fn count_starts(s: &Vec<char>, from: usize) -> (r: usize)
    requires
        from <= s@.len(),
    ensures
        r == starts_from(s@, from as int),
        r <= s@.len() - from,
{
    let n = s.len();
    let mut count: usize = 0;
    let mut i: usize = n;
    while i > from
        invariant
            from <= i <= n,
            n == s@.len(),
            count <= n - i,
            count == starts_from(s@, i as int),
        decreases i,
    {
        i -= 1;
        if s[i] == '<' && n - i > 1 && 'a' <= s[i + 1] && s[i + 1] <= 'z' {
            count += 1;
        }
    }
    count
}

fn count_occurrences(s: &Vec<char>, p: &str, from: usize) -> (r: usize)
    requires
        from <= s@.len(),
    ensures
        r == occurrences_from(s@, p@, from as int),
        r <= s@.len() - from,
{
    let n = s.len();
    let mut count: usize = 0;
    let mut i: usize = from;
    let pattern = to_chars(p);
    while i < n
        invariant
            from <= i <= n,
            n == s@.len(),
            pattern@ == p@,
            count <= i - from,
            count + occurrences_from(s@, p@, i as int) == occurrences_from(s@, p@, from as int),
        decreases n - i,
    {
        match find_next(s, &pattern, i) {
            Some(k) => {
                proof {
                    lemma_no_occurrences(s@, p@, i as int, k as int);
                }
                if k >= n {
                    return count;
                }
                count += 1;
                i = k + 1;
            },
            None => {
                proof {
                    lemma_no_occurrences(s@, p@, i as int, n as int);
                }
                return count;
            },
        }
    }
    count
}

/// Positions at which `p` does not stand add nothing.
proof fn lemma_no_occurrences(s: Seq<char>, p: Seq<char>, i: int, k: int)
    requires
        0 <= i <= k <= s.len(),
        find_from(s, p, i) == Some(k) || find_from(s, p, i) is None,
    ensures
        occurrences_from(s, p, i) == occurrences_from(s, p, k),
        find_from(s, p, i) == Some(k) && k < s.len() ==> occurrences_from(s, p, k) == 1
            + occurrences_from(s, p, k + 1),
    decreases k - i,
{
    lemma_find_from(s, p, i);
    if i < k {
        assert(!occurs_at(s, p, i));
        if i + p.len() > s.len() {
            lemma_find_from(s, p, i + 1);
            assert(find_from(s, p, i + 1) is None);
        }
        lemma_no_occurrences(s, p, i + 1, k);
    }
}

fn count_lists(open: &Vec<String>) -> (r: usize)
    ensures
        r == count_of(texts(open@), "dl"@),
        r <= open@.len(),
{
    let ghost views = texts(open@);
    let mut count: usize = 0;
    let mut i: usize = 0;
    assert(views.take(0) =~= seq![]);
    while i < open.len()
        invariant
            i <= open@.len(),
            views == texts(open@),
            count <= i,
            count == count_of(views.take(i as int), "dl"@),
        decreases open@.len() - i,
    {
        proof {
            assert(views.take(i + 1).drop_last() =~= views.take(i as int));
            assert(views.take(i + 1).last() == open@[i as int]@);
        }
        if same(open[i].as_str(), "dl") {
            count += 1;
        }
        i += 1;
    }
    assert(views.take(i as int) =~= views);
    count
}

impl Reader {
    /// Reads one step on and keeps what is known of the table that is open; says whether it can be
    /// told what follows.
    fn go_on(&mut self, s: &Vec<char>) -> (r: bool)
        requires
            old(self).valid(s@),
            old(self).sparse(),
            old(self).at < s@.len(),
        ensures
            r == (advance(s@, old(self).reading()) is Some),
            r ==> Some(final(self).reading()) == advance(s@, old(self).reading()),
            r ==> old(self).at < final(self).at,
            r && s@[old(self).at as int] != '<' ==> final(self).reading().open == old(
                self,
            ).reading().open,
            !r ==> final(self).reading() == old(self).reading(),
            final(self).valid(s@),
    {
        let i = self.at;
        let n = s.len();
        if s[i] != '<' {
            if !self.read(s) {
                return false;
            }
            if is_mark_at(s, i) && self.has_open("table") {
                self.marked = true;
            }
            return true;
        }
        let within = self.has_open("table");
        if !self.read(s) {
            return false;
        }
        let mut plain = true;
        if n - i > 1 && 'a' <= s[i + 1] && s[i + 1] <= 'z' {
            let end = find_name_end(s, i + 1);
            plain = is_listed(from_chars(s, i + 1, end).as_str(), PLAIN_ELEMENTS);
        }
        if !within {
            self.table = i;
        }
        self.mixed = within && (self.mixed || !plain);
        self.marked = within && (self.marked || has_mark(s, i, self.at)) && self.has_open(
            "table",
        );
        true
    }

    fn is_bounded(&self, s: &Vec<char>, lists: usize, wide: bool) -> (r: bool)
        requires
            self.valid(s@),
            lists == count_of(self.reading().open, "dl"@),
        ensures
            r == bounded(self.reading(), wide),
    {
        let limit = if wide {
            MAX_WIDE_NESTING
        } else {
            MAX_NESTING
        };
        self.open.len() <= limit && self.left <= MAX_LEFT_OPEN && lists <= MAX_LISTS && (!wide || (self.at - self.word
            <= MAX_WORD_CHARS && (!self.marked || (!self.mixed && self.at - self.table
            <= MAX_WIDE_TABLE_CHARS))))
    }

    fn may_open(&self, s: &Vec<char>, name: &str) -> (r: bool)
        ensures
            r == may_be_open(s@, self.reading(), name@),
    {
        let mut tag = copy("<");
        tag.append(name);
        self.has_open(name) || find_next(s, &to_chars(tag.as_str()), self.at).is_some()
    }

    fn is_rest_bounded(&self, s: &Vec<char>, wide: bool) -> (r: bool)
        requires
            self.valid(s@),
        ensures
            r == rest_bounded(s@, self.reading(), wide),
    {
        let n = s.len();
        let limit = if wide {
            MAX_WIDE_NESTING
        } else {
            MAX_NESTING
        };
        let starts = count_starts(s, self.at);
        if self.open.len() > limit || starts > limit - self.open.len() {
            return false;
        }
        let lists = count_lists(&self.open);
        let more = count_occurrences(s, "<dl", self.at);
        if lists > MAX_LISTS || more > MAX_LISTS - lists {
            return false;
        }
        let table = self.may_open(s, "table");
        if wide && (n - self.word > MAX_WORD_CHARS || table) {
            return false;
        }
        !(table && self.may_open(s, "pre") && (has_tab(s, self.at, n) || has_name_between(
            s,
            self.at,
            n,
        )))
    }
}

fn is_well_nested(s: &Vec<char>, wide: bool) -> (r: bool)
    ensures
        r == well_nested(s@, beginning(), wide),
{
    let mut reader = Reader {
        at: 0,
        open: Vec::new(),
        word: 0,
        stray: false,
        left: 0,
        table: 0,
        mixed: false,
        marked: false,
    };
    let mut lists: usize = 0;
    assert(reader.reading().open =~= beginning().open);
    while reader.at < s.len()
        invariant
            reader.valid(s@),
            lists == count_of(reader.reading().open, "dl"@),
            well_nested(s@, reader.reading(), wide) == well_nested(s@, beginning(), wide),
        decreases s@.len() - reader.at,
    {
        if !reader.is_bounded(s, lists, wide) {
            return false;
        }
        let ghost before = reader.reading();
        let i = reader.at;
        let tagged = s[i] == '<';
        let narrow = tagged && reader.has_open("pre") && reader.has_open("table");
        if !tagged && is_tab_at(s, i) && reader.has_open("pre") && reader.has_open("table") {
            proof {
                assert(step(s@, before) is Some);
                assert(tab_at(s@, i as int));
            }
            return false;
        }
        if !reader.go_on(s) {
            return reader.is_rest_bounded(s, wide);
        }
        if narrow && (has_tab(s, i, reader.at) || has_name_between(s, i, reader.at)) {
            return false;
        }
        if tagged {
            lists = count_lists(&reader.open);
        }
        assert(well_nested(s@, before, wide) == well_nested(s@, reader.reading(), wide));
    }
    reader.is_bounded(s, lists, wide)
}

/// Whether markup can be laid out.
pub fn is_renderable(markup: &str) -> (r: bool)
    ensures
        r == renderable(markup@),
{
    proof {
        reveal_strlit("colspan");
        reveal_strlit("start");
    }
    let s = lower_chars(markup);
    if s.len() > MAX_MARKUP_CHARS {
        return false;
    }
    let spans = match check_numbers(&s, "colspan", MAX_SPAN_DIGITS) {
        Some(n) => n as u128,
        None => return false,
    };
    if check_numbers(&s, "start", MAX_START_DIGITS).is_none() {
        return false;
    }
    let columns = s.len() as u128 + 10_000 * spans;
    assert(columns * (spans + 1) <= 0x1_0000_0000_0000 * 0x1000_0001) by (nonlinear_arith)
        requires
            columns <= 0x1_0000_0000_0000,
            spans <= 0x1000_0000,
    ;
    if columns * (spans + 1) > usize::MAX as u128 {
        return false;
    }
    let cells = count_occurrences(&s, "<td", 0);
    if cells > MAX_CELLS || count_occurrences(&s, "<th", 0) > MAX_CELLS - cells {
        return false;
    }
    let wide = has_mark(&s, 0, s.len());
    is_well_nested(&s, wide)
}

proof fn lemma_name_end(s: Seq<char>, i: int)
    requires
        0 <= i <= s.len(),
    ensures
        i <= name_end(s, i) <= s.len(),
    decreases s.len() - i,
{
    if i < s.len() && !ends_name(s[i]) {
        lemma_name_end(s, i + 1);
    }
}

proof fn lemma_tag_end(s: Seq<char>, i: int, part: TagPart)
    requires
        0 <= i <= s.len(),
    ensures
        i <= tag_end(s, i, part).0 <= s.len(),
    decreases s.len() - i,
{
    if i < s.len() {
        if let Some(p) = next_part(part, s[i]) {
            lemma_tag_end(s, i + 1, p);
        }
    }
}

proof fn lemma_text_end(s: Seq<char>, name: Seq<char>, i: int)
    requires
        0 <= i <= s.len(),
    ensures
        i <= text_end(s, name, i) <= s.len(),
        text_end(s, name, i) < s.len() ==> text_end(s, name, i) + 2 + name.len() < s.len(),
    decreases s.len() - i,
{
    if i < s.len() {
        lemma_text_end(s, name, i + 1);
    }
}

proof fn lemma_starts(s: Seq<char>, i: int, j: int)
    requires
        0 <= i <= j <= s.len(),
    ensures
        starts_from(s, j) <= starts_from(s, i),
        i < j && s[i] == '<' && letter_at(s, i + 1) ==> starts_from(s, j) < starts_from(s, i),
    decreases j - i,
{
    if i < j {
        lemma_starts(s, i + 1, j);
    }
}

proof fn lemma_starts_are_counted(s: Seq<char>, i: int, has: spec_fn(int) -> bool)
    requires
        0 <= i <= s.len(),
        forall|k: int|
            0 <= k < s.len() ==> #[trigger] has(k) == (s[k] == '<' && letter_at(s, k + 1)),
    ensures
        positions(i as nat, has).len() + starts_from(s, i) == positions(s.len(), has).len(),
    decreases s.len() - i,
{
    if i < s.len() {
        lemma_starts_are_counted(s, i + 1, has);
        lemma_positions_step(i as nat, has);
        assert(has(i) == (s[i] == '<' && letter_at(s, i + 1)));
    }
}

proof fn lemma_few_occurrences(s: Seq<char>, p: Seq<char>, i: int)
    requires
        0 <= i <= s.len(),
        p.len() >= 2,
        p[0] == '<',
        'a' <= p[1] <= 'z',
    ensures
        occurrences_from(s, p, i) <= starts_from(s, i),
    decreases s.len() - i,
{
    if i < s.len() {
        lemma_few_occurrences(s, p, i + 1);
        if occurs_at(s, p, i) {
            assert(s.subrange(i, i + p.len())[0] == p[0]);
            assert(s.subrange(i, i + p.len())[1] == p[1]);
        }
    }
}

proof fn lemma_count_of(open: Seq<Seq<char>>, name: Seq<char>)
    ensures
        count_of(open, name) <= open.len(),
    decreases open.len(),
{
    if open.len() > 0 {
        lemma_count_of(open.drop_last(), name);
    }
}

proof fn lemma_no_attributes(s: Seq<char>, name: Seq<char>, n: nat)
    requires
        find_from(s, name, 0) is None,
    ensures
        attribute_count(s, name, n) == 0,
        forall|i: int| !#[trigger] attribute_at(s, name, i),
    decreases n,
{
    lemma_find_from(s, name, 0);
    if n > 0 {
        lemma_no_attributes(s, name, (n - 1) as nat);
    }
    assert forall|i: int| !#[trigger] attribute_at(s, name, i) by {
        if 0 <= i {
            assert(!occurs_at(s, name, i));
        }
    }
}

/// Whether reading has come by so few start tags that no bound is near.
spec fn calm(s: Seq<char>, r: Reading) -> bool {
    &&& 0 <= r.at <= s.len()
    &&& 0 <= r.left
    &&& r.open.len() + starts_from(s, r.at) <= 50
    &&& r.left + 50 * (r.open.len() + starts_from(s, r.at)) <= 2500
    &&& !r.open.contains("table"@)
}

/// Whether `c` is `r` with fewer elements open, and no more of them left open than that makes up for.
spec fn eased(r: Reading, c: Reading) -> bool {
    &&& c.at == r.at
    &&& c.open.len() <= r.open.len()
    &&& r.left <= c.left
    &&& c.left + 50 * c.open.len() <= r.left + 50 * r.open.len()
    &&& !r.open.contains("table"@) ==> !c.open.contains("table"@)
}

proof fn lemma_closed_at(open: Seq<Seq<char>>, name: Seq<char>)
    ensures
        closed_at(open, name) matches Some(k) ==> 0 <= k < open.len(),
    decreases open.len(),
{
    if open.len() > 0 {
        lemma_closed_at(open.drop_last(), name);
    }
}

proof fn lemma_closing_eases(r: Reading, name: Seq<char>)
    requires
        r.open.len() <= 50,
    ensures
        eased(r, closed(r, name)),
{
    lemma_closed_at(r.open, name);
    if let Some(k) = closed_at(r.open, name) {
        let c = closed(r, name);
        if c.open.contains("table"@) {
            let i = c.open.index_of("table"@);
            assert(r.open[i] == "table"@);
        }
    }
}

proof fn lemma_ending_eases(r: Reading, name: Seq<char>)
    requires
        r.open.len() <= 50,
    ensures
        eased(r, ended_by(r, name)),
{
    lemma_closing_eases(r, name);
    lemma_closing_eases(r, "dd"@);
    lemma_closing_eases(r, "dt"@);
    lemma_closing_eases(r, "td"@);
    lemma_closing_eases(r, "th"@);
    lemma_closing_eases(closed_either(r, "td"@, "th"@), name);
}

proof fn lemma_starts_stay_calm(s: Seq<char>, r: Reading)
    requires
        calm(s, r),
        r.at < s.len(),
        s[r.at] == '<',
        letter_at(s, r.at + 1),
        find_from(s, "<table"@, 0) is None,
    ensures
        after_start(s, r) matches Some(next) ==> r.at < next.at && calm(s, next),
{
    let end = name_end(s, r.at + 1);
    let name = s.subrange(r.at + 1, end);
    lemma_name_end(s, r.at + 1);
    lemma_tag_end(s, end, TagPart::Name);
    let close = tag_end(s, end, TagPart::Name).0;
    let next = Reading { at: behind(s, close), ..r };
    lemma_starts(s, r.at, behind(s, close));
    lemma_starts(s, r.at, s.len() as int);
    assert(name != "table"@) by {
        reveal_strlit("<table");
        reveal_strlit("table");
        lemma_find_from(s, "<table"@, 0);
        assert(!occurs_at(s, "<table"@, r.at));
        if name == "table"@ {
            assert(s.subrange(r.at, r.at + 6) =~= "<table"@) by {
                assert forall|k: int| 0 <= k < 6 implies #[trigger] s.subrange(r.at, r.at + 6)[k]
                    == "<table"@[k] by {
                    if k > 0 {
                        assert(s[r.at + k] == name[k - 1]);
                    }
                }
            }
        }
    }
    if close < s.len() {
        let e = text_end(s, name, close + 1);
        lemma_text_end(s, name, close + 1);
        if e < s.len() {
            lemma_tag_end(s, e + 2 + name.len(), TagPart::Name);
            lemma_starts(
                s,
                r.at,
                behind(s, tag_end(s, e + 2 + name.len(), TagPart::Name).0),
            );
        }
        lemma_ending_eases(next, name);
        let ended = ended_by(next, name);
        let pushed = ended.open.push(name);
        if pushed.contains("table"@) {
            let i = pushed.index_of("table"@);
            if i < ended.open.len() {
                assert(ended.open[i] == "table"@);
            }
        }
    }
}

proof fn lemma_ends_stay_calm(s: Seq<char>, r: Reading)
    requires
        calm(s, r),
        r.at + 2 < s.len(),
    ensures
        after_end(s, r) matches Some(next) ==> r.at < next.at && calm(s, next),
{
    let end = name_end(s, r.at + 2);
    let name = s.subrange(r.at + 2, end);
    lemma_name_end(s, r.at + 2);
    lemma_tag_end(s, end, TagPart::Name);
    let close = tag_end(s, end, TagPart::Name).0;
    let next = Reading { at: behind(s, close), ..r };
    lemma_starts(s, r.at, behind(s, close));
    lemma_closing_eases(next, name);
    if drawing(r.open) {
        let less = r.open.drop_last();
        if less.contains("table"@) {
            let i = less.index_of("table"@);
            assert(r.open[i] == "table"@);
        }
    }
}

proof fn lemma_steps_stay_calm(s: Seq<char>, r: Reading)
    requires
        calm(s, r),
        r.at < s.len(),
        find_from(s, "<table"@, 0) is None,
    ensures
        step(s, r) matches Some(next) ==> r.at < next.at && calm(s, next),
{
    let i = r.at;
    lemma_starts(s, i, i + 1);
    lemma_starts(s, i, s.len() as int);
    if s[i] == '<' {
        if letter_at(s, i + 1) {
            lemma_starts_stay_calm(s, r);
        } else if either_at(s, i + 1, '/', '/') && letter_at(s, i + 2) {
            lemma_ends_stay_calm(s, r);
        } else {
            reveal_strlit("-->");
            reveal_strlit(">");
            lemma_find_from(s, "-->"@, i + 4);
            lemma_find_from(s, ">"@, i);
            if let Some(e) = find_from(s, "-->"@, i + 4) {
                lemma_starts(s, i, e + 3);
            }
            if let Some(e) = find_from(s, ">"@, i) {
                lemma_starts(s, i, e + 1);
            }
        }
    }
}

proof fn lemma_calm_is_well_nested(s: Seq<char>, r: Reading)
    requires
        calm(s, r),
        find_from(s, "<table"@, 0) is None,
    ensures
        well_nested(s, r, false),
    decreases s.len() - r.at,
{
    lemma_count_of(r.open, "dl"@);
    if r.at < s.len() {
        lemma_steps_stay_calm(s, r);
        match advance(s, r) {
            Some(next) => {
                lemma_calm_is_well_nested(s, next);
            },
            None => {
                reveal_strlit("<dl");
                lemma_few_occurrences(s, "<dl"@, r.at);
                reveal_strlit("<");
                reveal_strlit("table");
                reveal_strlit("<table");
                assert("<"@ + "table"@ =~= "<table"@);
                lemma_find_from(s, "<table"@, 0);
                lemma_find_from(s, "<table"@, r.at);
            },
        }
    }
}

/// Markup can be laid out where it has at most fifty start tags, in either case, and none of what can
/// be too much: tables, spans and numbers of lists, and characters that are shown wider than they are.
pub proof fn law_small_sections_can_be_laid_out(markup: Seq<char>, s: Seq<char>)
    requires
        s == markup.map_values(|c: char| ascii_lower(c)),
        s.len() <= 0x1000_0000,
        positions(
            s.len(),
            |i: int| s[i] == '<' && i + 1 < s.len() && 'a' <= s[i + 1] <= 'z',
        ).len() <= 50,
        find_from(s, "<table"@, 0) is None,
        find_from(s, "colspan"@, 0) is None,
        find_from(s, "start"@, 0) is None,
        find_from(s, "&#"@, 0) is None,
        !s.contains('\u{fe0f}'),
    ensures
        renderable(markup),
{
    let has = |i: int| s[i] == '<' && i + 1 < s.len() && 'a' <= s[i + 1] <= 'z';
    assert(lowered(markup) =~= s);
    lemma_starts_are_counted(s, 0, has);
    lemma_no_attributes(s, "colspan"@, s.len());
    lemma_no_attributes(s, "start"@, s.len());
    reveal_strlit("<td");
    reveal_strlit("<th");
    lemma_few_occurrences(s, "<td"@, 0);
    lemma_few_occurrences(s, "<th"@, 0);
    lemma_find_from(s, "&#"@, 0);
    assert forall|i: int| 0 <= i < s.len() implies !#[trigger] mark_at(s, i) by {
        assert(!occurs_at(s, "&#"@, i));
        assert(s.contains(s[i]));
    }
    lemma_calm_is_well_nested(s, beginning());
}

} // verus!
