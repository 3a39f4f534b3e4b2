//! The regular expressions of the library: what each fixed pattern finds, and patterns that the
//! user supplies.

use crate::search::{lemma_until, lemma_until_unique, until};
use crate::text::{copy, leading, lemma_leading, lemma_leading_unique, white_space, CharClass};
use vstd::prelude::*;

verus! {

/// A quotation in curly or corner quotation marks.
pub const DIALOGUE_PATTERN: &'static str = "“[^”]*”|「[^」]*」";

/// A line that begins with a chapter number.
pub const HEADING_PATTERN: &'static str =
    "(?m)^\\s*第[0-9零一二三四五六七八九十百千万]+[章回卷节].*";

/// A speaker tag at the start of a text: a name, and in parentheses a label.
pub const TAG_PATTERN: &'static str =
    "^<<([^<>（）()|]{1,50})(?:[（(]([^（）()<>|]{1,10})[）)])?>>";

/// A book title in title marks.
pub const TITLE_PATTERN: &'static str = "《([^》]+)》";

/// Decorative runs of stars and number signs, left out by default.
pub const MARKS_PATTERN: &'static str = "\\*{3,}|#{2,}";

/// The end of the quotation that begins at position `i`; none where no quotation begins there.
pub open spec fn quote_end(s: Seq<char>, i: int) -> Option<int> {
    if 0 <= i < s.len() && (s[i] == '“' || s[i] == '「') {
        let close = if s[i] == '“' { '”' } else { '」' };
        let n = until(s.skip(i + 1), close) as int;
        if i + 1 + n < s.len() {
            Some(i + n + 2)
        } else {
            None
        }
    } else {
        None
    }
}

/// Whether `c` is a numeral of a chapter number.
pub open spec fn heading_numeral(c: char) -> bool {
    ('0' <= c <= '9') || c == '零' || c == '一' || c == '二' || c == '三' || c == '四' || c == '五'
        || c == '六' || c == '七' || c == '八' || c == '九' || c == '十' || c == '百' || c == '千' || c
        == '万'
}

/// How many numerals stand at the start of `s`.
pub open spec fn numerals(s: Seq<char>) -> nat
    decreases s.len(),
{
    if s.len() > 0 && heading_numeral(s[0]) {
        1 + numerals(s.skip(1))
    } else {
        0
    }
}

/// Whether a line is a chapter heading: after white space, `第`, a number, and a unit.
pub open spec fn heading(line: Seq<char>) -> bool {
    let k = leading(line, CharClass::Space) as int;
    let n = numerals(line.skip(k + 1)) as int;
    let u = k + 1 + n;
    &&& k < line.len()
    &&& line[k] == '第'
    &&& n >= 1
    &&& u < line.len()
    &&& (line[u] == '章' || line[u] == '回' || line[u] == '卷' || line[u] == '节')
}

/// Whether `c` can stand in a speaker tag's name or label.
pub open spec fn tag_char(c: char) -> bool {
    c != '<' && c != '>' && c != '（' && c != '）' && c != '(' && c != ')' && c != '|'
}

/// How many characters at the start of `s` can stand in a name or label.
pub open spec fn tag_chars(s: Seq<char>) -> nat
    decreases s.len(),
{
    if s.len() > 0 && tag_char(s[0]) {
        1 + tag_chars(s.skip(1))
    } else {
        0
    }
}

/// A speaker tag: the whole tag, the name, and the label where there is one.
pub struct TagView {
    pub full: Seq<char>,
    pub name: Seq<char>,
    pub label: Option<Seq<char>>,
}

/// Whether `>>` stands in `s` at position `i`.
pub open spec fn closes_tag(s: Seq<char>, i: int) -> bool {
    i + 2 <= s.len() && s[i] == '>' && s[i + 1] == '>'
}

/// The speaker tag at the start of a text: `<<name>>` or `<<name(label)>>`, with half-width or
/// full-width parentheses, a name of 1 to 50 and a label of 1 to 10 characters.
pub open spec fn tag_at_start(s: Seq<char>) -> Option<TagView> {
    let n = tag_chars(s.skip(2)) as int;
    let a = 2 + n;
    let m = tag_chars(s.skip(a + 1)) as int;
    let b = a + 1 + m;
    if !(s.len() >= 2 && s[0] == '<' && s[1] == '<' && 1 <= n <= 50) {
        None
    } else if closes_tag(s, a) {
        Some(TagView { full: s.take(a + 2), name: s.subrange(2, a), label: None })
    } else if a < s.len() && (s[a] == '（' || s[a] == '(') && 1 <= m <= 10 && b < s.len() && (s[b]
        == '）' || s[b] == ')') && closes_tag(s, b + 1) {
        Some(
            TagView {
                full: s.take(b + 3),
                name: s.subrange(2, a),
                label: Some(s.subrange(a + 1, b)),
            },
        )
    } else {
        None
    }
}

/// The title in title marks that begin at position `i`; none where no such title begins there.
pub open spec fn marked_title_at(s: Seq<char>, i: int) -> Option<Seq<char>> {
    if 0 <= i < s.len() && s[i] == '《' {
        let n = until(s.skip(i + 1), '》') as int;
        if n >= 1 && i + 1 + n < s.len() {
            Some(s.subrange(i + 1, i + 1 + n))
        } else {
            None
        }
    } else {
        None
    }
}

/// How many times `c` stands at the start of `s`.
pub open spec fn run(s: Seq<char>, c: char) -> nat
    decreases s.len(),
{
    if s.len() > 0 && s[0] == c {
        1 + run(s.skip(1), c)
    } else {
        0
    }
}

proof fn lemma_run(s: Seq<char>, c: char)
    ensures
        run(s, c) <= s.len(),
    decreases s.len(),
{
    if s.len() > 0 && s[0] == c {
        lemma_run(s.skip(1), c);
    }
}

/// `s` without runs of three or more stars and of two or more number signs.
pub open spec fn without_marks(s: Seq<char>) -> Seq<char>
    decreases s.len(),
    via without_marks_decreases
{
    if s.len() == 0 {
        seq![]
    } else if run(s, '*') >= 3 {
        without_marks(s.skip(run(s, '*') as int))
    } else if run(s, '#') >= 2 {
        without_marks(s.skip(run(s, '#') as int))
    } else if s[0] == '*' {
        s.take(run(s, '*') as int) + without_marks(s.skip(run(s, '*') as int))
    } else {
        seq![s[0]] + without_marks(s.skip(1))
    }
}

#[via_fn]
proof fn without_marks_decreases(s: Seq<char>) {
    lemma_run(s, '*');
    lemma_run(s, '#');
}

/// What the regex crate says is wrong with a pattern; none where it compiles.
pub uninterp spec fn regex_error(pattern: Seq<char>, ignore_case: bool) -> Option<Seq<char>>;

/// What the regex crate finds first: the text before the match, the match, and the text after.
pub uninterp spec fn regex_found(pattern: Seq<char>, text: Seq<char>) -> Option<
    (Seq<char>, Seq<char>, Seq<char>),
>;

/// Whether the regex crate finds a match.
pub uninterp spec fn regex_matches(pattern: Seq<char>, text: Seq<char>) -> bool;

/// The groups of the regex crate's first match.
pub uninterp spec fn regex_groups(pattern: Seq<char>, text: Seq<char>) -> Option<
    Seq<Option<Seq<char>>>,
>;

/// The text that the regex crate gives when it replaces every match.
pub uninterp spec fn regex_replaced(
    pattern: Seq<char>,
    ignore_case: bool,
    text: Seq<char>,
    replacement: Seq<char>,
) -> Seq<char>;

/// The views of a match's groups.
pub open spec fn group_views(groups: Seq<Option<String>>) -> Seq<Option<Seq<char>>> {
    Seq::new(
        groups.len(),
        |i: int|
            match groups[i] {
                Some(g) => Some(g@),
                None => None,
            },
    )
}

/// `regex::RegexBuilder::build`: the message of the error that compiling the pattern gives, none
/// where it compiles. The pattern of decorative marks compiles.
#[verifier::external_body]
fn pattern_error(pattern: &str, ignore_case: bool) -> (r: Option<String>)
    ensures
        r matches Some(e) ==> regex_error(pattern@, ignore_case) == Some(e@),
        r is None ==> regex_error(pattern@, ignore_case) is None,
        pattern@ == MARKS_PATTERN@ && !ignore_case ==> r is None,
{
    regex::RegexBuilder::new(pattern).case_insensitive(ignore_case).build().err().map(
        |e| e.to_string(),
    )
}

/// `regex::Regex::find`: the leftmost match, with what stands before and after it; none where
/// nothing matches or the pattern does not compile. For the pattern of quotations the match is the
/// leftmost quotation.
#[verifier::external_body]
pub(crate) fn find_match(pattern: &str, text: &str) -> (r: Option<(String, String, String)>)
    ensures
        r matches Some((a, m, b)) ==> regex_found(pattern@, text@) == Some((a@, m@, b@)) && text@
            == a@ + m@ + b@,
        r is None ==> regex_found(pattern@, text@) is None,
        pattern@ == DIALOGUE_PATTERN@ ==> match r {
            Some((a, m, b)) => quote_end(text@, a@.len() as int) == Some((a@.len() + m@.len()) as int)
                && forall|i: int| 0 <= i < a@.len() ==> #[trigger] quote_end(text@, i) is None,
            None => forall|i: int| 0 <= i < text@.len() ==> #[trigger] quote_end(text@, i) is None,
        },
{
    let re = regex::Regex::new(pattern).ok()?;
    let m = re.find(text)?;
    Some((text[..m.start()].to_string(), m.as_str().to_string(), text[m.end()..].to_string()))
}

/// `regex::Regex::is_match`: whether the pattern matches somewhere in the text; not where the
/// pattern does not compile. The pattern of headings matches a single line exactly when it is a
/// heading.
#[verifier::external_body]
pub(crate) fn has_match(pattern: &str, text: &str) -> (r: bool)
    ensures
        r == regex_matches(pattern@, text@),
        pattern@ == HEADING_PATTERN@ && !text@.contains('\n') ==> r == heading(text@),
{
    match regex::Regex::new(pattern) {
        Ok(re) => re.is_match(text),
        Err(_) => false,
    }
}

/// `regex::Regex::captures`: the groups of the leftmost match, the whole match first; none where
/// nothing matches or the pattern does not compile. The pattern of speaker tags finds the tag at
/// the start of the text, its name and its label; the pattern of titles finds the leftmost title.
#[verifier::external_body]
pub(crate) fn match_groups(pattern: &str, text: &str) -> (r: Option<Vec<Option<String>>>)
    ensures
        r matches Some(g) ==> regex_groups(pattern@, text@) == Some(group_views(g@)),
        r is None ==> regex_groups(pattern@, text@) is None,
        pattern@ == TAG_PATTERN@ ==> match r {
            Some(g) => tag_at_start(text@) matches Some(t) && group_views(g@) == seq![
                Some(t.full),
                Some(t.name),
                t.label,
            ],
            None => tag_at_start(text@) is None,
        },
        pattern@ == TITLE_PATTERN@ ==> match r {
            Some(g) => g@.len() == 2 && exists|i: int|
                #[trigger] marked_title_at(text@, i) is Some && group_views(g@)[1]
                    == marked_title_at(text@, i) && forall|j: int|
                    0 <= j < i ==> #[trigger] marked_title_at(text@, j) is None,
            None => forall|i: int|
                0 <= i < text@.len() ==> #[trigger] marked_title_at(text@, i) is None,
        },
{
    let re = regex::Regex::new(pattern).ok()?;
    let groups = re.captures(text)?;
    Some(groups.iter().map(|g| g.map(|m| m.as_str().to_string())).collect())
}

/// `regex::Regex::replace_all`: the text with every match replaced, `$0` in the replacement
/// standing for the match; the text itself where the pattern does not compile. Replacing
/// decorative marks by nothing takes out their runs.
#[verifier::external_body]
fn replace_matches(pattern: &str, ignore_case: bool, text: &str, replacement: &str) -> (r: String)
    ensures
        r@ == regex_replaced(pattern@, ignore_case, text@, replacement@),
        pattern@ == MARKS_PATTERN@ && !ignore_case && replacement@.len() == 0 ==> r@
            == without_marks(text@),
{
    match regex::RegexBuilder::new(pattern).case_insensitive(ignore_case).build() {
        Ok(re) => re.replace_all(text, replacement).to_string(),
        Err(_) => text.to_string(),
    }
}

/// A pattern that compiles.
pub struct Pattern {
    source: String,
    ignore_case: bool,
}

impl Pattern {
    #[verifier::type_invariant]
    spec fn compiles(self) -> bool {
        regex_error(self.source@, self.ignore_case) is None
    }

    /// The pattern's text.
    pub closed spec fn text(self) -> Seq<char> {
        self.source@
    }

    /// Whether the pattern matches letters of either case.
    pub closed spec fn any_case(self) -> bool {
        self.ignore_case
    }

    /// `text` with every match replaced.
    pub open spec fn replaced(self, text: Seq<char>, replacement: Seq<char>) -> Seq<char> {
        regex_replaced(self.text(), self.any_case(), text, replacement)
    }

    /// Compiles a pattern; the error is the regex crate's message.
    pub fn compile(source: &str, ignore_case: bool) -> (r: Result<Pattern, String>)
        ensures
            r matches Ok(p) ==> regex_error(source@, ignore_case) is None && p.text() == source@
                && p.any_case() == ignore_case,
            r matches Err(e) ==> regex_error(source@, ignore_case) == Some(e@),
            source@ == MARKS_PATTERN@ && !ignore_case ==> r is Ok,
    {
        match pattern_error(source, ignore_case) {
            Some(e) => Err(e),
            None => Ok(Pattern { source: copy(source), ignore_case }),
        }
    }

    /// Replaces every match in `text`.
    pub fn replace_all(&self, text: &str, replacement: &str) -> (r: String)
        ensures
            r@ == self.replaced(text@, replacement@),
            self.text() == MARKS_PATTERN@ && !self.any_case() && replacement@.len() == 0 ==> r@
                == without_marks(text@),
    {
        replace_matches(self.source.as_str(), self.ignore_case, text, replacement)
    }

    /// The pattern of what to leave out: the given one, or that of decorative marks where the
    /// given one does not compile.
    pub fn ignored(source: &str) -> (r: Pattern)
        ensures
            !r.any_case(),
            r.text() == if regex_error(source@, false) is None {
                source@
            } else {
                MARKS_PATTERN@
            },
    {
        match Pattern::compile(source, false) {
            Ok(p) => p,
            Err(_) => match Pattern::compile(MARKS_PATTERN, false) {
                Ok(p) => p,
                Err(_) => {
                    assert(false);
                    Pattern { source: copy(source), ignore_case: false }
                },
            },
        }
    }
}

proof fn lemma_numerals(s: Seq<char>)
    ensures
        numerals(s) <= s.len(),
        forall|i: int| 0 <= i < numerals(s) ==> heading_numeral(#[trigger] s[i]),
        numerals(s) < s.len() ==> !heading_numeral(s[numerals(s) as int]),
    decreases s.len(),
{
    if s.len() > 0 && heading_numeral(s[0]) {
        let t = s.skip(1);
        lemma_numerals(t);
        assert forall|i: int| 0 <= i < numerals(s) implies heading_numeral(#[trigger] s[i]) by {
            if i > 0 {
                assert(s[i] == t[i - 1]);
            }
        }
    }
}

/// A line is a heading exactly where, behind white space alone, `第` stands with at least one numeral
/// behind it and then a unit: chapter, part, volume or section. What follows does not matter.
pub proof fn law_headings_are_numbered(line: Seq<char>)
    ensures
        heading(line) <==> exists|k: int, u: int|
            {
                &&& 0 <= k && k + 1 < u < line.len()
                &&& forall|i: int| 0 <= i < k ==> white_space(#[trigger] line[i])
                &&& #[trigger] line[k] == '第'
                &&& forall|i: int|
                    k < i < u ==> "0123456789零一二三四五六七八九十百千万"@.contains(
                        #[trigger] line[i],
                    )
                &&& #[trigger] "章回卷节"@.contains(line[u])
            },
{
    reveal_strlit("0123456789零一二三四五六七八九十百千万");
    reveal_strlit("章回卷节");
    let numbers = "0123456789零一二三四五六七八九十百千万"@;
    let units = "章回卷节"@;
    assert forall|c: char| #[trigger] numbers.contains(c) == heading_numeral(c) by {
        lemma_numbers(c);
    }
    assert forall|c: char| #[trigger] units.contains(c) == (c == '章' || c == '回' || c == '卷' || c
        == '节') by {
        assert(units[0] == '章' && units[1] == '回' && units[2] == '卷' && units[3] == '节');
        assert(units.len() == 4);
    }
    lemma_leading(line, CharClass::Space);
    if heading(line) {
        let k = leading(line, CharClass::Space) as int;
        let rest = line.skip(k + 1);
        lemma_numerals(rest);
        let u = k + 1 + numerals(rest);
        assert forall|i: int| k < i < u implies numbers.contains(#[trigger] line[i]) by {
            assert(line[i] == rest[i - k - 1]);
        }
        assert(line[k] == '第' && units.contains(line[u]));
    }
    if exists|k: int, u: int|
        {
            &&& 0 <= k && k + 1 < u < line.len()
            &&& forall|i: int| 0 <= i < k ==> white_space(#[trigger] line[i])
            &&& #[trigger] line[k] == '第'
            &&& forall|i: int| k < i < u ==> numbers.contains(#[trigger] line[i])
            &&& #[trigger] units.contains(line[u])
        } {
        let (k, u) = choose|k: int, u: int|
            {
                &&& 0 <= k && k + 1 < u < line.len()
                &&& forall|i: int| 0 <= i < k ==> white_space(#[trigger] line[i])
                &&& #[trigger] line[k] == '第'
                &&& forall|i: int| k < i < u ==> numbers.contains(#[trigger] line[i])
                &&& #[trigger] units.contains(line[u])
            };
        assert forall|i: int| 0 <= i < k implies CharClass::Space.has(#[trigger] line[i]) by {}
        lemma_leading_unique(line, CharClass::Space, k);
        let rest = line.skip(k + 1);
        lemma_numerals(rest);
        let n = numerals(rest) as int;
        if n < u - k - 1 {
            assert(rest[n] == line[k + 1 + n]);
            assert(numbers.contains(line[k + 1 + n]));
        }
        if n > u - k - 1 {
            assert(rest[u - k - 1] == line[u]);
        }
    }
}

proof fn lemma_numbers(c: char)
    ensures
        "0123456789零一二三四五六七八九十百千万"@.contains(c) == heading_numeral(c),
{
    reveal_strlit("0123456789零一二三四五六七八九十百千万");
    let s = "0123456789零一二三四五六七八九十百千万"@;
    assert(s.len() == 24);
    assert(s[0] == '0' && s[1] == '1' && s[2] == '2' && s[3] == '3' && s[4] == '4' && s[5] == '5'
        && s[6] == '6' && s[7] == '7' && s[8] == '8' && s[9] == '9');
    assert(s[10] == '零' && s[11] == '一' && s[12] == '二' && s[13] == '三' && s[14] == '四' && s[15]
        == '五' && s[16] == '六' && s[17] == '七' && s[18] == '八' && s[19] == '九' && s[20] == '十' && s[21]
        == '百' && s[22] == '千' && s[23] == '万');
    if s.contains(c) {
        let i = s.index_of(c);
        assert(s[i] == c);
    }
}

proof fn lemma_tag_chars(s: Seq<char>, n: int)
    requires
        0 <= n <= s.len(),
        forall|i: int| 0 <= i < n ==> tag_char(#[trigger] s[i]),
        n < s.len() ==> !tag_char(s[n]),
    ensures
        tag_chars(s) == n,
    decreases n,
{
    if n > 0 {
        let t = s.skip(1);
        assert(tag_char(s[0]));
        assert forall|i: int| 0 <= i < n - 1 implies tag_char(#[trigger] t[i]) by {
            assert(t[i] == s[i + 1]);
        }
        lemma_tag_chars(t, n - 1);
    }
}

proof fn lemma_tag_chars_are(s: Seq<char>)
    ensures
        tag_chars(s) <= s.len(),
        forall|i: int| 0 <= i < tag_chars(s) ==> tag_char(#[trigger] s[i]),
    decreases s.len(),
{
    if s.len() > 0 && tag_char(s[0]) {
        let t = s.skip(1);
        lemma_tag_chars_are(t);
        assert forall|i: int| 0 <= i < tag_chars(s) implies tag_char(#[trigger] s[i]) by {
            if i > 0 {
                assert(s[i] == t[i - 1]);
            }
        }
    }
}

/// Whether a text has between one and `most` characters, none of which has a meaning in tags.
pub open spec fn tag_text(s: Seq<char>, most: nat) -> bool {
    &&& 1 <= s.len() <= most
    &&& forall|i: int|
        0 <= i < s.len() ==> #[trigger] s[i] != '<' && s[i] != '>' && s[i] != '（' && s[i] != '）'
            && s[i] != '(' && s[i] != ')' && s[i] != '|'
}

/// A name in double angle brackets at the start of a text is a tag of that name, with a label where
/// one stands in parentheses behind the name, whatever follows.
pub proof fn law_tags_are_read(
    name: Seq<char>,
    opening: char,
    label: Seq<char>,
    closing: char,
    rest: Seq<char>,
)
    requires
        tag_text(name, 50),
        tag_text(label, 10),
        opening == '(' || opening == '（',
        closing == ')' || closing == '）',
    ensures
        ({
            let plain = seq!['<', '<'] + name + seq!['>', '>'];
            tag_at_start(plain + rest) == Some(TagView { full: plain, name, label: None })
        }),
        ({
            let full = seq!['<', '<'] + name + seq![opening] + label + seq![closing, '>', '>'];
            tag_at_start(full + rest) == Some(TagView { full, name, label: Some(label) })
        }),
{
    let plain = seq!['<', '<'] + name + seq!['>', '>'];
    let s = plain + rest;
    let n = name.len() as int;
    assert(s.skip(2).len() >= n);
    assert forall|i: int| 0 <= i < n implies tag_char(#[trigger] s.skip(2)[i]) by {
        assert(s.skip(2)[i] == name[i]);
    }
    assert(s.skip(2)[n] == '>');
    lemma_tag_chars(s.skip(2), n);
    assert(s.take(n + 4) =~= plain);
    assert(s.subrange(2, 2 + n) =~= name);
    let full = seq!['<', '<'] + name + seq![opening] + label + seq![closing, '>', '>'];
    let t = full + rest;
    let m = label.len() as int;
    assert forall|i: int| 0 <= i < n implies tag_char(#[trigger] t.skip(2)[i]) by {
        assert(t.skip(2)[i] == name[i]);
    }
    assert(t.skip(2)[n] == opening);
    lemma_tag_chars(t.skip(2), n);
    let behind = t.skip(n + 3);
    assert forall|i: int| 0 <= i < m implies tag_char(#[trigger] behind[i]) by {
        assert(behind[i] == label[i]);
    }
    assert(behind[m] == closing);
    lemma_tag_chars(behind, m);
    assert(t[n + 2] == opening);
    assert(t[n + 3 + m] == closing);
    assert(t[n + 4 + m] == '>' && t[n + 5 + m] == '>');
    assert(t.take(n + m + 6) =~= full);
    assert(t.subrange(2, 2 + n) =~= name);
    assert(t.subrange(n + 3, n + 3 + m) =~= label);
}

/// A tag that is read stands at the start of the text as it is written: its name, and its label in
/// parentheses where it has one, in double angle brackets.
pub proof fn law_only_tags_are_read(s: Seq<char>)
    ensures
        tag_at_start(s) matches Some(t) ==> {
            &&& t.full.is_prefix_of(s)
            &&& tag_text(t.name, 50)
            &&& t.label is None ==> t.full == seq!['<', '<'] + t.name + seq!['>', '>']
            &&& t.label matches Some(l) ==> tag_text(l, 10) && exists|a: char, b: char|
                (a == '(' || a == '（') && (b == ')' || b == '）') && t.full == seq!['<', '<']
                    + t.name + #[trigger] seq![a] + l + #[trigger] seq![b, '>', '>']
        },
{
    if let Some(t) = tag_at_start(s) {
        let n = tag_chars(s.skip(2)) as int;
        let a = 2 + n;
        lemma_tag_chars_are(s.skip(2));
        assert forall|i: int| 0 <= i < t.name.len() implies tag_char(#[trigger] t.name[i]) by {
            assert(t.name[i] == s.skip(2)[i]);
        }
        if let Some(l) = t.label {
            let rest = s.skip(a + 1);
            let m = tag_chars(rest) as int;
            let b = a + 1 + m;
            lemma_tag_chars_are(rest);
            assert forall|i: int| 0 <= i < l.len() implies tag_char(#[trigger] l[i]) by {
                assert(l[i] == rest[i]);
            }
            assert(t.full =~= seq!['<', '<'] + t.name + seq![s[a]] + l + seq![s[b], '>', '>']);
        } else {
            assert(t.full =~= seq!['<', '<'] + t.name + seq!['>', '>']);
        }
    }
}

/// A title stands between title marks: it begins behind the opening one and ends before the first
/// closing one, and is not empty.
pub proof fn law_titles_stand_in_title_marks(s: Seq<char>, i: int, t: Seq<char>)
    ensures
        marked_title_at(s, i) == Some(t) <==> {
            &&& 0 <= i && i + 1 + t.len() < s.len()
            &&& t.len() > 0
            &&& s[i] == '《'
            &&& t == s.subrange(i + 1, i + 1 + t.len())
            &&& !t.contains('》')
            &&& s[i + 1 + t.len()] == '》'
        },
{
    if 0 <= i < s.len() && s[i] == '《' {
        let rest = s.skip(i + 1);
        let n = until(rest, '》') as int;
        lemma_until(rest, '》');
        let found = s.subrange(i + 1, i + 1 + n);
        assert(!found.contains('》')) by {
            if found.contains('》') {
                let k = found.index_of('》');
                assert(rest[k] == '》');
            }
        }
        if n < rest.len() {
            assert(s[i + 1 + n] == rest[n]);
        }
        if i + 1 + t.len() < s.len() && t == s.subrange(i + 1, i + 1 + t.len()) && !t.contains('》')
            && s[i + 1 + t.len()] == '》' {
            assert forall|k: int| 0 <= k < t.len() implies #[trigger] rest[k] != '》' by {
                assert(t[k] == rest[k]);
            }
            assert(rest[t.len() as int] == '》');
            lemma_until_unique(rest, '》', t.len() as int);
        }
    }
}

} // verus!
