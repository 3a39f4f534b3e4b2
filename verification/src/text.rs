//! Text as sequences of characters: white space, trimming, lines, searching.

use vstd::prelude::*;

verus! {

/// `String::push`: appends the character to the end of the string.
pub assume_specification[ String::push ](s: &mut String, c: char)
    ensures
        final(s)@ == old(s)@.push(c),
;

/// The characters with the Unicode property `White_Space`.
pub open spec fn white_space(c: char) -> bool {
    ||| '\u{9}' <= c <= '\u{d}'
    ||| c == ' '
    ||| c == '\u{85}'
    ||| c == '\u{a0}'
    ||| c == '\u{1680}'
    ||| '\u{2000}' <= c <= '\u{200a}'
    ||| c == '\u{2028}'
    ||| c == '\u{2029}'
    ||| c == '\u{202f}'
    ||| c == '\u{205f}'
    ||| c == '\u{3000}'
}

/// Whether `c` is white space.
pub fn is_white_space(c: char) -> (b: bool)
    ensures
        b == white_space(c),
{
    ('\u{9}' <= c && c <= '\u{d}') || c == ' ' || c == '\u{85}' || c == '\u{a0}' || c == '\u{1680}'
        || ('\u{2000}' <= c && c <= '\u{200a}') || c == '\u{2028}' || c == '\u{2029}'
        || c == '\u{202f}' || c == '\u{205f}' || c == '\u{3000}'
}

/// The views of a sequence of strings.
pub open spec fn texts(v: Seq<String>) -> Seq<Seq<char>> {
    Seq::new(v.len(), |i: int| v[i]@)
}

/// The characters of a string.
pub fn to_chars(s: &str) -> (r: Vec<char>)
    ensures
        r@ == s@,
{
    let mut r: Vec<char> = Vec::new();
    for c in it: s.chars()
        invariant
            r@ == it.seq().take(it.index()),
            it.seq() == s@,
    {
        r.push(c);
    }
    r
}

/// The string of the characters `chars[from..to]`.
pub fn from_chars(chars: &Vec<char>, from: usize, to: usize) -> (r: String)
    requires
        from <= to <= chars@.len(),
    ensures
        r@ == chars@.subrange(from as int, to as int),
{
    let mut r = String::new();
    let mut i: usize = from;
    while i < to
        invariant
            from <= i <= to <= chars@.len(),
            r@ == chars@.subrange(from as int, i as int),
        decreases to - i,
    {
        r.push(chars[i]);
        i += 1;
        assert(r@ =~= chars@.subrange(from as int, i as int));
    }
    r
}

/// A string with the same characters.
pub fn copy(s: &str) -> (r: String)
    ensures
        r@ == s@,
{
    let chars = to_chars(s);
    let r = from_chars(&chars, 0, chars.len());
    assert(r@ =~= s@);
    r
}

/// What `str::to_lowercase` makes of a text.
pub uninterp spec fn lower_cased(s: Seq<char>) -> Seq<char>;

/// Whether every character is an ASCII character.
pub open spec fn ascii(s: Seq<char>) -> bool {
    forall|i: int| 0 <= i < s.len() ==> (#[trigger] s[i] as u32) < 128
}

/// The lower case of an ASCII letter; any other character stays as it is.
pub open spec fn ascii_lower(c: char) -> char {
    if 'A' <= c <= 'Z' {
        ((c as u32) + 32) as char
    } else {
        c
    }
}

/// `str::to_lowercase`: the text in lower case. Of ASCII text it changes the letters from `A` to
/// `Z` alone.
#[verifier::external_body]
pub(crate) fn lower_case(s: &str) -> (r: String)
    ensures
        r@ == lower_cased(s@),
        ascii(s@) ==> r@ == Seq::new(s@.len(), |i: int| ascii_lower(s@[i])),
{
    s.to_lowercase()
}

/// A set of characters that text is trimmed of.
#[derive(Clone, Copy, Debug, PartialEq, Eq, Structural)]
pub enum CharClass {
    /// White space.
    Space,
    /// Straight and curly quotation marks, and the backtick.
    Quote,
    /// The backtick.
    Backtick,
    /// The two slashes.
    Slash,
}

impl CharClass {
    /// Whether the class holds `c`.
    pub open spec fn has(self, c: char) -> bool {
        match self {
            CharClass::Space => white_space(c),
            CharClass::Quote => c == '"' || c == '\'' || c == '`' || c == '\u{201c}' || c
                == '\u{201d}' || c == '\u{2018}' || c == '\u{2019}',
            CharClass::Backtick => c == '`',
            CharClass::Slash => c == '/' || c == '\\',
        }
    }

    /// Whether the class holds `c`.
    pub fn contains(self, c: char) -> (b: bool)
        ensures
            b == self.has(c),
    {
        match self {
            CharClass::Space => is_white_space(c),
            CharClass::Quote => c == '"' || c == '\'' || c == '`' || c == '\u{201c}' || c
                == '\u{201d}' || c == '\u{2018}' || c == '\u{2019}',
            CharClass::Backtick => c == '`',
            CharClass::Slash => c == '/' || c == '\\',
        }
    }
}

/// How many characters at the start of `s` are in the class.
pub open spec fn leading(s: Seq<char>, class: CharClass) -> nat
    decreases s.len(),
{
    if s.len() > 0 && class.has(s[0]) {
        1 + leading(s.skip(1), class)
    } else {
        0
    }
}

/// How many characters at the end of `s` are in the class.
pub open spec fn trailing(s: Seq<char>, class: CharClass) -> nat
    decreases s.len(),
{
    if s.len() > 0 && class.has(s.last()) {
        1 + trailing(s.drop_last(), class)
    } else {
        0
    }
}

/// `s` without the leading characters of the class.
pub open spec fn trimmed_start_of(s: Seq<char>, class: CharClass) -> Seq<char> {
    s.skip(leading(s, class) as int)
}

/// `s` without the trailing characters of the class.
pub open spec fn trimmed_end_of(s: Seq<char>, class: CharClass) -> Seq<char> {
    s.take(s.len() - trailing(s, class))
}

/// `s` without the leading and trailing characters of the class.
pub open spec fn trimmed_of(s: Seq<char>, class: CharClass) -> Seq<char> {
    trimmed_end_of(trimmed_start_of(s, class), class)
}

/// `s` without leading and trailing white space.
pub open spec fn trimmed(s: Seq<char>) -> Seq<char> {
    trimmed_of(s, CharClass::Space)
}

/// `s` holds nothing but white space.
pub open spec fn blank(s: Seq<char>) -> bool {
    forall|i: int| 0 <= i < s.len() ==> white_space(#[trigger] s[i])
}

/// What `leading` counts: characters of the class, up to one that is not.
pub proof fn lemma_leading(s: Seq<char>, class: CharClass)
    ensures
        leading(s, class) <= s.len(),
        forall|i: int| 0 <= i < leading(s, class) ==> class.has(#[trigger] s[i]),
        leading(s, class) < s.len() ==> !class.has(s[leading(s, class) as int]),
    decreases s.len(),
{
    if s.len() > 0 && class.has(s[0]) {
        lemma_leading(s.skip(1), class);
        assert forall|i: int| 0 <= i < leading(s, class) implies class.has(#[trigger] s[i]) by {
            if i > 0 {
                assert(s[i] == s.skip(1)[i - 1]);
            }
        }
    }
}

/// What `trailing` counts: characters of the class, down to one that is not.
pub proof fn lemma_trailing(s: Seq<char>, class: CharClass)
    ensures
        trailing(s, class) <= s.len(),
        forall|i: int|
            s.len() - trailing(s, class) <= i < s.len() ==> class.has(#[trigger] s[i]),
        trailing(s, class) < s.len() ==> !class.has(s[s.len() - trailing(s, class) - 1]),
    decreases s.len(),
{
    if s.len() > 0 && class.has(s.last()) {
        lemma_trailing(s.drop_last(), class);
        assert forall|i: int| s.len() - trailing(s, class) <= i < s.len() implies class.has(
            #[trigger] s[i],
        ) by {
            if i < s.len() - 1 {
                assert(s[i] == s.drop_last()[i]);
            }
        }
    }
}

/// The number that `leading` gives is the only one with its property.
pub proof fn lemma_leading_unique(s: Seq<char>, class: CharClass, n: int)
    requires
        0 <= n <= s.len(),
        forall|i: int| 0 <= i < n ==> class.has(#[trigger] s[i]),
        n < s.len() ==> !class.has(s[n]),
    ensures
        leading(s, class) == n,
{
    lemma_leading(s, class);
    let m = leading(s, class) as int;
    if m < n {
        assert(class.has(s[m]));
    } else if n < m {
        assert(class.has(s[n]));
    }
}

/// The number that `trailing` gives is the only one with its property.
pub proof fn lemma_trailing_unique(s: Seq<char>, class: CharClass, n: int)
    requires
        0 <= n <= s.len(),
        forall|i: int| s.len() - n <= i < s.len() ==> class.has(#[trigger] s[i]),
        n < s.len() ==> !class.has(s[s.len() - n - 1]),
    ensures
        trailing(s, class) == n,
{
    lemma_trailing(s, class);
    let m = trailing(s, class) as int;
    if m < n {
        assert(class.has(s[s.len() - m - 1]));
    } else if n < m {
        assert(class.has(s[s.len() - n - 1]));
    }
}

/// A trimmed text is empty exactly when the text is blank; otherwise it begins and ends with
/// something other than white space.
pub proof fn lemma_trimmed(s: Seq<char>)
    ensures
        (trimmed(s).len() == 0) == blank(s),
        trimmed(s).len() > 0 ==> !white_space(trimmed(s)[0]) && !white_space(trimmed(s).last()),
        trimmed(s).len() <= s.len(),
{
    let class = CharClass::Space;
    lemma_leading(s, class);
    let t = trimmed_start_of(s, class);
    lemma_trailing(t, class);
    if blank(s) {
        assert(t.len() == 0) by {
            if leading(s, class) < s.len() {
                assert(white_space(s[leading(s, class) as int]));
            }
        }
    }
    if t.len() > 0 {
        assert(!white_space(t[0]));
        if trailing(t, class) == t.len() {
            assert(class.has(t[0]));
        }
    } else {
        assert(blank(s));
    }
    if trimmed(s).len() > 0 {
        assert(trimmed(s)[0] == t[0]);
    }
}

/// The bounds of `chars[from..to]` without leading and trailing characters of the class.
pub fn trim_range(chars: &Vec<char>, from: usize, to: usize, class: CharClass) -> (r: (
    usize,
    usize,
))
    requires
        from <= to <= chars@.len(),
    ensures
        from <= r.0 <= r.1 <= to,
        chars@.subrange(r.0 as int, r.1 as int) == trimmed_of(
            chars@.subrange(from as int, to as int),
            class,
        ),
        r.0 == from + leading(chars@.subrange(from as int, to as int), class),
{
    let ghost s = chars@.subrange(from as int, to as int);
    let mut a: usize = from;
    while a < to && class.contains(chars[a])
        invariant
            from <= a <= to <= chars@.len(),
            s == chars@.subrange(from as int, to as int),
            forall|i: int| 0 <= i < a - from ==> class.has(#[trigger] s[i]),
        decreases to - a,
    {
        assert(s[a - from] == chars@[a as int]);
        a += 1;
    }
    proof {
        if a < to {
            assert(s[a - from] == chars@[a as int]);
        }
        lemma_leading_unique(s, class, a - from);
    }
    let ghost t = trimmed_start_of(s, class);
    assert(t =~= chars@.subrange(a as int, to as int));
    let mut b: usize = to;
    while b > a && class.contains(chars[b - 1])
        invariant
            a <= b <= to <= chars@.len(),
            t == chars@.subrange(a as int, to as int),
            forall|i: int| b - a <= i < t.len() ==> class.has(#[trigger] t[i]),
        decreases b,
    {
        assert(t[b - 1 - a] == chars@[b - 1]);
        b -= 1;
    }
    proof {
        if b > a {
            assert(t[b - a - 1] == chars@[b - 1]);
        }
        lemma_trailing_unique(t, class, to - b);
        assert(chars@.subrange(a as int, b as int) =~= trimmed_end_of(t, class));
    }
    (a, b)
}

/// `s` without leading and trailing characters of the class.
pub fn trim_class(s: &str, class: CharClass) -> (r: String)
    ensures
        r@ == trimmed_of(s@, class),
{
    let chars = to_chars(s);
    let n = chars.len();
    let (a, b) = trim_range(&chars, 0, n, class);
    assert(chars@.subrange(0, n as int) =~= s@);
    from_chars(&chars, a, b)
}

/// `s` without leading characters of the class.
pub fn trim_start_class(s: &str, class: CharClass) -> (r: String)
    ensures
        r@ == trimmed_start_of(s@, class),
{
    let chars = to_chars(s);
    let n = chars.len();
    let (a, _) = trim_range(&chars, 0, n, class);
    assert(chars@.subrange(0, n as int) =~= s@);
    let r = from_chars(&chars, a, n);
    assert(r@ =~= trimmed_start_of(s@, class));
    r
}

/// `s` without leading and trailing white space.
pub fn trim(s: &str) -> (r: String)
    ensures
        r@ == trimmed(s@),
{
    trim_class(s, CharClass::Space)
}

/// Whether `s` holds nothing but white space.
pub fn is_blank(s: &str) -> (b: bool)
    ensures
        b == blank(s@),
{
    let chars = to_chars(s);
    let mut i: usize = 0;
    while i < chars.len()
        invariant
            i <= chars@.len(),
            chars@ == s@,
            forall|j: int| 0 <= j < i ==> white_space(#[trigger] s@[j]),
        decreases chars@.len() - i,
    {
        if !is_white_space(chars[i]) {
            assert(!white_space(s@[i as int]));
            return false;
        }
        i += 1;
    }
    true
}

/// Trimming takes away exactly what is of the class at both ends: of a text that begins and ends with
/// something else, with characters of the class around it, that text is left.
pub proof fn law_trimming_takes_the_ends(
    a: Seq<char>,
    m: Seq<char>,
    b: Seq<char>,
    class: CharClass,
)
    requires
        forall|i: int| 0 <= i < a.len() ==> class.has(#[trigger] a[i]),
        forall|i: int| 0 <= i < b.len() ==> class.has(#[trigger] b[i]),
        m.len() > 0,
        !class.has(m[0]),
        !class.has(m[m.len() - 1]),
    ensures
        trimmed_of(a + m + b, class) == m,
        trimmed_start_of(a + m + b, class) == m + b,
        trimmed_end_of(a + m + b, class) == a + m,
        class == CharClass::Space ==> trimmed(a + m + b) == m,
{
    let s = a + m + b;
    assert forall|i: int| 0 <= i < a.len() implies class.has(#[trigger] s[i]) by {
        assert(s[i] == a[i]);
    }
    assert(s[a.len() as int] == m[0]);
    lemma_leading_unique(s, class, a.len() as int);
    let t = m + b;
    assert(s.skip(a.len() as int) =~= t);
    assert forall|i: int| t.len() - b.len() <= i < t.len() implies class.has(#[trigger] t[i]) by {
        assert(t[i] == b[i - m.len()]);
    }
    assert(t[t.len() - b.len() - 1] == m[m.len() - 1]);
    lemma_trailing_unique(t, class, b.len() as int);
    assert(t.take(t.len() - b.len()) =~= m);
    assert forall|i: int| s.len() - b.len() <= i < s.len() implies class.has(#[trigger] s[i]) by {
        assert(s[i] == b[i - m.len() - a.len()]);
    }
    assert(s[s.len() - b.len() - 1] == m[m.len() - 1]);
    lemma_trailing_unique(s, class, b.len() as int);
    assert(s.take(s.len() - b.len()) =~= a + m);
}

/// Text that is all of the class is trimmed to nothing.
pub proof fn law_nothing_is_left_of_the_class(s: Seq<char>, class: CharClass)
    requires
        forall|i: int| 0 <= i < s.len() ==> class.has(#[trigger] s[i]),
    ensures
        trimmed_of(s, class).len() == 0,
        trimmed_start_of(s, class).len() == 0,
        trimmed_end_of(s, class).len() == 0,
{
    lemma_leading_unique(s, class, s.len() as int);
    lemma_trailing_unique(s, class, s.len() as int);
    let e = s.skip(s.len() as int);
    lemma_trailing(e, class);
}

/// The texts of strings are those of each, in their order.
pub proof fn law_texts_keep_their_order(v: Seq<String>, i: int)
    ensures
        texts(v).len() == v.len(),
        0 <= i < v.len() ==> texts(v)[i] == v[i]@,
{
}

/// White space is what Unicode calls so, by the numbers of its characters; each class of characters
/// holds what it is named after; and a text is blank where all of it is white space.
pub proof fn law_classes_hold_their_characters(c: char, s: Seq<char>)
    ensures
        white_space(c) <==> {
            let n = c as u32;
            9 <= n <= 13 || n == 32 || n == 0x85 || n == 0xa0 || n == 0x1680 || 0x2000 <= n <= 0x200a
                || n == 0x2028 || n == 0x2029 || n == 0x202f || n == 0x205f || n == 0x3000
        },
        CharClass::Space.has(c) == white_space(c),
        CharClass::Quote.has(c) <==> "\"'`“”‘’"@.contains(c),
        CharClass::Backtick.has(c) <==> "`"@.contains(c),
        CharClass::Slash.has(c) <==> "/\\"@.contains(c),
        blank(seq![]),
        blank(s.push(c)) <==> blank(s) && white_space(c),
{
    reveal_strlit("\"'`“”‘’");
    reveal_strlit("`");
    reveal_strlit("/\\");
    let q = "\"'`“”‘’"@;
    assert(q.len() == 7);
    assert(q[0] == '"' && q[1] == '\'' && q[2] == '`' && q[3] == '“' && q[4] == '”' && q[5] == '‘'
        && q[6] == '’');
    assert("`"@.len() == 1 && "`"@[0] == '`');
    assert("/\\"@.len() == 2 && "/\\"@[0] == '/' && "/\\"@[1] == '\\');
    if blank(s.push(c)) {
        assert forall|i: int| 0 <= i < s.len() implies white_space(#[trigger] s[i]) by {
            assert(s.push(c)[i] == s[i]);
        }
        assert(s.push(c)[s.len() as int] == c);
    }
}

/// A letter from `A` to `Z` becomes the small letter that stands 32 places behind it, and nothing else
/// changes.
pub proof fn law_capital_letters_are_lowered(c: char)
    ensures
        65 <= c as u32 <= 90 ==> ascii_lower(c) as u32 == c as u32 + 32,
        !(65 <= c as u32 <= 90) ==> ascii_lower(c) == c,
        ascii_lower('A') == 'a' && ascii_lower('Z') == 'z',
{
}

} // verus!
