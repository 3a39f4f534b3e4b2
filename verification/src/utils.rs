//! File names, the blacklist, and character encodings.

use crate::patterns::{regex_error, Pattern};
use crate::search::{join, joined, lines, lines_of, starts_with};
use crate::text::{ascii_lower, blank, copy, is_blank, texts, to_chars, trim, trimmed};
use vstd::prelude::*;

verus! {

/// The characters that a file name must not hold.
pub open spec fn invalid_in_name(c: char) -> bool {
    c == '/' || c == '\\' || c == ':' || c == '*' || c == '?' || c == '"' || c == '<' || c == '>'
        || c == '|' || c == '#'
}

/// A name with an underscore for each character that a file name must not hold.
pub open spec fn sanitized(name: Seq<char>) -> Seq<char> {
    Seq::new(name.len(), |i: int| if invalid_in_name(name[i]) { '_' } else { name[i] })
}

/// Puts an underscore for each character that a file name must not hold.
pub fn sanitize_filename(name: &str) -> (r: String)
    ensures
        r@ == sanitized(name@),
{
    let chars = to_chars(name);
    let mut r = String::new();
    let mut i: usize = 0;
    while i < chars.len()
        invariant
            i <= chars@.len(),
            chars@ == name@,
            r@ == sanitized(name@).take(i as int),
        decreases chars@.len() - i,
    {
        let c = chars[i];
        let bad = c == '/' || c == '\\' || c == ':' || c == '*' || c == '?' || c == '"' || c == '<'
            || c == '>' || c == '|' || c == '#';
        r.push(if bad { '_' } else { c });
        i += 1;
        assert(r@ =~= sanitized(name@).take(i as int));
    }
    assert(r@ =~= sanitized(name@));
    r
}

/// A sanitized name holds no invalid character, is as long as the name, and stays as it is when
/// it is sanitized again; so does a name without invalid characters.
pub proof fn law_sanitized_names_are_valid(name: Seq<char>)
    ensures
        sanitized(name).len() == name.len(),
        forall|i: int| 0 <= i < name.len() ==> !invalid_in_name(#[trigger] sanitized(name)[i]),
        sanitized(sanitized(name)) == sanitized(name),
        (forall|i: int| 0 <= i < name.len() ==> !invalid_in_name(#[trigger] name[i]))
            ==> sanitized(name) == name,
{
    assert(sanitized(sanitized(name)) =~= sanitized(name));
    if forall|i: int| 0 <= i < name.len() ==> !invalid_in_name(#[trigger] name[i]) {
        assert(sanitized(name) =~= name);
    }
}

/// Where the text of a blacklist comes from.
#[derive(Clone, Copy, Debug, PartialEq, Eq, Structural)]
pub enum BlacklistSource {
    /// The address of a text on the network.
    Remote,
    /// The path of a file.
    File,
    /// The words themselves.
    Inline,
}

/// Where the text of a blacklist comes from: an address where the source begins like one, else
/// a file where there is one at that path.
pub fn blacklist_source(source: &str, on_disk: bool) -> (r: BlacklistSource)
    ensures
        r == if "http://"@.is_prefix_of(source@) || "https://"@.is_prefix_of(source@) {
            BlacklistSource::Remote
        } else if on_disk {
            BlacklistSource::File
        } else {
            BlacklistSource::Inline
        },
{
    if starts_with(source, "http://") || starts_with(source, "https://") {
        BlacklistSource::Remote
    } else if on_disk {
        BlacklistSource::File
    } else {
        BlacklistSource::Inline
    }
}

/// The lines that are not blank, trimmed, each in parentheses.
pub open spec fn word_groups(lines: Seq<Seq<char>>) -> Seq<Seq<char>>
    decreases lines.len(),
{
    if lines.len() == 0 {
        seq![]
    } else if blank(lines.last()) {
        word_groups(lines.drop_last())
    } else {
        word_groups(lines.drop_last()).push("("@ + trimmed(lines.last()) + ")"@)
    }
}

/// The pattern that matches what any line of a blacklist matches.
pub open spec fn blacklist_pattern(content: Seq<char>) -> Seq<char> {
    joined(word_groups(lines_of(content)), "|"@)
}

/// Why a blacklist is of no use.
#[derive(Debug)]
pub enum BlacklistError {
    /// It holds no word.
    Empty,
    /// Its pattern does not compile; with the message that says why.
    Invalid(String),
}

/// The pattern of a blacklist, as text; none where the blacklist is empty.
pub fn combine_blacklist(content: &str) -> (r: Option<String>)
    ensures
        r matches Some(p) ==> word_groups(lines_of(content@)).len() > 0 && p@ == blacklist_pattern(
            content@,
        ),
        r is None ==> word_groups(lines_of(content@)).len() == 0,
{
    let all = lines(content);
    let ghost views = texts(all@);
    let mut groups: Vec<String> = Vec::new();
    let mut i: usize = 0;
    assert(views.take(0) =~= seq![]);
    assert(texts(groups@) =~= seq![]);
    while i < all.len()
        invariant
            i <= all@.len(),
            views == texts(all@),
            texts(groups@) == word_groups(views.take(i as int)),
        decreases all@.len() - i,
    {
        let ghost before = texts(groups@);
        let line = all[i].as_str();
        proof {
            assert(views.take(i + 1).drop_last() =~= views.take(i as int));
            assert(views.take(i + 1).last() == line@);
        }
        if !is_blank(line) {
            let mut group = copy("(");
            group.append(trim(line).as_str());
            group.append(")");
            groups.push(group);
            assert(texts(groups@) =~= before.push(group@));
        }
        i += 1;
    }
    assert(views.take(i as int) =~= views);
    assert(texts(groups@).len() == groups@.len());
    if groups.len() == 0 {
        None
    } else {
        Some(join(&groups, "|"))
    }
}

/// Compiles a blacklist: one pattern a line, matched in either case.
pub fn load_blacklist(content: &str) -> (r: Result<Pattern, BlacklistError>)
    ensures
        ({
            let empty = word_groups(lines_of(content@)).len() == 0;
            match r {
                Ok(p) => !empty && p.text() == blacklist_pattern(content@) && p.any_case()
                    && regex_error(p.text(), true) is None,
                Err(BlacklistError::Empty) => empty,
                Err(BlacklistError::Invalid(e)) => !empty && regex_error(
                    blacklist_pattern(content@),
                    true,
                ) == Some(e@),
            }
        }),
{
    match combine_blacklist(content) {
        None => Err(BlacklistError::Empty),
        Some(pattern) => match Pattern::compile(pattern.as_str(), true) {
            Ok(p) => Ok(p),
            Err(e) => Err(BlacklistError::Invalid(e)),
        },
    }
}

/// Marks the words of the blacklist in a text with double brackets.
pub fn apply_blacklist(text: &str, blacklist_regex: &Pattern) -> (r: String)
    ensures
        r@ == blacklist_regex.replaced(text@, "[[$0]]"@),
{
    blacklist_regex.replace_all(text, "[[$0]]")
}

/// A file whose encoding seems not to be UTF-8. The confidence is the bit pattern of a
/// single-precision number.
#[derive(Debug)]
pub struct EncodingInfo {
    pub path: String,
    pub encoding: String,
    pub confidence: u32,
}

/// How many bytes at the start of a file are looked at.
pub const SCANNED_BYTES: u64 = 8192;

/// The bit pattern of the confidence that UTF-8 must exceed, 0.95.
pub const UTF8_CONFIDENCE: u32 = 0x3F73_3333;

/// The bit pattern of positive infinity.
pub const INFINITY: u32 = 0x7F80_0000;

/// Whether two texts differ at most in the case of ASCII letters.
pub open spec fn same_but_case(a: Seq<char>, b: Seq<char>) -> bool {
    a.len() == b.len() && forall|i: int|
        0 <= i < a.len() ==> ascii_lower(#[trigger] a[i]) == ascii_lower(b[i])
}

/// The lower case of an ASCII letter; any other character stays as it is.
pub fn lower_ascii(c: char) -> (r: char)
    ensures
        r == ascii_lower(c),
{
    match c {
        'A' => 'a', 'B' => 'b', 'C' => 'c', 'D' => 'd', 'E' => 'e', 'F' => 'f', 'G' => 'g',
        'H' => 'h', 'I' => 'i', 'J' => 'j', 'K' => 'k', 'L' => 'l', 'M' => 'm', 'N' => 'n',
        'O' => 'o', 'P' => 'p', 'Q' => 'q', 'R' => 'r', 'S' => 's', 'T' => 't', 'U' => 'u',
        'V' => 'v', 'W' => 'w', 'X' => 'x', 'Y' => 'y', 'Z' => 'z',
        _ => c,
    }
}

/// Whether two texts differ at most in the case of ASCII letters.
pub fn eq_ignore_ascii_case(a: &str, b: &str) -> (r: bool)
    ensures
        r == same_but_case(a@, b@),
{
    let x = to_chars(a);
    let y = to_chars(b);
    if x.len() != y.len() {
        return false;
    }
    let mut i: usize = 0;
    while i < x.len()
        invariant
            i <= x@.len(),
            x@.len() == y@.len(),
            x@ == a@,
            y@ == b@,
            forall|j: int| 0 <= j < i ==> ascii_lower(#[trigger] a@[j]) == ascii_lower(b@[j]),
        decreases x@.len() - i,
    {
        if lower_ascii(x[i]) != lower_ascii(y[i]) {
            assert(ascii_lower(a@[i as int]) != ascii_lower(b@[i as int]));
            return false;
        }
        i += 1;
    }
    true
}

/// Whether the encoding is UTF-8, with a confidence above 0.95.
pub open spec fn surely_utf8(encoding: Seq<char>, confidence: u32) -> bool {
    same_but_case(encoding, "UTF-8"@) && UTF8_CONFIDENCE < confidence <= INFINITY
}

/// Whether a detected encoding is UTF-8, with a confidence above 0.95.
pub fn is_surely_utf8(encoding: &str, confidence: u32) -> (r: bool)
    ensures
        r == surely_utf8(encoding@, confidence),
{
    eq_ignore_ascii_case(encoding, "UTF-8") && UTF8_CONFIDENCE < confidence && confidence
        <= INFINITY
}

/// Whether a byte cannot be ASCII.
pub open spec fn high(b: u8) -> bool {
    b >= 0x80 && b != 0xa0
}

/// Whether the bytes hold an escape character and no byte that cannot be ASCII.
pub open spec fn escaped_ascii(bytes: Seq<u8>) -> bool {
    bytes.contains(0x1b) && forall|i: int| 0 <= i < bytes.len() ==> !high(#[trigger] bytes[i])
}

/// The encoding, and the bit pattern of the confidence in it, that the chardet crate detects in
/// the bytes when `more` follows them.
pub uninterp spec fn detected(bytes: Seq<u8>, more: Seq<u8>) -> (Seq<char>, u32);

/// `chardet::UniversalDetector`, fed with `bytes` and then with `more`: the encoding and the
/// confidence in it. Closing the detector panics on ASCII text with an escape character in which
/// it has found no encoding, so that `more` must then hold a byte that cannot be ASCII.
#[verifier::external_body]
fn detect(bytes: &[u8], more: &[u8]) -> (r: (String, u32))
    requires
        escaped_ascii(bytes@) ==> exists|i: int| 0 <= i < more@.len() && high(#[trigger] more@[i]),
        !more@.contains(0x1b),
    ensures
        (r.0@, r.1) == detected(bytes@, more@),
{
    let mut detector = chardet::UniversalDetector::new();
    detector.feed(bytes);
    detector.feed(more);
    let (encoding, confidence, _) = detector.close();
    (encoding, confidence.to_bits())
}

/// What is fed behind the bytes of a file: nothing, or a byte that closes ASCII text with an
/// escape character.
pub open spec fn detection_tail(bytes: Seq<u8>) -> Seq<u8> {
    if escaped_ascii(bytes) {
        seq![0x80u8]
    } else {
        seq![]
    }
}

fn is_escaped_ascii(bytes: &[u8]) -> (b: bool)
    ensures
        b == escaped_ascii(bytes@),
{
    let mut escape = false;
    let mut i: usize = 0;
    while i < bytes.len()
        invariant
            i <= bytes@.len(),
            escape == exists|k: int| 0 <= k < i && bytes@[k] == 0x1b,
            forall|k: int| 0 <= k < i ==> !high(#[trigger] bytes@[k]),
        decreases bytes@.len() - i,
    {
        let byte = bytes[i];
        if byte >= 0x80 && byte != 0xa0 {
            assert(high(bytes@[i as int]));
            return false;
        }
        if byte == 0x1b {
            escape = true;
        }
        i += 1;
    }
    assert(escape == bytes@.contains(0x1b));
    escape
}

/// Whether the bytes begin with the byte order mark of UTF-8.
pub open spec fn has_utf8_mark(bytes: Seq<u8>) -> bool {
    bytes.len() >= 3 && bytes[0] == 0xef && bytes[1] == 0xbb && bytes[2] == 0xbf
}

/// Whether the start of a file, whose encoding was detected as `found`, points to an encoding
/// other than UTF-8.
pub open spec fn suspicious(head: Seq<u8>, found: (Seq<char>, u32)) -> bool {
    head.len() > 0 && !has_utf8_mark(head) && !surely_utf8(found.0, found.1)
}

/// The encoding of a file that begins with `head`, where it seems not to be UTF-8.
pub fn encoding_issue(head: &[u8]) -> (r: Option<(String, u32)>)
    ensures
        ({
            let found = detected(head@, detection_tail(head@));
            match r {
                Some((encoding, confidence)) => suspicious(head@, found) && encoding@ == found.0
                    && confidence == found.1,
                None => !suspicious(head@, found),
            }
        }),
{
    if head.len() == 0 || (head.len() >= 3 && head[0] == 0xef && head[1] == 0xbb && head[2] == 0xbf) {
        return None;
    }
    let mut tail: Vec<u8> = Vec::new();
    if is_escaped_ascii(head) {
        tail.push(0x80);
        assert(high(tail@[0]));
    }
    assert(tail@ =~= detection_tail(head@));
    let (encoding, confidence) = detect(head, tail.as_slice());
    if is_surely_utf8(encoding.as_str(), confidence) {
        None
    } else {
        Some((encoding, confidence))
    }
}

/// The start of a file that is looked at.
#[derive(Debug)]
pub struct FileHead {
    pub path: String,
    pub bytes: Vec<u8>,
}

/// An encoding issue as a value: the path, the encoding, the confidence.
pub type IssueView = (Seq<char>, Seq<char>, u32);

/// The issues of the files, in order.
pub open spec fn issues_of(files: Seq<FileHead>) -> Seq<IssueView>
    decreases files.len(),
{
    if files.len() == 0 {
        seq![]
    } else {
        let before = issues_of(files.drop_last());
        let head = files.last().bytes@;
        let found = detected(head, detection_tail(head));
        if suspicious(head, found) {
            before.push((files.last().path@, found.0, found.1))
        } else {
            before
        }
    }
}

/// The views of issues.
pub open spec fn issue_views(issues: Seq<EncodingInfo>) -> Seq<IssueView> {
    Seq::new(issues.len(), |i: int| (issues[i].path@, issues[i].encoding@, issues[i].confidence))
}

/// Finds the files whose encoding seems not to be UTF-8, by how they begin.
pub fn pre_scan_for_encoding_issues(files: &Vec<FileHead>) -> (r: Vec<EncodingInfo>)
    ensures
        issue_views(r@) == issues_of(files@),
{
    let mut issues: Vec<EncodingInfo> = Vec::new();
    let mut i: usize = 0;
    assert(files@.take(0) =~= seq![]);
    assert(issue_views(issues@) =~= seq![]);
    while i < files.len()
        invariant
            i <= files@.len(),
            issue_views(issues@) == issues_of(files@.take(i as int)),
        decreases files@.len() - i,
    {
        let ghost before = issue_views(issues@);
        let file = &files[i];
        proof {
            assert(files@.take(i + 1).drop_last() =~= files@.take(i as int));
            assert(files@.take(i + 1).last() == *file);
        }
        if let Some((encoding, confidence)) = encoding_issue(file.bytes.as_slice()) {
            let issue = EncodingInfo { path: file.path.clone(), encoding, confidence };
            issues.push(issue);
            assert(issue_views(issues@) =~= before.push(
                (issue.path@, issue.encoding@, issue.confidence),
            ));
        }
        i += 1;
    }
    assert(files@.take(i as int) =~= files@);
    issues
}

/// The text that the encoding_rs crate decodes the bytes to, and whether some were malformed; none
/// where it knows no encoding by the label.
pub uninterp spec fn decoded(label: Seq<char>, bytes: Seq<u8>) -> Option<(Seq<char>, bool)>;

/// `encoding_rs::Encoding::for_label` and `encoding_rs::Encoding::decode`: the text of the bytes
/// and whether some were malformed, none for an unknown label. The label of the western encoding
/// is known.
#[verifier::external_body]
fn decode(label: &str, bytes: &[u8]) -> (r: Option<(String, bool)>)
    ensures
        r matches Some((text, bad)) ==> decoded(label@, bytes@) == Some((text@, bad)),
        r is None ==> decoded(label@, bytes@) is None,
        label@ == "windows-1252"@ ==> r is Some,
{
    let encoding = encoding_rs::Encoding::for_label(label.as_bytes())?;
    let (text, _, bad) = encoding.decode(bytes);
    Some((text.to_string(), bad))
}

/// The text of a file in the encoding, or in the western one where the encoding is unknown, and
/// whether bytes of it were malformed.
pub open spec fn converted(encoding: Seq<char>, bytes: Seq<u8>) -> Option<(Seq<char>, bool)> {
    match decoded(encoding, bytes) {
        Some(r) => Some(r),
        None => decoded("windows-1252"@, bytes),
    }
}

/// Decodes the bytes of a file.
pub fn convert_to_utf8(encoding: &str, bytes: &[u8]) -> (r: (String, bool))
    ensures
        converted(encoding@, bytes@) == Some((r.0@, r.1)),
{
    match decode(encoding, bytes) {
        Some(r) => r,
        None => match decode("windows-1252", bytes) {
            Some(r) => r,
            None => {
                assert(false);
                (String::new(), true)
            },
        },
    }
}

/// The characters that must not stand in a file name are slashes, colons, stars, question marks, straight
/// quotation marks, angle brackets, bars and number signs; every other character stays as it is.
pub proof fn law_only_invalid_characters_change(name: Seq<char>, i: int)
    requires
        0 <= i < name.len(),
    ensures
        sanitized(name).len() == name.len(),
        "/\\:*?\"<>|#"@.contains(name[i]) ==> sanitized(name)[i] == '_',
        !"/\\:*?\"<>|#"@.contains(name[i]) ==> sanitized(name)[i] == name[i],
{
    reveal_strlit("/\\:*?\"<>|#");
    let s = "/\\:*?\"<>|#"@;
    assert(s.len() == 10);
    assert(s[0] == '/' && s[1] == '\\' && s[2] == ':' && s[3] == '*' && s[4] == '?');
    assert(s[5] == '"' && s[6] == '<' && s[7] == '>' && s[8] == '|' && s[9] == '#');
    if s.contains(name[i]) {
        let k = s.index_of(name[i]);
        assert(s[k] == name[i]);
    }
}

/// A blacklist matches what any of its lines matches that is not blank: each, trimmed, is a group of
/// the pattern, in the order of the lines.
pub proof fn law_blacklists_hold_every_line(lines: Seq<Seq<char>>)
    ensures
        word_groups(lines) == lines.filter(|line: Seq<char>| !blank(line)).map_values(
            |line: Seq<char>| "("@ + trimmed(line) + ")"@,
        ),
    decreases lines.len(),
{
    reveal(Seq::filter);
    let kept = |line: Seq<char>| !blank(line);
    let f = |line: Seq<char>| "("@ + trimmed(line) + ")"@;
    if lines.len() > 0 {
        law_blacklists_hold_every_line(lines.drop_last());
        let front = lines.drop_last().filter(kept);
        if kept(lines.last()) {
            assert(front.push(lines.last()).map_values(f) =~= front.map_values(f).push(
                f(lines.last()),
            ));
        }
    } else {
        assert(lines.filter(kept).map_values(f) =~= seq![]);
    }
}

/// Files are told of exactly where they are not empty, do not begin with the mark of UTF-8, and were
/// not surely found to be UTF-8; each with its path, the encoding and the confidence.
pub proof fn law_suspicious_files_are_told(files: Seq<FileHead>)
    ensures
        issues_of(files) == files.filter(
            |file: FileHead|
                {
                    let head = file.bytes@;
                    let found = detected(head, detection_tail(head));
                    &&& head.len() > 0
                    &&& !(seq![0xefu8, 0xbb, 0xbf].is_prefix_of(head))
                    &&& !surely_utf8(found.0, found.1)
                },
        ).map_values(
            |file: FileHead|
                {
                    let found = detected(file.bytes@, detection_tail(file.bytes@));
                    (file.path@, found.0, found.1)
                },
        ),
    decreases files.len(),
{
    reveal(Seq::filter);
    let kept = |file: FileHead|
        {
            let head = file.bytes@;
            let found = detected(head, detection_tail(head));
            &&& head.len() > 0
            &&& !(seq![0xefu8, 0xbb, 0xbf].is_prefix_of(head))
            &&& !surely_utf8(found.0, found.1)
        };
    let f = |file: FileHead|
        {
            let found = detected(file.bytes@, detection_tail(file.bytes@));
            (file.path@, found.0, found.1)
        };
    if files.len() > 0 {
        law_suspicious_files_are_told(files.drop_last());
        let front = files.drop_last().filter(kept);
        let head = files.last().bytes@;
        let mark = seq![0xefu8, 0xbb, 0xbf];
        assert(mark.is_prefix_of(head) == has_utf8_mark(head)) by {
            if mark.is_prefix_of(head) {
                assert(head.subrange(0, 3)[0] == mark[0]);
                assert(head.subrange(0, 3)[1] == mark[1]);
                assert(head.subrange(0, 3)[2] == mark[2]);
            }
            if has_utf8_mark(head) {
                assert(head.subrange(0, 3) =~= mark);
            }
        }
        if kept(files.last()) {
            assert(front.push(files.last()).map_values(f) =~= front.map_values(f).push(
                f(files.last()),
            ));
        }
    } else {
        assert(files.filter(kept).map_values(f) =~= seq![]);
    }
}

/// An encoding is surely UTF-8 where it has that name, in either case, and the confidence is above
/// 0.95: a higher one suffices where a lower one does.
pub proof fn law_confidence_makes_utf8_sure(encoding: Seq<char>, a: u32, b: u32)
    requires
        a <= b <= 0x7F80_0000,
    ensures
        surely_utf8(encoding, a) ==> surely_utf8(encoding, b),
        !surely_utf8(encoding, 0x3F73_3333),
        surely_utf8(encoding, 0x3F73_3334) <==> same_but_case(encoding, "UTF-8"@),
{
}

/// A file is decoded by its encoding where that is known, and as Western text otherwise.
pub proof fn law_files_are_decoded_by_their_encoding(encoding: Seq<char>, bytes: Seq<u8>)
    ensures
        decoded(encoding, bytes) is Some ==> converted(encoding, bytes) == decoded(encoding, bytes),
        decoded(encoding, bytes) is None ==> converted(encoding, bytes) == decoded(
            "windows-1252"@,
            bytes,
        ),
{
}

/// Two texts are the same but for case where they are so letter by letter, from `A` to `Z` alone.
pub proof fn law_case_is_that_of_ascii_letters(a: Seq<char>, b: Seq<char>, x: char, y: char)
    ensures
        same_but_case(a, a),
        same_but_case(a, b) ==> a.len() == b.len(),
        same_but_case(a.push(x), b.push(y)) <==> same_but_case(a, b) && (x == y || (65 <= x as u32
            <= 90 && y as u32 == x as u32 + 32) || (65 <= y as u32 <= 90 && x as u32 == y as u32
            + 32)),
{
    let p = a.push(x);
    let q = b.push(y);
    let n = a.len() as int;
    if same_but_case(p, q) {
        assert(p[n] == x && q[n] == y);
        assert forall|i: int| 0 <= i < a.len() implies ascii_lower(#[trigger] a[i]) == ascii_lower(
            b[i],
        ) by {
            assert(p[i] == a[i] && q[i] == b[i]);
        }
    }
    if same_but_case(a, b) && ascii_lower(x) == ascii_lower(y) {
        assert forall|i: int| 0 <= i < p.len() implies ascii_lower(#[trigger] p[i]) == ascii_lower(
            q[i],
        ) by {
            if i < n {
                assert(p[i] == a[i] && q[i] == b[i]);
            }
        }
    }
}

/// A byte is set behind the beginning of a file exactly where it has an escape and no byte from 128
/// on but 160; it is 128.
pub proof fn law_escapes_are_followed_by_a_high_byte(bytes: Seq<u8>)
    ensures
        detection_tail(bytes).len() <= 1,
        detection_tail(bytes).len() == 1 <==> bytes.contains(0x1b) && forall|i: int|
            0 <= i < bytes.len() ==> #[trigger] bytes[i] < 128 || bytes[i] == 160,
        detection_tail(bytes).len() == 1 ==> detection_tail(bytes)[0] == 128,
{
    if escaped_ascii(bytes) {
        assert forall|i: int| 0 <= i < bytes.len() implies #[trigger] bytes[i] < 128 || bytes[i]
            == 160 by {
            assert(!high(bytes[i]));
        }
    }
}

/// A blacklist matches what one of its lines matches: the pattern is its lines that are not blank,
/// each trimmed and in brackets, with bars between them.
pub proof fn law_blacklists_are_one_pattern(content: Seq<char>)
    ensures
        blacklist_pattern(content) == joined(
            lines_of(content).filter(|line: Seq<char>| !blank(line)).map_values(
                |line: Seq<char>| "("@ + trimmed(line) + ")"@,
            ),
            "|"@,
        ),
{
    law_blacklists_hold_every_line(lines_of(content));
}

} // verus!
