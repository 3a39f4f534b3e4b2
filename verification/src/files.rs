//! The files that can be reached from outside: paths below the roots, listings, and downloads.

use crate::api::{pair_views, Pair};
use crate::ids::{book_root_path, output_root_path};
use crate::number::{
    bounded_numeral, decimal, law_numerals_are_read_back, parse_number, to_decimal,
};
use crate::order::{is_text_le, lemma_text_le_total, lemma_text_le_trans, text_le};
use crate::path::{
    extension_of, file_name, file_name_of, goes_up, has_step_up, is_under, join, joined_path,
    later_steps, lemma_first_step, lemma_joined_steps, lies_under, rooted, steps_of, up,
};
use crate::search::{
    cut_at, lemma_one_piece, lemma_until_unique, pieces_of, replace_char, same, split, split_once,
    strip_prefix, with_char_replaced,
};
use crate::text::{
    copy, law_trimming_takes_the_ends, leading, lemma_leading, lemma_leading_unique, texts, trim, trim_start_class, trimmed, trimmed_start_of,
    CharClass,
};
use vstd::prelude::*;

verus! {

/// The directory that a name stands for; none where the name is that of no root.
pub open spec fn root_of(
    root: Seq<char>,
    book_at_root: bool,
    output_at_root: bool,
) -> Option<Seq<char>> {
    if root == "book"@ {
        Some(
            if book_at_root {
                "/book"@
            } else {
                "book"@
            },
        )
    } else if root == "output"@ {
        Some(
            if output_at_root {
                "/output"@
            } else {
                "output"@
            },
        )
    } else {
        None
    }
}

/// The path below a root that `sub` names, slashes and backslashes at its start left out; none
/// where a step of what is left goes up.
pub open spec fn safe_path_of(base: Seq<char>, sub: Seq<char>) -> Option<Seq<char>> {
    let clean = trimmed_start_of(sub, CharClass::Slash);
    let target = joined_path(base, clean);
    if !goes_up(clean) && lies_under(target, base) {
        Some(target)
    } else {
        None
    }
}

/// The path that `sub_path` names below a root; none for an unknown root, and where a step goes up.
pub fn get_safe_path(
    root: &str,
    sub_path: Option<&str>,
    book_at_root: bool,
    output_at_root: bool,
) -> (r: Option<String>)
    ensures
        ({
            let sub = match sub_path {
                Some(s) => s@,
                None => ""@,
            };
            match root_of(root@, book_at_root, output_at_root) {
                Some(base) => match safe_path_of(base, sub) {
                    Some(p) => r matches Some(q) && q@ == p,
                    None => r is None,
                },
                None => r is None,
            }
        }),
{
    let base = if same(root, "book") {
        book_root_path(book_at_root)
    } else if same(root, "output") {
        output_root_path(output_at_root)
    } else {
        return None;
    };
    let sub = match sub_path {
        Some(s) => s,
        None => "",
    };
    let clean = trim_start_class(sub, CharClass::Slash);
    if has_step_up(clean.as_str()) {
        return None;
    }
    let target = join(base, clean.as_str());
    if is_under(target.as_str(), base) {
        Some(target)
    } else {
        None
    }
}

/// Every path that is allowed lies below its root, and no step of it goes up unless one of the root
/// does. Every path no step of which goes up is allowed.
pub proof fn law_safe_paths_stay_below_the_root(base: Seq<char>, sub: Seq<char>)
    requires
        base.len() > 0,
    ensures
        safe_path_of(base, sub) is Some <==> !goes_up(trimmed_start_of(sub, CharClass::Slash)),
        safe_path_of(base, sub) matches Some(p) ==> lies_under(p, base),
        !goes_up(base) ==> (safe_path_of(base, sub) matches Some(p) ==> !goes_up(p)),
{
    let clean = trimmed_start_of(sub, CharClass::Slash);
    lemma_leading(sub, CharClass::Slash);
    assert(!rooted(clean)) by {
        if rooted(clean) {
            assert(clean[0] == sub[leading(sub, CharClass::Slash) as int]);
        }
    }
    lemma_joined_steps(base, clean);
    let target = joined_path(base, clean);
    let later = later_steps(pieces_of(clean, '/'));
    let s = steps_of(clean);
    if later != s {
        lemma_first_step(pieces_of(clean, '/'));
    }
    if goes_up(target) && !goes_up(base) && !goes_up(clean) {
        let all = steps_of(target);
        let k = choose|k: int| 0 <= k < all.len() && up(#[trigger] all[k]);
        let b = steps_of(base);
        if k < b.len() {
            assert(all[k] == b[k]);
        } else {
            assert(all[k] == later[k - b.len()]);
            if later == s {
                assert(up(s[k - b.len()]));
            } else {
                assert(later[k - b.len()] == s[k - b.len() + 1]);
                assert(up(s[k - b.len() + 1]));
            }
        }
    }
}

/// The other place at which a file that is named from outside may lie: below the directory of
/// books, where its path begins with that of the books.
pub open spec fn candidate_of(path: Seq<char>, book_root: Seq<char>) -> Option<Seq<char>> {
    let slashed = with_char_replaced(path, '\\', '/');
    if "book/"@.is_prefix_of(slashed) {
        Some(joined_path(book_root, slashed.skip("book/"@.len() as int)))
    } else {
        None
    }
}

/// The other place at which a file that is named from outside may lie.
pub fn input_candidate(path: &str, book_root: &str) -> (r: Option<String>)
    ensures
        match candidate_of(path@, book_root@) {
            Some(c) => r matches Some(p) && p@ == c,
            None => r is None,
        },
{
    let slashed = replace_char(path, '\\', '/');
    match strip_prefix(slashed.as_str(), "book/") {
        Some(rest) => Some(join(book_root, rest.as_str())),
        None => None,
    }
}

/// Where a file that is named from outside lies: at its path where it is there, else at the other
/// place where it is there; `at_path` and `at_candidate` say whether it is.
pub fn resolve_input_file_path(
    path: &str,
    book_root: &str,
    at_path: bool,
    at_candidate: bool,
) -> (r: String)
    ensures
        r@ == if !at_path && at_candidate && candidate_of(path@, book_root@) is Some {
            candidate_of(path@, book_root@)->0
        } else {
            path@
        },
{
    if !at_path && at_candidate {
        if let Some(c) = input_candidate(path, book_root) {
            return c;
        }
    }
    copy(path)
}

/// The smaller of two numbers.
pub open spec fn least(a: nat, b: nat) -> nat {
    if a <= b {
        a
    } else {
        b
    }
}

/// The range of bytes, first and last, that a range header asks for of a file of `len` bytes; none
/// where it asks for nothing that the file has.
pub open spec fn range_of(value: Seq<char>, len: nat) -> Option<(nat, nat)> {
    let max = usize::MAX as nat;
    let rest = value.skip("bytes="@.len() as int);
    let first = trimmed(pieces_of(rest, ',')[0]);
    if !"bytes="@.is_prefix_of(value) {
        None
    } else {
        match cut_at(first, '-') {
            None => None,
            Some((from, to)) => if from.len() == 0 {
                match bounded_numeral(to, max) {
                    Some(n) if n > 0 && len > 0 => Some(
                        ((len - least(n, len)) as nat, (len - 1) as nat),
                    ),
                    _ => None,
                }
            } else {
                match bounded_numeral(from, max) {
                    Some(start) if start < len => {
                        let end = if to.len() == 0 {
                            Some((len - 1) as nat)
                        } else {
                            match bounded_numeral(to, max) {
                                Some(n) => Some(least(n, (len - 1) as nat)),
                                None => None,
                            }
                        };
                        match end {
                            Some(e) if e >= start => Some((start, e)),
                            _ => None,
                        }
                    },
                    _ => None,
                }
            },
        }
    }
}

/// The range of bytes, first and last, that a range header asks for of a file of `len` bytes.
pub fn parse_range_header(value: &str, len: usize) -> (r: Option<(usize, usize)>)
    ensures
        match range_of(value@, len as nat) {
            Some((a, b)) => r == Some((a as usize, b as usize)),
            None => r is None,
        },
        r matches Some((a, b)) ==> a <= b < len,
{
    let rest = match strip_prefix(value, "bytes=") {
        Some(s) => s,
        None => return None,
    };
    let pieces = split(rest.as_str(), ',');
    assert(texts(pieces@)[0] == pieces@[0]@);
    let first = trim(pieces[0].as_str());
    let (from, to) = match split_once(first.as_str(), '-') {
        Some(p) => p,
        None => return None,
    };
    let max = usize::MAX as u64;
    if from.as_str().unicode_len() == 0 {
        let n = match parse_number(to.as_str(), max) {
            Some(n) => n as usize,
            None => return None,
        };
        if n == 0 || len == 0 {
            return None;
        }
        let start: usize = if n >= len { 0 } else { len - n };
        return Some((start, len - 1));
    }
    let start = match parse_number(from.as_str(), max) {
        Some(n) => n as usize,
        None => return None,
    };
    if start >= len {
        return None;
    }
    let end: usize = if to.as_str().unicode_len() == 0 {
        len - 1
    } else {
        let n = match parse_number(to.as_str(), max) {
            Some(n) => n as usize,
            None => return None,
        };
        if n <= len - 1 {
            n
        } else {
            len - 1
        }
    };
    if end < start {
        return None;
    }
    Some((start, end))
}

/// The media type that the mime_guess crate gives a file by its path.
pub uninterp spec fn media_type(path: Seq<char>) -> Seq<char>;

/// `mime_guess::from_path` and `first_or_octet_stream`: the media type of a file by the extension
/// of its path; that of plain bytes where the path has no extension.
#[verifier::external_body]
fn guess_media_type(path: &str) -> (r: String)
    ensures
        r@ == media_type(path@),
        extension_of(path@) is None ==> r@ == "application/octet-stream"@,
{
    mime_guess::from_path(path).first_or_octet_stream().to_string()
}

/// How a download is answered: the status, the headers, and the range of bytes, first and last, of
/// an answer with a part of the file.
#[derive(Debug)]
pub struct Download {
    pub status: u16,
    pub headers: Vec<(String, String)>,
    pub range: Option<(usize, usize)>,
}

/// How a file is to be shown.
pub open spec fn disposition(name: Seq<char>, inline: bool) -> Seq<char> {
    (if inline {
        "inline; filename=\""@
    } else {
        "attachment; filename=\""@
    }) + name + "\""@
}

/// The headers of an answer with the whole file.
pub open spec fn whole_headers(
    media: Seq<char>,
    shown: Seq<char>,
    len: nat,
) -> Seq<Pair> {
    seq![
        ("Content-Type"@, media),
        ("Content-Disposition"@, shown),
        ("Accept-Ranges"@, "bytes"@),
        ("Content-Length"@, decimal(len)),
    ]
}

/// The headers of an answer with a part of the file.
pub open spec fn part_headers(
    media: Seq<char>,
    shown: Seq<char>,
    len: nat,
    start: nat,
    end: nat,
) -> Seq<Pair> {
    seq![
        ("Content-Type"@, media),
        ("Content-Disposition"@, shown),
        ("Accept-Ranges"@, "bytes"@),
        (
            "Content-Range"@,
            "bytes "@ + decimal(start) + "-"@ + decimal(end) + "/"@ + decimal(len),
        ),
        ("Content-Length"@, decimal((end + 1 - start) as nat)),
    ]
}

/// The headers of an answer that the range is not in the file.
pub open spec fn no_range_headers(len: nat) -> Seq<Pair> {
    seq![("Accept-Ranges"@, "bytes"@), ("Content-Range"@, "bytes */"@ + decimal(len))]
}

fn header(headers: &mut Vec<(String, String)>, name: &str, value: String)
    ensures
        pair_views(final(headers)@) == pair_views(old(headers)@).push((name@, value@)),
{
    let ghost before = pair_views(headers@);
    headers.push((copy(name), value));
    assert(pair_views(headers@) =~= before.push((name@, value@)));
}

/// How a download of a file of `len` bytes is answered, given its media type and the range header
/// of the request.
pub fn answer_download(
    name: &str,
    media: &str,
    len: usize,
    inline: bool,
    range: Option<&str>,
) -> (r: Download)
    ensures
        ({
            let shown = disposition(name@, inline);
            match range {
                None => r.status == 200 && r.range is None && pair_views(r.headers@)
                    == whole_headers(media@, shown, len as nat),
                Some(h) => match range_of(h@, len as nat) {
                    Some((a, b)) => r.status == 206 && r.range == Some((a as usize, b as usize))
                        && pair_views(r.headers@) == part_headers(media@, shown, len as nat, a, b),
                    None => r.status == 416 && r.range is None && pair_views(r.headers@)
                        == no_range_headers(len as nat),
                },
            }
        }),
        r.range matches Some((a, b)) ==> a <= b < len,
{
    let mut shown = copy(
        if inline {
            "inline; filename=\""
        } else {
            "attachment; filename=\""
        },
    );
    shown.append(name);
    shown.append("\"");
    let mut headers: Vec<(String, String)> = Vec::new();
    assert(pair_views(headers@) =~= seq![]);
    match range {
        None => {
            header(&mut headers, "Content-Type", copy(media));
            header(&mut headers, "Content-Disposition", shown);
            header(&mut headers, "Accept-Ranges", copy("bytes"));
            header(&mut headers, "Content-Length", to_decimal(len as u64));
            assert(pair_views(headers@) =~= whole_headers(media@, shown@, len as nat));
            Download { status: 200, headers, range: None }
        },
        Some(h) => match parse_range_header(h, len) {
            Some((start, end)) => {
                header(&mut headers, "Content-Type", copy(media));
                header(&mut headers, "Content-Disposition", shown);
                header(&mut headers, "Accept-Ranges", copy("bytes"));
                let mut part = copy("bytes ");
                part.append(to_decimal(start as u64).as_str());
                part.append("-");
                part.append(to_decimal(end as u64).as_str());
                part.append("/");
                part.append(to_decimal(len as u64).as_str());
                header(&mut headers, "Content-Range", part);
                header(&mut headers, "Content-Length", to_decimal((end - start + 1) as u64));
                assert(pair_views(headers@) =~= part_headers(
                    media@,
                    shown@,
                    len as nat,
                    start as nat,
                    end as nat,
                ));
                Download { status: 206, headers, range: Some((start, end)) }
            },
            None => {
                header(&mut headers, "Accept-Ranges", copy("bytes"));
                let mut none = copy("bytes */");
                none.append(to_decimal(len as u64).as_str());
                header(&mut headers, "Content-Range", none);
                assert(pair_views(headers@) =~= no_range_headers(len as nat));
                Download { status: 416, headers, range: None }
            },
        },
    }
}

/// The name of the file at a path; empty where it has none.
pub open spec fn name_or_empty(path: Seq<char>) -> Seq<char> {
    match file_name_of(path) {
        Some(n) => n,
        None => seq![],
    }
}

/// How a download of the file at a path, of `len` bytes, is answered.
pub fn plan_download(path: &str, len: usize, inline: bool, range: Option<&str>) -> (r: Download)
    ensures
        ({
            let shown = disposition(name_or_empty(path@), inline);
            let media = media_type(path@);
            match range {
                None => r.status == 200 && r.range is None && pair_views(r.headers@)
                    == whole_headers(media, shown, len as nat),
                Some(h) => match range_of(h@, len as nat) {
                    Some((a, b)) => r.status == 206 && r.range == Some((a as usize, b as usize))
                        && pair_views(r.headers@) == part_headers(media, shown, len as nat, a, b),
                    None => r.status == 416 && r.range is None && pair_views(r.headers@)
                        == no_range_headers(len as nat),
                },
            }
        }),
        r.range matches Some((a, b)) ==> a <= b < len,
{
    let name = match file_name(path) {
        Some(n) => n,
        None => String::new(),
    };
    assert(name@ =~= name_or_empty(path@));
    let media = guess_media_type(path);
    answer_download(name.as_str(), media.as_str(), len, inline, range)
}

/// An entry of a listing.
#[derive(Debug)]
pub struct FileEntry {
    pub name: String,
    pub is_dir: bool,
    pub size: u64,
    pub modified: u64,
}

/// Whether `a` is listed before `b`: directories come first, and then names in order.
pub open spec fn listed_before(a: FileEntry, b: FileEntry) -> bool {
    if a.is_dir != b.is_dir {
        a.is_dir
    } else {
        text_le(a.name@, b.name@)
    }
}

fn is_listed_before(a: &FileEntry, b: &FileEntry) -> (r: bool)
    ensures
        r == listed_before(*a, *b),
{
    if a.is_dir != b.is_dir {
        a.is_dir
    } else {
        is_text_le(a.name.as_str(), b.name.as_str())
    }
}

/// Whether a listing is in order.
pub open spec fn listing_in_order(v: Seq<FileEntry>) -> bool {
    forall|i: int, j: int| 0 <= i < j < v.len() ==> listed_before(#[trigger] v[i], #[trigger] v[j])
}

proof fn lemma_listed_total(a: FileEntry, b: FileEntry)
    ensures
        listed_before(a, b) || listed_before(b, a),
{
    lemma_text_le_total(a.name@, b.name@);
}

proof fn lemma_listed_trans(a: FileEntry, b: FileEntry, c: FileEntry)
    requires
        listed_before(a, b),
        listed_before(b, c),
    ensures
        listed_before(a, c),
{
    if text_le(a.name@, b.name@) && text_le(b.name@, c.name@) {
        lemma_text_le_trans(a.name@, b.name@, c.name@);
    }
}

/// Puts a listing in order.
pub fn sort_entries(entries: Vec<FileEntry>) -> (r: Vec<FileEntry>)
    ensures
        listing_in_order(r@),
        r@.to_multiset() == entries@.to_multiset(),
{
    let ghost all = entries@;
    let mut rest = entries;
    let mut r: Vec<FileEntry> = Vec::new();
    proof {
        assert(all.skip(all.len() as int) =~= r@);
        assert(all.take(all.len() as int) =~= all);
    }
    while rest.len() > 0
        invariant
            rest@.len() <= all.len(),
            rest@ == all.take(rest@.len() as int),
            listing_in_order(r@),
            r@.to_multiset() == all.skip(rest@.len() as int).to_multiset(),
        decreases rest@.len(),
    {
        let ghost n = rest@.len() as int;
        match rest.pop() {
            Some(x) => {
                let ghost sorted = r@;
                let mut i: usize = 0;
                while i < r.len() && !is_listed_before(&x, &r[i])
                    invariant
                        i <= r@.len(),
                        r@ == sorted,
                        forall|k: int| 0 <= k < i ==> !listed_before(x, #[trigger] sorted[k]),
                    decreases r@.len() - i,
                {
                    i += 1;
                }
                r.insert(i, x);
                proof {
                    let w = sorted.insert(i as int, x);
                    assert(r@ == w);
                    assert forall|a: int, b: int| 0 <= a < b < w.len() implies listed_before(
                        #[trigger] w[a],
                        #[trigger] w[b],
                    ) by {
                        if b < i {
                            assert(w[a] == sorted[a] && w[b] == sorted[b]);
                        } else if b == i {
                            assert(w[a] == sorted[a]);
                            lemma_listed_total(x, sorted[a]);
                        } else if a < i {
                            assert(w[a] == sorted[a] && w[b] == sorted[b - 1]);
                        } else if a == i {
                            assert(w[b] == sorted[b - 1]);
                            if b - 1 > i {
                                lemma_listed_trans(x, sorted[i as int], sorted[b - 1]);
                            }
                        } else {
                            assert(w[a] == sorted[a - 1] && w[b] == sorted[b - 1]);
                        }
                    }
                    let tail = all.skip(n);
                    assert(all.skip(n - 1) =~= tail.insert(0, x));
                    vstd::seq_lib::to_multiset_insert(sorted, i as int, x);
                    vstd::seq_lib::to_multiset_insert(tail, 0, x);
                }
            },
            None => {},
        }
    }
    assert(all.skip(0) =~= all);
    r
}

/// The directory that an uploaded file is put into: the one that is named, or that of the books
/// where none may be named so.
pub fn upload_directory(
    root: &str,
    sub_path: &str,
    book_at_root: bool,
    output_at_root: bool,
) -> (r: String)
    ensures
        r@ == match root_of(root@, book_at_root, output_at_root) {
            Some(base) => match safe_path_of(base, sub_path@) {
                Some(p) => p,
                None => "book"@,
            },
            None => "book"@,
        },
{
    match get_safe_path(root, Some(sub_path), book_at_root, output_at_root) {
        Some(p) => p,
        None => copy("book"),
    }
}

/// There are two roots, that of the books and that of what is made, each at the top or below the
/// present directory; no other name is that of a root.
pub proof fn law_there_are_two_roots(root: Seq<char>, book_at_root: bool, output_at_root: bool)
    ensures
        root_of("book"@, book_at_root, output_at_root) == Some(
            if book_at_root {
                "/book"@
            } else {
                "book"@
            },
        ),
        root_of("output"@, book_at_root, output_at_root) == Some(
            if output_at_root {
                "/output"@
            } else {
                "output"@
            },
        ),
        root_of(root, book_at_root, output_at_root) is Some <==> root == "book"@ || root
            == "output"@,
{
    reveal_strlit("book");
    reveal_strlit("output");
    assert("book"@.len() == 4 && "output"@.len() == 6);
}

/// A path that is allowed is the one that was named, taken from the root; slashes and backslashes in
/// front of it change nothing.
pub proof fn law_allowed_paths_are_those_that_are_named(
    base: Seq<char>,
    slashes: Seq<char>,
    sub: Seq<char>,
)
    requires
        base.len() > 0,
        forall|i: int| 0 <= i < slashes.len() ==> #[trigger] slashes[i] == '/' || slashes[i] == '\\',
        sub.len() > 0,
        sub[0] != '/' && sub[0] != '\\',
    ensures
        safe_path_of(base, slashes + sub) == if goes_up(sub) {
            None
        } else {
            Some(joined_path(base, sub))
        },
{
    let s = slashes + sub;
    let class = CharClass::Slash;
    assert forall|i: int| 0 <= i < slashes.len() implies class.has(#[trigger] s[i]) by {
        assert(s[i] == slashes[i]);
    }
    assert(s[slashes.len() as int] == sub[0]);
    lemma_leading_unique(s, class, slashes.len() as int);
    assert(s.skip(slashes.len() as int) =~= sub);
    law_safe_paths_stay_below_the_root(base, s);
}

/// A file that is named below the directory of the books, with slashes or backslashes, may lie there
/// under the directory that the books really have; no other file has another place.
pub proof fn law_books_may_lie_elsewhere(path: Seq<char>, book_root: Seq<char>)
    ensures
        ({
            let slashed = path.map_values(
                |c: char|
                    if c == '\\' {
                        '/'
                    } else {
                        c
                    },
            );
            &&& candidate_of(path, book_root) is Some <==> "book/"@.is_prefix_of(slashed)
            &&& candidate_of(path, book_root) matches Some(p) ==> p == joined_path(
                book_root,
                slashed.skip(5),
            )
        }),
{
    reveal_strlit("book/");
    let slashed = path.map_values(
        |c: char|
            if c == '\\' {
                '/'
            } else {
                c
            },
    );
    assert(with_char_replaced(path, '\\', '/') =~= slashed);
}

proof fn lemma_range_text(from: Seq<char>, to: Seq<char>)
    requires
        forall|i: int| 0 <= i < from.len() ==> '0' <= #[trigger] from[i] <= '9',
        forall|i: int| 0 <= i < to.len() ==> '0' <= #[trigger] to[i] <= '9',
    ensures
        ({
            let value = "bytes="@ + (from + seq!['-'] + to);
            let rest = value.skip("bytes="@.len() as int);
            &&& "bytes="@.is_prefix_of(value)
            &&& cut_at(trimmed(pieces_of(rest, ',')[0]), '-') == Some((from, to))
        }),
{
    reveal_strlit("bytes=");
    let part = from + seq!['-'] + to;
    let value = "bytes="@ + part;
    assert(value.subrange(0, 6) =~= "bytes="@);
    assert(value.skip(6) =~= part);
    assert forall|i: int| 0 <= i < part.len() implies ('0' <= #[trigger] part[i] <= '9')
        || part[i] == '-' by {
        if i < from.len() {
            assert(part[i] == from[i]);
        } else if i > from.len() {
            assert(part[i] == to[i - from.len() - 1]);
        }
    }
    assert(!part.contains(',')) by {
        if part.contains(',') {
            let k = part.index_of(',');
            assert(part[k] == ',');
        }
    }
    lemma_one_piece(part, ',');
    let e = Seq::<char>::empty();
    law_trimming_takes_the_ends(e, part, e, CharClass::Space);
    assert(e + part + e =~= part);
    assert forall|i: int| 0 <= i < from.len() implies #[trigger] part[i] != '-' by {
        assert(part[i] == from[i]);
    }
    assert(part[from.len() as int] == '-');
    lemma_until_unique(part, '-', from.len() as int);
    assert(part.take(from.len() as int) =~= from);
    assert(part.skip(from.len() + 1int) =~= to);
}

/// A range header is read: from one byte to another, both counted from 0 and both part of the range,
/// which ends with the file at the latest; from one byte on; or so many bytes at the end. What the
/// file does not have is no range.
pub proof fn law_ranges_are_read(a: nat, b: nat, len: nat)
    requires
        a <= usize::MAX,
        b <= usize::MAX,
    ensures
        range_of("bytes="@ + (decimal(a) + seq!['-'] + decimal(b)), len) == if a <= b && a < len {
            Some(
                (
                    a,
                    if b < len {
                        b
                    } else {
                        (len - 1) as nat
                    },
                ),
            )
        } else {
            None
        },
        range_of("bytes="@ + (decimal(a) + seq!['-'] + seq![]), len) == if a < len {
            Some((a, (len - 1) as nat))
        } else {
            None
        },
        range_of("bytes="@ + (seq![] + seq!['-'] + decimal(b)), len) == if b > 0 && len > 0 {
            Some(
                (
                    if b < len {
                        (len - b) as nat
                    } else {
                        0
                    },
                    (len - 1) as nat,
                ),
            )
        } else {
            None
        },
{
    let e = Seq::<char>::empty();
    law_numerals_are_read_back(a);
    law_numerals_are_read_back(b);
    lemma_range_text(decimal(a), decimal(b));
    lemma_range_text(decimal(a), e);
    lemma_range_text(e, decimal(b));
}

/// The headers of an answer tell the media type, how the file is shown, and how many bytes follow; with
/// a part of the file they tell which part of how much it is.
pub proof fn law_headers_tell_what_follows(
    media: Seq<char>,
    shown: Seq<char>,
    len: nat,
    start: nat,
    end: nat,
)
    requires
        start <= end < len,
    ensures
        ({
            let whole = whole_headers(media, shown, len);
            let some = part_headers(media, shown, len, start, end);
            let none = no_range_headers(len);
            &&& whole.len() == 4 && some.len() == 5 && none.len() == 2
            &&& whole.contains(("Content-Type"@, media)) && some.contains(("Content-Type"@, media))
            &&& whole.contains(("Content-Disposition"@, shown)) && some.contains(
                ("Content-Disposition"@, shown),
            )
            &&& whole.contains(("Accept-Ranges"@, "bytes"@)) && some.contains(
                ("Accept-Ranges"@, "bytes"@),
            ) && none.contains(("Accept-Ranges"@, "bytes"@))
            &&& whole.contains(("Content-Length"@, decimal(len)))
            &&& some.contains(("Content-Length"@, decimal((end - start + 1) as nat)))
            &&& some.contains(
                (
                    "Content-Range"@,
                    "bytes "@ + decimal(start) + "-"@ + decimal(end) + "/"@ + decimal(len),
                ),
            )
            &&& none.contains(("Content-Range"@, "bytes */"@ + decimal(len)))
        }),
{
    let whole = whole_headers(media, shown, len);
    let some = part_headers(media, shown, len, start, end);
    let none = no_range_headers(len);
    assert(whole[0] == ("Content-Type"@, media) && some[0] == ("Content-Type"@, media));
    assert(whole[1] == ("Content-Disposition"@, shown) && some[1] == ("Content-Disposition"@, shown));
    assert(whole[2] == ("Accept-Ranges"@, "bytes"@) && some[2] == ("Accept-Ranges"@, "bytes"@));
    assert(whole[3] == ("Content-Length"@, decimal(len)));
    assert(some[4] == ("Content-Length"@, decimal((end - start + 1) as nat)));
    assert(some[3] == (
        "Content-Range"@,
        "bytes "@ + decimal(start) + "-"@ + decimal(end) + "/"@ + decimal(len),
    ));
    assert(none[0] == ("Accept-Ranges"@, "bytes"@));
    assert(none[1] == ("Content-Range"@, "bytes */"@ + decimal(len)));
}

/// A file is shown under its name, in the page where that is asked for and as a download otherwise.
pub proof fn law_files_are_shown_under_their_name(path: Seq<char>)
    ensures
        disposition(name_or_empty(path), true) == "inline; filename=\""@ + name_or_empty(path)
            + "\""@,
        disposition(name_or_empty(path), false) == "attachment; filename=\""@ + name_or_empty(path)
            + "\""@,
        file_name_of(path) matches Some(n) ==> name_or_empty(path) == n,
        file_name_of(path) is None ==> name_or_empty(path).len() == 0,
{
}

/// Directories are listed before files, and both by name.
pub proof fn law_directories_are_listed_first(a: FileEntry, b: FileEntry)
    ensures
        a.is_dir && !b.is_dir ==> listed_before(a, b) && !listed_before(b, a),
        a.is_dir == b.is_dir ==> (listed_before(a, b) <==> text_le(a.name@, b.name@)),
{
}

/// A listing in order shows directories before files, and either by their names.
pub proof fn law_listings_are_in_order(v: Seq<FileEntry>, i: int, j: int)
    requires
        listing_in_order(v),
        0 <= i < j < v.len(),
    ensures
        !(v[j].is_dir && !v[i].is_dir),
        v[i].is_dir == v[j].is_dir ==> text_le(v[i].name@, v[j].name@),
{
    assert(listed_before(v[i], v[j]));
}

/// No range is asked for by a value that does not begin as one, or whose first part has no hyphen.
pub proof fn law_other_values_ask_for_no_range(value: Seq<char>, len: nat)
    ensures
        !"bytes="@.is_prefix_of(value) ==> range_of(value, len) is None,
        len == 0 ==> range_of(value, len) is None,
        range_of(value, len) matches Some((a, b)) ==> a <= b < len,
{
}

} // verus!
