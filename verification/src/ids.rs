//! Where data lies, and the ids of tasks.

use crate::path::{
    file_name_of, here, join, joined_path, lemma_joined_name, lies_under, up,
};
use crate::text::copy;
use vstd::prelude::*;
use vstd::utf8::encode_utf8;

verus! {

/// The MD5 digest of bytes as a hexadecimal numeral, as the md5 crate computes it.
pub uninterp spec fn md5_hex(bytes: Seq<u8>) -> Seq<char>;

/// Whether `c` is a hexadecimal digit in lower case.
pub open spec fn hex_digit(c: char) -> bool {
    ('0' <= c <= '9') || ('a' <= c <= 'f')
}

/// `md5::compute`, shown as a hexadecimal numeral: 32 digits in lower case.
#[verifier::external_body]
fn md5_numeral(bytes: &[u8]) -> (r: String)
    ensures
        r@ == md5_hex(bytes@),
        r@.len() == 32,
        forall|i: int| 0 <= i < r@.len() ==> hex_digit(#[trigger] r@[i]),
{
    format!("{:x}", md5::compute(bytes))
}

/// The digest of a text.
pub open spec fn digest_of(text: Seq<char>) -> Seq<char> {
    md5_hex(encode_utf8(text))
}

fn digest(text: &str) -> (r: String)
    ensures
        r@ == digest_of(text@),
        r@.len() == 32,
        forall|i: int| 0 <= i < r@.len() ==> hex_digit(#[trigger] r@[i]),
{
    md5_numeral(text.as_bytes())
}

/// The id of the task that makes the sound of the book at a path.
pub fn synthesis_task_id(path: &str) -> (r: String)
    ensures
        r@ == digest_of(path@),
{
    digest(path)
}

/// The id of the task that finds the speakers of the book at a path.
pub fn analysis_task_id(path: &str) -> (r: String)
    ensures
        r@ == digest_of("analysis:"@ + path@),
{
    let mut text = copy("analysis:");
    text.append(path);
    digest(text.as_str())
}

/// The id of the task for the book at a path, by what is to be done.
pub fn task_id(path: &str, analysis_only: bool) -> (r: String)
    ensures
        r@ == if analysis_only {
            digest_of("analysis:"@ + path@)
        } else {
            digest_of(path@)
        },
{
    if analysis_only {
        analysis_task_id(path)
    } else {
        synthesis_task_id(path)
    }
}

/// The directory of data: the one at the root where it exists.
pub fn data_dir(at_root: bool) -> (r: &'static str)
    ensures
        r@ == if at_root {
            "/data"@
        } else {
            "data"@
        },
{
    if at_root {
        "/data"
    } else {
        "data"
    }
}

/// The directory of what is made: the one at the root where it exists.
pub fn output_root_path(at_root: bool) -> (r: &'static str)
    ensures
        r@ == if at_root {
            "/output"@
        } else {
            "output"@
        },
{
    if at_root {
        "/output"
    } else {
        "output"
    }
}

/// The directory of books: the one at the root where it exists.
pub fn book_root_path(at_root: bool) -> (r: &'static str)
    ensures
        r@ == if at_root {
            "/book"@
        } else {
            "book"@
        },
{
    if at_root {
        "/book"
    } else {
        "book"
    }
}

/// The directory of the saved analyses.
pub fn dialogue_analysis_dir(data_dir: &str) -> (r: String)
    ensures
        r@ == joined_path(data_dir@, "dialogue_analysis"@),
{
    join(data_dir, "dialogue_analysis")
}

/// The directory of the tables of voices.
pub fn allocations_dir(data_dir: &str) -> (r: String)
    ensures
        r@ == joined_path(data_dir@, "allocations"@),
{
    join(data_dir, "allocations")
}

/// The name of the file for the book at a path.
pub open spec fn data_name(path: Seq<char>) -> Seq<char> {
    digest_of(path) + ".json"@
}

proof fn lemma_data_name(name: Seq<char>)
    requires
        name.len() == 32,
        forall|i: int| 0 <= i < name.len() ==> hex_digit(#[trigger] name[i]),
    ensures
        (name + ".json"@).len() == 37,
        !(name + ".json"@).contains('/'),
        !here(name + ".json"@),
        !up(name + ".json"@),
{
    reveal_strlit(".json");
    let all = name + ".json"@;
    assert(all.len() == 37);
    assert(seq!['.'].len() == 1 && seq!['.', '.'].len() == 2);
    assert forall|i: int| 0 <= i < all.len() implies #[trigger] all[i] != '/' by {
        if i < 32 {
            assert(all[i] == name[i]);
            assert(hex_digit(name[i]));
        } else {
            assert(all[i] == ".json"@[i - 32]);
        }
    }
}

/// The path, in a directory, of the file for the book at a path: a file of its own in that very
/// directory.
fn data_path(dir: &str, path: &str) -> (r: String)
    requires
        dir@.len() > 0,
    ensures
        r@ == joined_path(dir@, data_name(path@)),
        lies_under(r@, dir@),
        file_name_of(r@) == Some(data_name(path@)),
{
    let mut name = digest(path);
    proof {
        lemma_data_name(name@);
    }
    name.append(".json");
    proof {
        lemma_joined_name(dir@, name@);
    }
    join(dir, name.as_str())
}

/// The path of the saved analysis of the book at a path.
pub fn dialogue_analysis_file_path(data_dir: &str, file_path: &str) -> (r: String)
    ensures
        r@ == joined_path(
            joined_path(data_dir@, "dialogue_analysis"@),
            data_name(file_path@),
        ),
        lies_under(r@, joined_path(data_dir@, "dialogue_analysis"@)),
        file_name_of(r@) == Some(data_name(file_path@)),
{
    let dir = dialogue_analysis_dir(data_dir);
    proof {
        reveal_strlit("dialogue_analysis");
    }
    data_path(dir.as_str(), file_path)
}

/// The path of the table of voices of the book at a path.
pub fn allocation_file_path(data_dir: &str, file_path: &str) -> (r: String)
    ensures
        r@ == joined_path(joined_path(data_dir@, "allocations"@), data_name(file_path@)),
        lies_under(r@, joined_path(data_dir@, "allocations"@)),
        file_name_of(r@) == Some(data_name(file_path@)),
{
    let dir = allocations_dir(data_dir);
    proof {
        reveal_strlit("allocations");
    }
    data_path(dir.as_str(), file_path)
}

/// The name of the file for a book is the digest of the bytes of its path, with `.json` behind it;
/// books have one file exactly where their paths have one digest.
pub proof fn law_files_are_named_by_the_digest(a: Seq<char>, b: Seq<char>)
    ensures
        digest_of(a) == md5_hex(encode_utf8(a)),
        data_name(a).len() == md5_hex(encode_utf8(a)).len() + 5,
        md5_hex(encode_utf8(a)).is_prefix_of(data_name(a)),
        ".json"@.is_suffix_of(data_name(a)),
        data_name(a) == data_name(b) <==> md5_hex(encode_utf8(a)) == md5_hex(encode_utf8(b)),
{
    reveal_strlit(".json");
    let x = digest_of(a);
    let y = digest_of(b);
    assert(data_name(a).subrange(0, x.len() as int) =~= x);
    assert(data_name(b).subrange(0, y.len() as int) =~= y);
    assert(data_name(a).subrange(data_name(a).len() - 5, data_name(a).len() as int) =~= ".json"@);
}

} // verus!
