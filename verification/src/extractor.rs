//! Books and their chapters: cutting a text file or the sections of an EPUB into chapters.

use crate::api::{pair_views, Pair};
use crate::markup::{is_renderable, renderable};
use crate::number::{decimal, to_decimal};
use crate::path::{extension, extension_of, file_stem, file_stem_of};
use crate::patterns::{has_match, heading, HEADING_PATTERN};
use crate::search::{
    lemma_lines_hold_no_feed, lemma_positions, lemma_positions_agree, lemma_positions_step,
    lemma_until, lines, lines_of, positions, same, until, without_return,
};
use crate::text::{
    blank, copy, is_blank, lower_case, lower_cased, texts, trim, trimmed, white_space,
};
use vstd::prelude::*;
use vstd::utf8::encode_utf8;

verus! {

/// A chapter of a book.
#[derive(Debug)]
pub struct Chapter {
    pub title: String,
    pub content: String,
}

/// A chapter as a value.
#[verifier::ext_equal]
pub struct ChapterView {
    pub title: Seq<char>,
    pub content: Seq<char>,
}

impl View for Chapter {
    type V = ChapterView;

    open spec fn view(&self) -> ChapterView {
        ChapterView { title: self.title@, content: self.content@ }
    }
}

impl Clone for Chapter {
    fn clone(&self) -> (r: Chapter)
        ensures
            r@ == self@,
    {
        Chapter { title: self.title.clone(), content: self.content.clone() }
    }
}

/// The views of a sequence of chapters.
pub open spec fn chapter_views(chapters: Seq<Chapter>) -> Seq<ChapterView> {
    Seq::new(chapters.len(), |i: int| chapters[i]@)
}

/// A book: its title, its chapters, and the data and media type of its cover.
#[derive(Debug)]
pub struct Book {
    pub title: String,
    pub chapters: Vec<Chapter>,
    pub cover: Option<(Vec<u8>, String)>,
}

/// The formats that books come in.
#[derive(Clone, Copy, Debug, PartialEq, Eq, Structural)]
pub enum BookFormat {
    Txt,
    Epub,
}

/// What was read of a book's file.
#[derive(Debug)]
pub enum BookContent {
    /// The text of the file.
    Text(String),
    /// What an EPUB states about itself, each a property and its value, its cover, and the markup
    /// of its sections, as far as they could be read.
    Epub {
        metadata: Vec<(String, String)>,
        cover: Option<(Vec<u8>, String)>,
        sections: Vec<Option<String>>,
    },
}

/// Why no book could be made of a file.
#[derive(Debug)]
pub enum ExtractError {
    /// The extension, in lower case, is that of no format.
    Unsupported(String),
    /// What was read is not what the format asks for.
    WrongContent,
    /// The markup of a section, counted from 0, could not be turned into text.
    Unrendered(usize),
    /// No section of the EPUB holds text.
    NoText,
}

impl ExtractError {
    /// The message that goes with the error.
    pub open spec fn message_of(self) -> Seq<char> {
        match self {
            ExtractError::Unsupported(ext) => "不支持的文件格式: "@ + ext@,
            ExtractError::WrongContent => "文件内容与格式不符"@,
            ExtractError::Unrendered(i) => "无法解析 EPUB 章节: "@ + decimal(i as nat),
            ExtractError::NoText => "未从 EPUB 中提取到任何文本"@,
        }
    }

    /// The message that goes with the error.
    pub fn message(&self) -> (r: String)
        ensures
            r@ == self.message_of(),
    {
        match self {
            ExtractError::Unsupported(ext) => {
                let mut r = copy("不支持的文件格式: ");
                r.append(ext.as_str());
                r
            },
            ExtractError::WrongContent => copy("文件内容与格式不符"),
            ExtractError::Unrendered(i) => {
                let mut r = copy("无法解析 EPUB 章节: ");
                r.append(to_decimal(*i as u64).as_str());
                r
            },
            ExtractError::NoText => copy("未从 EPUB 中提取到任何文本"),
        }
    }
}

/// The extension of a path in lower case; empty where there is none.
pub open spec fn lower_extension(path: Seq<char>) -> Seq<char> {
    match extension_of(path) {
        Some(ext) => lower_cased(ext),
        None => seq![],
    }
}

/// The format that an extension in lower case stands for.
pub open spec fn format_of(ext: Seq<char>) -> Option<BookFormat> {
    if ext == "txt"@ {
        Some(BookFormat::Txt)
    } else if ext == "epub"@ {
        Some(BookFormat::Epub)
    } else {
        None
    }
}

/// The format that an extension in lower case stands for.
pub fn format_from_extension(ext: &str) -> (r: Option<BookFormat>)
    ensures
        r == format_of(ext@),
{
    if crate::search::same(ext, "txt") {
        Some(BookFormat::Txt)
    } else if crate::search::same(ext, "epub") {
        Some(BookFormat::Epub)
    } else {
        None
    }
}

/// The format of the book at a path.
pub fn book_format(path: &str) -> (r: Result<BookFormat, ExtractError>)
    ensures
        match format_of(lower_extension(path@)) {
            Some(f) => r == Ok::<BookFormat, ExtractError>(f),
            None => r matches Err(ExtractError::Unsupported(ext)) && ext@ == lower_extension(path@),
        },
{
    let ext = match extension(path) {
        Some(e) => lower_case(e.as_str()),
        None => String::new(),
    };
    assert(ext@ =~= lower_extension(path@));
    match format_from_extension(ext.as_str()) {
        Some(f) => Ok(f),
        None => Err(ExtractError::Unsupported(ext)),
    }
}

/// What has been read of a text file: the chapters that are complete, the title and content of
/// the one at hand, and whether a heading was seen.
#[verifier::ext_equal]
pub struct TxtState {
    pub chapters: Seq<ChapterView>,
    pub title: Seq<char>,
    pub content: Seq<char>,
    pub found: bool,
}

/// The complete chapters, with the one at hand where it has content.
pub open spec fn closed_chapters(st: TxtState) -> Seq<ChapterView> {
    if st.content.len() > 0 {
        st.chapters.push(ChapterView { title: st.title, content: st.content })
    } else {
        st.chapters
    }
}

/// One line more: a heading starts a chapter, any other line that is not blank is content.
pub open spec fn txt_line(st: TxtState, line: Seq<char>) -> TxtState {
    if blank(line) {
        st
    } else if heading(line) {
        TxtState {
            chapters: closed_chapters(st),
            title: trimmed(line),
            content: seq![],
            found: true,
        }
    } else {
        TxtState { content: st.content + line + seq!['\n'], ..st }
    }
}

/// What has been read after the lines.
pub open spec fn txt_lines(lines: Seq<Seq<char>>) -> TxtState
    decreases lines.len(),
{
    if lines.len() == 0 {
        TxtState { chapters: seq![], title: "序章/开始"@, content: seq![], found: false }
    } else {
        txt_line(txt_lines(lines.drop_last()), lines.last())
    }
}

/// The chapters of a text file whose name is `stem`.
pub open spec fn txt_chapters(content: Seq<char>, stem: Seq<char>) -> Seq<ChapterView> {
    let st = txt_lines(lines_of(content));
    let all = closed_chapters(st);
    if all.len() == 0 && !blank(content) {
        seq![ChapterView { title: stem, content }]
    } else if all.len() == 1 && !st.found {
        seq![ChapterView { title: stem, content: all[0].content }]
    } else {
        all
    }
}

/// The lines that are content, in order, each with a line feed.
pub open spec fn content_lines(lines: Seq<Seq<char>>) -> Seq<char>
    decreases lines.len(),
{
    if lines.len() == 0 {
        seq![]
    } else if blank(lines.last()) || heading(lines.last()) {
        content_lines(lines.drop_last())
    } else {
        content_lines(lines.drop_last()) + lines.last() + seq!['\n']
    }
}

/// The contents of the chapters, one after the other.
pub open spec fn contents(chapters: Seq<ChapterView>) -> Seq<char>
    decreases chapters.len(),
{
    if chapters.len() == 0 {
        seq![]
    } else {
        contents(chapters.drop_last()) + chapters.last().content
    }
}

proof fn lemma_contents_push(chapters: Seq<ChapterView>, c: ChapterView)
    ensures
        contents(chapters.push(c)) == contents(chapters) + c.content,
{
    assert(chapters.push(c).drop_last() =~= chapters);
}

proof fn lemma_txt_lines(lines: Seq<Seq<char>>)
    ensures
        contents(txt_lines(lines).chapters) + txt_lines(lines).content == content_lines(lines),
        forall|i: int|
            0 <= i < txt_lines(lines).chapters.len() ==> (
            #[trigger] txt_lines(lines).chapters[i]).content.len() > 0,
    decreases lines.len(),
{
    if lines.len() > 0 {
        let before = txt_lines(lines.drop_last());
        let after = txt_lines(lines);
        let line = lines.last();
        lemma_txt_lines(lines.drop_last());
        if blank(line) {
        } else if heading(line) {
            if before.content.len() > 0 {
                lemma_contents_push(
                    before.chapters,
                    ChapterView { title: before.title, content: before.content },
                );
            } else {
                assert(before.content =~= seq![]);
            }
            assert(contents(after.chapters) + after.content =~= content_lines(lines));
        } else {
            assert(contents(after.chapters) + after.content =~= content_lines(lines));
        }
        assert forall|i: int| 0 <= i < after.chapters.len() implies (
        #[trigger] after.chapters[i]).content.len() > 0 by {
            if i < before.chapters.len() {
                assert(after.chapters[i] == before.chapters[i]);
            }
        }
    } else {
        assert(contents(txt_lines(lines).chapters) + txt_lines(lines).content =~= content_lines(
            lines,
        ));
    }
}

proof fn lemma_closed_chapters(lines: Seq<Seq<char>>)
    ensures
        contents(closed_chapters(txt_lines(lines))) == content_lines(lines),
        forall|i: int|
            0 <= i < closed_chapters(txt_lines(lines)).len() ==> (
            #[trigger] closed_chapters(txt_lines(lines))[i]).content.len() > 0,
{
    lemma_txt_lines(lines);
    let st = txt_lines(lines);
    if st.content.len() > 0 {
        lemma_contents_push(st.chapters, ChapterView { title: st.title, content: st.content });
    } else {
        assert(st.content =~= seq![]);
        assert(contents(st.chapters) + st.content =~= contents(st.chapters));
    }
}

proof fn lemma_blank_lines(s: Seq<char>)
    requires
        blank(s),
    ensures
        forall|i: int| 0 <= i < lines_of(s).len() ==> blank(#[trigger] lines_of(s)[i]),
    decreases s.len(),
{
    let n = until(s, '\n');
    lemma_until(s, '\n');
    if s.len() > 0 && n < s.len() {
        let rest = s.skip(n + 1int);
        let line = without_return(s.take(n as int));
        assert forall|k: int| 0 <= k < rest.len() implies white_space(#[trigger] rest[k]) by {
            assert(rest[k] == s[n + 1 + k]);
        }
        assert forall|k: int| 0 <= k < line.len() implies white_space(#[trigger] line[k]) by {
            assert(line[k] == s[k]);
        }
        lemma_blank_lines(rest);
        assert forall|i: int| 0 <= i < lines_of(s).len() implies blank(
            #[trigger] lines_of(s)[i],
        ) by {
            if i > 0 {
                assert(lines_of(s)[i] == lines_of(rest)[i - 1]);
            }
        }
    }
}

proof fn lemma_no_lines(lines: Seq<Seq<char>>)
    requires
        forall|i: int| 0 <= i < lines.len() ==> blank(#[trigger] lines[i]),
    ensures
        closed_chapters(txt_lines(lines)).len() == 0,
        txt_lines(lines) == txt_lines(seq![]),
    decreases lines.len(),
{
    if lines.len() > 0 {
        assert(blank(lines[lines.len() - 1]));
        lemma_no_lines(lines.drop_last());
    } else {
        assert(lines =~= seq![]);
    }
}

/// A text that is not blank has a chapter, and a blank one has none; no chapter is empty; and the
/// contents of the chapters, one after the other, are the lines that are content, unless no line
/// is, when the one chapter is the text.
pub proof fn law_txt_chapters_keep_the_text(content: Seq<char>, stem: Seq<char>)
    ensures
        txt_chapters(content, stem).len() > 0 <==> !blank(content),
        forall|i: int|
            0 <= i < txt_chapters(content, stem).len() ==> (
            #[trigger] txt_chapters(content, stem)[i]).content.len() > 0,
        contents(txt_chapters(content, stem)) == if content_lines(lines_of(content)).len() > 0 || blank(
            content,
        ) {
            content_lines(lines_of(content))
        } else {
            content
        },
{
    let lines = lines_of(content);
    let all = closed_chapters(txt_lines(lines));
    let st = txt_lines(lines);
    lemma_closed_chapters(lines);
    reveal_with_fuel(contents, 2);
    if blank(content) {
        lemma_blank_lines(content);
        lemma_no_lines(lines);
        assert(txt_chapters(content, stem) =~= all);
    } else if all.len() == 0 {
        let one = txt_chapters(content, stem);
        assert(one.drop_last() =~= seq![]);
        assert(contents(one) =~= content);
        assert(content.len() > 0);
    } else {
        assert(content_lines(lines).len() > 0) by {
            let last = all.last().content;
            assert(all[all.len() - 1].content.len() > 0);
            assert(contents(all).len() >= last.len());
        }
        if all.len() == 1 && !st.found {
            let one = txt_chapters(content, stem);
            assert(one.drop_last() =~= seq![]);
            assert(all.drop_last() =~= seq![]);
            assert(contents(one) =~= contents(all));
            assert(all[0].content.len() > 0);
        }
    }
}

/// The name of a file without its extension; empty where it has none.
pub open spec fn stem_of(path: Seq<char>) -> Seq<char> {
    match file_stem_of(path) {
        Some(s) => s,
        None => seq![],
    }
}

fn stem(path: &str) -> (r: String)
    ensures
        r@ == stem_of(path@),
{
    match file_stem(path) {
        Some(s) => s,
        None => {
            let r = String::new();
            assert(r@ =~= seq![]);
            r
        },
    }
}

/// Cuts the text of the file at `path` into chapters.
pub fn extract_txt(path: &str, content: String) -> (r: Book)
    ensures
        r.title@ == stem_of(path@),
        chapter_views(r.chapters@) == txt_chapters(content@, stem_of(path@)),
        r.cover is None,
{
    let book_title = stem(path);
    let all = lines(content.as_str());
    let ghost views = texts(all@);
    let mut chapters: Vec<Chapter> = Vec::new();
    let mut title = copy("序章/开始");
    let mut body = String::new();
    let mut found = false;
    let mut i: usize = 0;
    proof {
        lemma_lines_hold_no_feed(content@);
        assert(views.take(0) =~= seq![]);
        assert(chapter_views(chapters@) =~= seq![]);
        assert(body@ =~= seq![]);
    }
    while i < all.len()
        invariant
            i <= all@.len(),
            views == texts(all@),
            views == lines_of(content@),
            forall|k: int| 0 <= k < views.len() ==> !(#[trigger] views[k]).contains('\n'),
            txt_lines(views.take(i as int)) == (TxtState {
                chapters: chapter_views(chapters@),
                title: title@,
                content: body@,
                found,
            }),
        decreases all@.len() - i,
    {
        let ghost before = chapter_views(chapters@);
        let ghost old_title = title@;
        let ghost old_body = body@;
        let line = all[i].as_str();
        proof {
            assert(views.take(i + 1).drop_last() =~= views.take(i as int));
            assert(views.take(i + 1).last() == line@);
            assert(!views[i as int].contains('\n'));
        }
        if !is_blank(line) {
            if has_match(HEADING_PATTERN, line) {
                if body.as_str().unicode_len() > 0 {
                    chapters.push(Chapter { title, content: body });
                    assert(chapter_views(chapters@) =~= before.push(
                        ChapterView { title: old_title, content: old_body },
                    ));
                }
                body = String::new();
                title = trim(line);
                found = true;
                assert(body@ =~= seq![]);
            } else {
                body.append(line);
                body.push('\n');
                assert(body@ =~= old_body + line@ + seq!['\n']);
            }
        }
        i += 1;
    }
    assert(views.take(i as int) =~= views);
    let ghost st = txt_lines(lines_of(content@));
    if body.as_str().unicode_len() > 0 {
        let ghost before = chapter_views(chapters@);
        chapters.push(Chapter { title, content: body });
        assert(chapter_views(chapters@) =~= closed_chapters(st));
    }
    assert(chapter_views(chapters@) == closed_chapters(st));
    if chapters.len() == 0 && !is_blank(content.as_str()) {
        chapters.push(Chapter { title: book_title.clone(), content });
        assert(chapter_views(chapters@) =~= txt_chapters(content@, book_title@));
    } else if chapters.len() == 1 && !found {
        let ghost first = chapters@[0]@;
        assert(closed_chapters(st)[0] == first);
        let only = match chapters.pop() {
            Some(c) => c.content,
            None => String::new(),
        };
        chapters.push(Chapter { title: book_title.clone(), content: only });
        assert(chapter_views(chapters@) =~= txt_chapters(content@, book_title@));
    }
    Book { title: book_title, chapters, cover: None }
}

/// What the html2text crate makes of markup, for lines of up to `width` columns; none where it
/// fails.
pub uninterp spec fn html_text(markup: Seq<char>, width: nat) -> Option<Seq<char>>;

/// `html2text::config::plain().string_from_read`: the text that the markup shows, laid out in
/// lines of up to `width` columns; none where the lines are not wide enough for it. The call panics
/// where the spans of the cells of a row or the numbers of a list overflow, where a cell is too wide
/// to be padded, and, where overflow is checked for, at an element with a name of its own behind
/// preformatted text that is wider than its cell. It runs out of stack on deep nesting. It does not end where a word is cut that is
/// wider when shown than its characters are together, nor at a tab in preformatted text where the
/// prefixes of a cell leave no column for it.
#[verifier::external_body]
fn render(markup: &str, width: usize) -> (r: Option<String>)
    requires
        renderable(markup@),
        width == SECTION_WIDTH,
    ensures
        r matches Some(t) ==> html_text(markup@, width as nat) == Some(t@),
        r is None ==> html_text(markup@, width as nat) is None,
{
    html2text::config::plain().string_from_read(markup.as_bytes(), width).ok()
}

/// The columns that the text of a section is laid out in.
pub const SECTION_WIDTH: usize = 9999;

/// How many bytes the first line of a section that serves as its title has less than.
pub const TITLE_BYTES: usize = 50;

/// The first line that is not blank.
pub open spec fn first_line(lines: Seq<Seq<char>>) -> Option<Seq<char>>
    decreases lines.len(),
{
    if lines.len() == 0 {
        None
    } else if !blank(lines[0]) {
        Some(lines[0])
    } else {
        first_line(lines.skip(1))
    }
}

/// The title of the section with index `i`: its first line where that is short, else its number.
pub open spec fn section_title(text: Seq<char>, i: nat) -> Seq<char> {
    match first_line(lines_of(text)) {
        Some(line) => if encode_utf8(line).len() < TITLE_BYTES {
            trimmed(line)
        } else {
            "第 "@ + decimal(i + 1) + " 节"@
        },
        None => "第 "@ + decimal(i + 1) + " 节"@,
    }
}

/// The chapters of the sections' texts: one for each section that could be read and is not blank.
pub open spec fn section_chapters(sections: Seq<Option<Seq<char>>>) -> Seq<ChapterView>
    decreases sections.len(),
{
    if sections.len() == 0 {
        seq![]
    } else {
        let before = section_chapters(sections.drop_last());
        match sections.last() {
            Some(text) if !blank(text) => before.push(
                ChapterView {
                    title: section_title(text, (sections.len() - 1) as nat),
                    content: text,
                },
            ),
            _ => before,
        }
    }
}

/// The views of optional texts.
pub open spec fn optional_texts(v: Seq<Option<String>>) -> Seq<Option<Seq<char>>> {
    Seq::new(
        v.len(),
        |i: int|
            match v[i] {
                Some(s) => Some(s@),
                None => None,
            },
    )
}

fn find_first_line(text: &str) -> (r: Option<String>)
    ensures
        r matches Some(l) ==> first_line(lines_of(text@)) == Some(l@),
        r is None ==> first_line(lines_of(text@)) is None,
{
    let all = lines(text);
    let ghost views = texts(all@);
    let mut i: usize = 0;
    assert(views.skip(0) =~= views);
    while i < all.len()
        invariant
            i <= all@.len(),
            views == texts(all@),
            views == lines_of(text@),
            first_line(views) == first_line(views.skip(i as int)),
        decreases all@.len() - i,
    {
        let line = all[i].as_str();
        assert(views.skip(i as int)[0] == line@);
        if !is_blank(line) {
            return Some(copy(line));
        }
        assert(views.skip(i as int).skip(1) =~= views.skip(i + 1));
        i += 1;
    }
    None
}

/// The title of the section with index `i`.
fn title_of_section(text: &str, i: usize) -> (r: String)
    requires
        i < usize::MAX,
    ensures
        r@ == section_title(text@, i as nat),
{
    if let Some(line) = find_first_line(text) {
        if line.as_str().as_bytes().len() < TITLE_BYTES {
            return trim(line.as_str());
        }
    }
    let mut r = copy("第 ");
    r.append(to_decimal((i + 1) as u64).as_str());
    r.append(" 节");
    r
}

/// The chapters of the texts of sections.
pub fn chapters_of_sections(sections: Vec<Option<String>>) -> (r: Vec<Chapter>)
    ensures
        chapter_views(r@) == section_chapters(optional_texts(sections@)),
{
    let ghost views = optional_texts(sections@);
    let n = sections.len();
    let mut chapters: Vec<Chapter> = Vec::new();
    let mut i: usize = 0;
    assert(views.take(0) =~= seq![]);
    assert(chapter_views(chapters@) =~= seq![]);
    while i < n
        invariant
            i <= n,
            n == sections@.len(),
            views == optional_texts(sections@),
            chapter_views(chapters@) == section_chapters(views.take(i as int)),
        decreases n - i,
    {
        let ghost before = chapter_views(chapters@);
        proof {
            assert(views.take(i + 1).drop_last() =~= views.take(i as int));
            assert(views.take(i + 1).last() == views[i as int]);
        }
        if let Some(text) = &sections[i] {
            if !is_blank(text.as_str()) {
                let title = title_of_section(text.as_str(), i);
                let chapter = Chapter { title, content: text.clone() };
                chapters.push(chapter);
                assert(chapter_views(chapters@) =~= before.push(chapter@));
            }
        }
        i += 1;
    }
    assert(views.take(i as int) =~= views);
    chapters
}

/// Whether the markup of every section before `n` that could be read can be turned into text.
pub open spec fn rendered(sections: Seq<Option<Seq<char>>>, n: int) -> bool {
    forall|i: int|
        0 <= i < n ==> ((#[trigger] sections[i]) matches Some(m) ==> renderable(m) && html_text(
            m,
            SECTION_WIDTH as nat,
        ) is Some)
}

/// The texts of the sections' markup.
pub open spec fn section_texts(sections: Seq<Option<Seq<char>>>) -> Seq<Option<Seq<char>>> {
    Seq::new(
        sections.len(),
        |i: int|
            match sections[i] {
                Some(m) => html_text(m, SECTION_WIDTH as nat),
                None => None,
            },
    )
}

/// Turns the markup of the sections into text.
fn render_sections(sections: &Vec<Option<String>>) -> (r: Result<Vec<Option<String>>, usize>)
    ensures
        r matches Ok(v) ==> rendered(optional_texts(sections@), sections@.len() as int)
            && optional_texts(v@) == section_texts(optional_texts(sections@)),
        r matches Err(i) ==> i < sections@.len() && rendered(optional_texts(sections@), i as int)
            && !rendered(optional_texts(sections@), i + 1),
{
    let ghost views = optional_texts(sections@);
    let mut r: Vec<Option<String>> = Vec::new();
    let mut i: usize = 0;
    while i < sections.len()
        invariant
            i <= sections@.len(),
            views == optional_texts(sections@),
            rendered(views, i as int),
            r@.len() == i,
            forall|k: int|
                0 <= k < i ==> #[trigger] optional_texts(r@)[k] == section_texts(views)[k],
        decreases sections@.len() - i,
    {
        let ghost before = r@;
        let text = match &sections[i] {
            Some(markup) => {
                assert(views[i as int] == Some(markup@));
                if !is_renderable(markup.as_str()) {
                    assert(!rendered(views, i + 1));
                    return Err(i);
                }
                match render(markup.as_str(), SECTION_WIDTH) {
                    Some(t) => Some(t),
                    None => {
                        assert(!rendered(views, i + 1));
                        return Err(i);
                    },
                }
            },
            None => None,
        };
        r.push(text);
        proof {
            assert forall|k: int| 0 <= k < i + 1 implies #[trigger] optional_texts(r@)[k]
                == section_texts(views)[k] by {
                if k < i {
                    assert(optional_texts(r@)[k] == optional_texts(before)[k]);
                }
            }
        }
        i += 1;
    }
    assert(optional_texts(r@) =~= section_texts(views));
    Ok(r)
}

/// The value that is stated first for a property.
pub open spec fn stated(metadata: Seq<Pair>, property: Seq<char>) -> Option<Seq<char>>
    decreases metadata.len(),
{
    if metadata.len() == 0 {
        None
    } else if metadata[0].0 == property {
        Some(metadata[0].1)
    } else {
        stated(metadata.skip(1), property)
    }
}

/// The title of an EPUB: the one it states, else the name of its file.
pub open spec fn epub_title(metadata: Seq<Pair>, path: Seq<char>) -> Seq<char> {
    match stated(metadata, "title"@) {
        Some(t) => t,
        None => stem_of(path),
    }
}

fn title_of_epub(metadata: &Vec<(String, String)>, path: &str) -> (r: String)
    ensures
        r@ == epub_title(pair_views(metadata@), path@),
{
    let ghost views = pair_views(metadata@);
    let mut i: usize = 0;
    assert(views.skip(0) =~= views);
    while i < metadata.len()
        invariant
            i <= metadata@.len(),
            views == pair_views(metadata@),
            stated(views, "title"@) == stated(views.skip(i as int), "title"@),
        decreases metadata@.len() - i,
    {
        assert(views[i as int] == (metadata@[i as int].0@, metadata@[i as int].1@));
        if same(metadata[i].0.as_str(), "title") {
            return metadata[i].1.clone();
        }
        assert(views.skip(i as int).skip(1) =~= views.skip(i + 1));
        i += 1;
    }
    stem(path)
}

/// Makes a book of the sections of the EPUB at `path`.
pub fn extract_epub(
    path: &str,
    metadata: Vec<(String, String)>,
    cover: Option<(Vec<u8>, String)>,
    sections: Vec<Option<String>>,
) -> (r: Result<Book, ExtractError>)
    ensures
        ({
            let views = optional_texts(sections@);
            let chapters = section_chapters(section_texts(views));
            match r {
                Ok(book) => rendered(views, views.len() as int) && chapters.len() > 0
                    && chapter_views(book.chapters@) == chapters && book.title@ == epub_title(
                    pair_views(metadata@),
                    path@,
                ) && book.cover == cover,
                Err(ExtractError::Unrendered(i)) => i < views.len() && rendered(views, i as int)
                    && !rendered(views, i + 1),
                Err(ExtractError::NoText) => rendered(views, views.len() as int) && chapters.len()
                    == 0,
                Err(_) => false,
            }
        }),
{
    let title = title_of_epub(&metadata, path);
    let texts = match render_sections(&sections) {
        Ok(v) => v,
        Err(i) => return Err(ExtractError::Unrendered(i)),
    };
    let chapters = chapters_of_sections(texts);
    assert(chapter_views(chapters@).len() == chapters@.len());
    if chapters.len() == 0 {
        return Err(ExtractError::NoText);
    }
    Ok(Book { title, chapters, cover })
}

/// Makes a book of what was read of the file at `path`, by its format.
pub fn extract_text(path: &str, content: BookContent) -> (r: Result<Book, ExtractError>)
    ensures
        match (format_of(lower_extension(path@)), content) {
            (None, _) => r matches Err(ExtractError::Unsupported(ext)) && ext@ == lower_extension(
                path@,
            ),
            (Some(BookFormat::Txt), BookContent::Text(text)) => r matches Ok(book)
                && book.title@ == stem_of(path@) && chapter_views(book.chapters@) == txt_chapters(
                text@,
                stem_of(path@),
            ) && book.cover is None,
            (
                Some(BookFormat::Epub),
                BookContent::Epub { metadata, cover, sections },
            ) => {
                let views = optional_texts(sections@);
                let chapters = section_chapters(section_texts(views));
                match r {
                    Ok(book) => rendered(views, views.len() as int) && chapters.len() > 0
                        && chapter_views(book.chapters@) == chapters && book.title@ == epub_title(
                        pair_views(metadata@),
                        path@,
                    ) && book.cover == cover,
                    Err(ExtractError::Unrendered(i)) => i < views.len() && rendered(views, i as int)
                        && !rendered(views, i + 1),
                    Err(ExtractError::NoText) => rendered(views, views.len() as int)
                        && chapters.len() == 0,
                    Err(_) => false,
                }
            },
            (Some(_), _) => r == Err::<Book, ExtractError>(ExtractError::WrongContent),
        },
{
    match book_format(path) {
        Err(e) => Err(e),
        Ok(BookFormat::Txt) => match content {
            BookContent::Text(text) => Ok(extract_txt(path, text)),
            _ => Err(ExtractError::WrongContent),
        },
        Ok(BookFormat::Epub) => match content {
            BookContent::Epub { metadata, cover, sections } => extract_epub(
                path,
                metadata,
                cover,
                sections,
            ),
            _ => Err(ExtractError::WrongContent),
        },
    }
}

/// The positions of the headings among the lines.
pub open spec fn heading_positions(lines: Seq<Seq<char>>) -> Seq<int> {
    positions(lines.len(), |i: int| !blank(lines[i]) && heading(lines[i]))
}

/// The part of the text in front of the first heading, where `p` is 0, or behind the heading that
/// comes as the `p`th: its title, and the content of the lines up to the next heading.
pub open spec fn part(lines: Seq<Seq<char>>, p: int) -> ChapterView {
    let at = heading_positions(lines);
    let from = if p == 0 {
        0
    } else {
        at[p - 1] + 1
    };
    let to = if p < at.len() {
        at[p]
    } else {
        lines.len() as int
    };
    ChapterView {
        title: if p == 0 {
            "序章/开始"@
        } else {
            trimmed(lines[at[p - 1]])
        },
        content: content_lines(lines.subrange(from, to)),
    }
}

/// The parts of the text: one in front of the first heading, and one for each heading.
pub open spec fn parts(lines: Seq<Seq<char>>) -> Seq<ChapterView> {
    Seq::new(heading_positions(lines).len() + 1, |p: int| part(lines, p))
}

#[verifier::rlimit(60)]
#[verifier::spinoff_prover]
proof fn lemma_parts(lines: Seq<Seq<char>>)
    ensures
        ({
            let st = txt_lines(lines);
            let all = parts(lines);
            &&& st.chapters == all.drop_last().filter(|c: ChapterView| c.content.len() > 0)
            &&& st.title == all.last().title
            &&& st.content == all.last().content
            &&& st.found == (heading_positions(lines).len() > 0)
        }),
    decreases lines.len(),
{
    reveal(Seq::filter);
    let kept = |c: ChapterView| c.content.len() > 0;
    let is = |i: int| !blank(lines[i]) && heading(lines[i]);
    let at = heading_positions(lines);
    let all = parts(lines);
    lemma_positions(lines.len(), is);
    if lines.len() == 0 {
        assert(at =~= seq![]);
        assert(lines.subrange(0, 0) =~= seq![]);
        assert(all.drop_last() =~= seq![]);
        assert(txt_lines(lines).chapters =~= seq![]);
        assert(txt_lines(lines).content =~= seq![]);
    } else {
        let front = lines.drop_last();
        let n = front.len();
        let before = parts(front);
        let at_front = heading_positions(front);
        let is_front = |i: int| !blank(front[i]) && heading(front[i]);
        lemma_parts(front);
        lemma_positions(n, is_front);
        lemma_positions_step(n, is);
        assert forall|i: int| 0 <= i < n implies #[trigger] is(i) == is_front(i) by {}
        lemma_positions_agree(n, is, is_front);
        let m = at_front.len() as int;
        assert forall|p: int| 0 <= p < m implies #[trigger] all[p] == before[p] by {
            assert(at[p] == at_front[p]);
            let from = if p == 0 {
                0
            } else {
                at_front[p - 1] + 1
            };
            if p > 0 {
                assert(at[p - 1] == at_front[p - 1]);
                assert(at_front[p - 1] < at_front[p]);
            }
            assert(lines.subrange(from, at_front[p]) =~= front.subrange(from, at_front[p]));
        }
        let from = if m == 0 {
            0
        } else {
            at_front[m - 1] + 1
        };
        if m > 0 {
            assert(at[m - 1] == at_front[m - 1]);
        }
        if is(n as int) {
            assert(at =~= at_front.push(n as int));
            assert(lines.subrange(from, n as int) =~= front.subrange(from, n as int));
            assert(all[m] == before[m]);
            assert(all.drop_last() =~= before);
            assert(before =~= before.drop_last().push(before.last()));
            assert(before.filter(kept) == closed_chapters(txt_lines(front)));
            assert(lines.subrange(n + 1int, n + 1int) =~= seq![]);
            assert(all.last() == part(lines, m + 1));
            assert(all.last().content =~= seq![]);
        } else {
            assert(at =~= at_front);
            let now = lines.subrange(from, n + 1int);
            let then = front.subrange(from, n as int);
            assert(now.drop_last() =~= then);
            assert(now.last() == lines.last());
            assert(all.drop_last() =~= before.drop_last());
            assert(all.last() == part(lines, m));
            assert(before.last() == part(front, m));
            assert(front.subrange(from, n as int) =~= then);
        }
    }
}

/// The chapters of a text with headings are, in order, the parts between its headings that have
/// content: every heading with content behind it starts a chapter, which has the heading as its title
/// and ends at the next heading. A text without headings is one chapter with the name of the file,
/// and so is one without content.
pub proof fn law_txt_chapters_begin_at_headings(content: Seq<char>, stem: Seq<char>)
    ensures
        ({
            let lines = lines_of(content);
            let kept = parts(lines).filter(|c: ChapterView| c.content.len() > 0);
            txt_chapters(content, stem) == if kept.len() == 0 {
                if blank(content) {
                    seq![]
                } else {
                    seq![ChapterView { title: stem, content }]
                }
            } else if heading_positions(lines).len() == 0 {
                seq![ChapterView { title: stem, content: content_lines(lines) }]
            } else {
                kept
            }
        }),
{
    reveal(Seq::filter);
    let lines = lines_of(content);
    let kept = |c: ChapterView| c.content.len() > 0;
    let all = parts(lines);
    lemma_parts(lines);
    assert(all =~= all.drop_last().push(all.last()));
    assert(all.filter(kept) =~= closed_chapters(txt_lines(lines)));
    if heading_positions(lines).len() == 0 {
        assert(all.drop_last() =~= seq![]);
        assert(all.drop_last().filter(kept) =~= seq![]);
        assert(lines.subrange(0, lines.len() as int) =~= lines);
        assert(all.last() == part(lines, 0));
    }
    if all.filter(kept).len() == 0 {
        assert(txt_chapters(content, stem) =~= if blank(content) {
            seq![]
        } else {
            seq![ChapterView { title: stem, content }]
        });
    }
}

/// Every heading that has content between it and the next heading, or the end, is the title of a
/// chapter with just that content.
pub proof fn law_every_heading_has_its_chapter(
    content: Seq<char>,
    stem: Seq<char>,
    a: int,
    b: int,
)
    requires
        0 <= a < b <= lines_of(content).len(),
        !blank(lines_of(content)[a]) && heading(lines_of(content)[a]),
        forall|k: int|
            a < k < b ==> blank(#[trigger] lines_of(content)[k]) || !heading(lines_of(content)[k]),
        b < lines_of(content).len() ==> !blank(lines_of(content)[b]) && heading(
            lines_of(content)[b],
        ),
        content_lines(lines_of(content).subrange(a + 1, b)).len() > 0,
    ensures
        txt_chapters(content, stem).contains(
            ChapterView {
                title: trimmed(lines_of(content)[a]),
                content: content_lines(lines_of(content).subrange(a + 1, b)),
            },
        ),
{
    let lines = lines_of(content);
    let is = |i: int| !blank(lines[i]) && heading(lines[i]);
    let at = heading_positions(lines);
    let kept = |c: ChapterView| c.content.len() > 0;
    lemma_positions(lines.len(), is);
    assert(is(a));
    let p = at.index_of(a);
    assert(at.contains(a));
    if p + 1 < at.len() {
        let next = at[p + 1];
        assert(at[p] < at[p + 1]);
        if next < b {
            assert(is(next));
            assert(blank(lines[next]) || !heading(lines[next]));
        }
        if b < next {
            assert(is(b));
            let q = at.index_of(b);
            assert(at.contains(b));
            if q <= p {
                if q < p {
                    assert(at[q] < at[p]);
                }
            } else if q > p + 1 {
                assert(at[p + 1] < at[q]);
            }
        }
    } else if b < lines.len() {
        assert(is(b));
        let q = at.index_of(b);
        assert(at.contains(b));
        if q < p {
            assert(at[q] < at[p]);
        }
    }
    let all = parts(lines);
    let c = all[p + 1];
    assert(c == part(lines, p + 1));
    law_txt_chapters_begin_at_headings(content, stem);
    assert(all.contains(c));
    assert(kept(c));
    all.lemma_filter_contains(kept, p + 1);
    let k = all.filter(kept).index_of(c);
    assert(all.filter(kept)[k] == c);
}

/// The sections that are chapters are those that could be read and are not blank, each with its text
/// as content, in the order of the sections; their titles are told by `law_sections_are_titled`.
pub proof fn law_sections_are_chapters(sections: Seq<Option<Seq<char>>>)
    ensures
        ({
            let at = positions(
                sections.len(),
                |i: int| sections[i] matches Some(text) && !blank(text),
            );
            let chapters = section_chapters(sections);
            &&& chapters.len() == at.len()
            &&& forall|k: int|
                0 <= k < at.len() ==> {
                    &&& Some((#[trigger] chapters[k]).content) == sections[at[k]]
                    &&& chapters[k].title == section_title(chapters[k].content, at[k] as nat)
                }
        }),
    decreases sections.len(),
{
    let is = |i: int| sections[i] matches Some(text) && !blank(text);
    if sections.len() == 0 {
        lemma_positions(0, is);
        assert(positions(0, is) =~= seq![]) by {
            if positions(0, is).len() > 0 {
                assert(0 <= positions(0, is)[0] < 0);
            }
        }
    } else {
        let front = sections.drop_last();
        let n = front.len();
        let is_front = |i: int| front[i] matches Some(text) && !blank(text);
        law_sections_are_chapters(front);
        lemma_positions(n, is_front);
        assert forall|i: int| 0 <= i < n implies #[trigger] is(i) == is_front(i) by {
            assert(sections[i] == front[i]);
        }
        lemma_positions_agree(n, is, is_front);
        lemma_positions_step(n, is);
        let at = positions(sections.len(), is);
        let chapters = section_chapters(sections);
        let before = section_chapters(front);
        assert forall|k: int| 0 <= k < at.len() implies Some((#[trigger] chapters[k]).content)
            == sections[at[k]] && chapters[k].title == section_title(
            chapters[k].content,
            at[k] as nat,
        ) by {
            if k < before.len() {
                assert(chapters[k] == before[k]);
                assert(at[k] == positions(n, is_front)[k]);
                assert(sections[at[k]] == front[at[k]]);
            }
        }
    }
}

/// A section is titled by its first line that is not blank, trimmed, where that line has less than 50
/// bytes, and else by its number, counted from 1.
pub proof fn law_sections_are_titled(text: Seq<char>, i: nat, k: int)
    requires
        0 <= k <= lines_of(text).len(),
        forall|m: int| 0 <= m < k ==> blank(#[trigger] lines_of(text)[m]),
        k < lines_of(text).len() ==> !blank(lines_of(text)[k]),
    ensures
        section_title(text, i) == if k < lines_of(text).len() && encode_utf8(
            lines_of(text)[k],
        ).len() < 50 {
            trimmed(lines_of(text)[k])
        } else {
            "第 "@ + decimal(i + 1) + " 节"@
        },
{
    lemma_first_line(lines_of(text), k);
}

proof fn lemma_first_line(lines: Seq<Seq<char>>, k: int)
    requires
        0 <= k <= lines.len(),
        forall|m: int| 0 <= m < k ==> blank(#[trigger] lines[m]),
        k < lines.len() ==> !blank(lines[k]),
    ensures
        first_line(lines) == if k < lines.len() {
            Some(lines[k])
        } else {
            None
        },
    decreases k,
{
    if k > 0 {
        let rest = lines.skip(1);
        assert(blank(lines[0]));
        assert forall|m: int| 0 <= m < k - 1 implies blank(#[trigger] rest[m]) by {
            assert(rest[m] == lines[m + 1]);
        }
        lemma_first_line(rest, k - 1);
    }
}

/// An EPUB has the title that it states first, and the name of its file where it states none.
pub proof fn law_epubs_have_their_first_title(metadata: Seq<Pair>, path: Seq<char>, k: int)
    requires
        0 <= k <= metadata.len(),
        forall|m: int| 0 <= m < k ==> (#[trigger] metadata[m]).0 != "title"@,
        k < metadata.len() ==> metadata[k].0 == "title"@,
    ensures
        epub_title(metadata, path) == if k < metadata.len() {
            metadata[k].1
        } else {
            stem_of(path)
        },
{
    lemma_stated(metadata, "title"@, k);
}

proof fn lemma_stated(metadata: Seq<Pair>, property: Seq<char>, k: int)
    requires
        0 <= k <= metadata.len(),
        forall|m: int| 0 <= m < k ==> (#[trigger] metadata[m]).0 != property,
        k < metadata.len() ==> metadata[k].0 == property,
    ensures
        stated(metadata, property) == if k < metadata.len() {
            Some(metadata[k].1)
        } else {
            None
        },
    decreases k,
{
    if k > 0 {
        let rest = metadata.skip(1);
        assert(metadata[0].0 != property);
        assert forall|m: int| 0 <= m < k - 1 implies (#[trigger] rest[m]).0 != property by {
            assert(rest[m] == metadata[m + 1]);
        }
        lemma_stated(rest, property, k - 1);
    }
}

/// The extensions of books are `txt` and `epub`, and nothing else is a format.
pub proof fn law_formats_have_their_extension(ext: Seq<char>)
    ensures
        format_of(ext) == Some(BookFormat::Txt) <==> ext == "txt"@,
        format_of(ext) == Some(BookFormat::Epub) <==> ext == "epub"@,
{
    reveal_strlit("txt");
    reveal_strlit("epub");
    assert("txt"@.len() == 3 && "epub"@.len() == 4);
}

/// The values of chapters are those of each, in their order, with their title and their content.
pub proof fn law_chapters_keep_their_order(v: Seq<Chapter>, i: int)
    ensures
        chapter_views(v).len() == v.len(),
        0 <= i < v.len() ==> chapter_views(v)[i].title == v[i].title@ && chapter_views(v)[i].content
            == v[i].content@,
{
}

/// Each section of a book is read as its markup shows it, in lines of 9999 columns; a section that
/// cannot be read as markup is none, and where the markup of one cannot be shown the sections are not
/// all shown.
pub proof fn law_sections_are_shown(sections: Seq<Option<Seq<char>>>, i: int)
    requires
        0 <= i < sections.len(),
    ensures
        section_texts(sections).len() == sections.len(),
        sections[i] is None ==> section_texts(sections)[i] is None,
        sections[i] matches Some(m) ==> section_texts(sections)[i] == html_text(m, 9999),
        sections[i] matches Some(m) ==> (!renderable(m) || html_text(m, 9999) is None) ==> !rendered(
            sections,
            sections.len() as int,
        ),
        (forall|k: int|
            0 <= k < sections.len() ==> ((#[trigger] sections[k]) is None || (renderable(
                sections[k]->0,
            ) && html_text(sections[k]->0, 9999) is Some))) ==> rendered(
            sections,
            sections.len() as int,
        ),
{
}

/// The content of lines is all of them that are neither blank nor headings, in their order, each with
/// a line feed behind it.
pub proof fn law_content_is_every_other_line(lines: Seq<Seq<char>>)
    ensures
        content_lines(lines) == lines.filter(
            |line: Seq<char>| !blank(line) && !heading(line),
        ).map_values(|line: Seq<char>| line.push('\n')).flatten_alt(),
    decreases lines.len(),
{
    reveal(Seq::filter);
    let kept = |line: Seq<char>| !blank(line) && !heading(line);
    let ended = |line: Seq<char>| line.push('\n');
    if lines.len() > 0 {
        let front = lines.drop_last().filter(kept);
        let last = lines.last();
        law_content_is_every_other_line(lines.drop_last());
        if kept(last) {
            let all = front.push(last).map_values(ended);
            assert(lines.filter(kept) == front.push(last));
            assert(all.drop_last() =~= front.map_values(ended));
            assert(all.last() == last.push('\n'));
            assert(content_lines(lines) =~= content_lines(lines.drop_last()) + last.push('\n'));
        }
    } else {
        assert(lines.filter(kept).map_values(ended) =~= seq![]);
    }
}

/// A file is called what stands in front of its extension, and is of the format of its extension in
/// lower case; without either it has an empty one.
pub proof fn law_files_have_a_stem_and_an_extension(path: Seq<char>)
    ensures
        file_stem_of(path) matches Some(s) ==> stem_of(path) == s,
        file_stem_of(path) is None ==> stem_of(path).len() == 0,
        extension_of(path) matches Some(e) ==> lower_extension(path) == lower_cased(e),
        extension_of(path) is None ==> lower_extension(path).len() == 0,
{
}

/// Each error is told by its message, with the extension or the section that it is about.
pub proof fn law_failed_extractions_are_told(ext: String, section: usize)
    ensures
        ExtractError::Unsupported(ext).message_of() == "不支持的文件格式: "@ + ext@,
        ExtractError::WrongContent.message_of() == "文件内容与格式不符"@,
        ExtractError::Unrendered(section).message_of() == "无法解析 EPUB 章节: "@ + decimal(
            section as nat,
        ),
        ExtractError::NoText.message_of() == "未从 EPUB 中提取到任何文本"@,
{
}

} // verus!
