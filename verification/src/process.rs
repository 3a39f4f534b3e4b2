//! Converting a book: which of its chapters, under which names, and when to stop.

use crate::ai::copy_option;
use crate::analysis::{analysis_views, analyzed, analyzed_count, ChapterDialogueAnalysis};
use crate::args::Cli;
use crate::extractor::{book_format, format_of, lower_extension, Book};
use crate::number::{decimal, law_numerals_are_read_back, to_decimal};
use crate::order::{in_order, sort_texts};
use crate::path::{extension, extension_of, join, joined_path};
use crate::search::{find_from, holds_text, lemma_find_from, lemma_holds_text, occurs_at, same};
use crate::text::{copy, texts};
use crate::utils::{eq_ignore_ascii_case, same_but_case, sanitize_filename, sanitized};
use vstd::prelude::*;

verus! {

/// What a conversion tells of itself.
#[derive(Debug)]
pub enum ProcessEvent {
    /// A message.
    Log(String),
    /// How many chapters of how many are done.
    Progress { current: usize, total: usize },
    /// The book is done; how many bytes were made, and where they are.
    Success { size: u64, output_path: String },
}

impl Clone for ProcessEvent {
    fn clone(&self) -> (r: ProcessEvent)
        ensures
            r == *self,
    {
        match self {
            ProcessEvent::Log(m) => ProcessEvent::Log(m.clone()),
            ProcessEvent::Progress { current, total } => ProcessEvent::Progress {
                current: *current,
                total: *total,
            },
            ProcessEvent::Success { size, output_path } => ProcessEvent::Success {
                size: *size,
                output_path: output_path.clone(),
            },
        }
    }
}

/// Why a conversion ends before its time.
#[derive(Debug)]
pub enum ProcessError {
    /// The task was cancelled.
    Cancelled,
    /// The chapter, counted from 1, has quotations without a speaker, that many.
    Unanalyzed { chapter: usize, title: String, missing: usize },
    /// No chapter is analyzed.
    NoAnalysis,
    /// The chapters up to that one, counted from 1, are done; the next is not analyzed.
    AnalysisEnds(usize),
    /// Something else went wrong; with a message.
    Failed(String),
}

impl ProcessError {
    /// The message that goes with the error.
    pub open spec fn message_of(self) -> Seq<char> {
        match self {
            ProcessError::Cancelled => "任务已取消"@,
            ProcessError::Unanalyzed { chapter, title, missing } => "第 "@ + decimal(
                chapter as nat,
            ) + " 章 '"@ + title@ + "' 还有 "@ + decimal(missing as nat)
                + " 段对话未分析，请继续分析后再合成"@,
            ProcessError::NoAnalysis => "暂无可用的分析结果，请先继续分析后再开始合成"@,
            ProcessError::AnalysisEnds(n) => "已合成到第 "@ + decimal(n as nat)
                + " 章；后续章节需要先继续分析才能继续合成"@,
            ProcessError::Failed(m) => m@,
        }
    }

    /// Whether the error says that the task was cancelled.
    pub open spec fn cancels(self) -> bool {
        self.message_of() == "任务已取消"@
    }

    /// Whether the error says that the task was cancelled.
    pub fn is_cancellation(&self) -> (r: bool)
        ensures
            r == self.cancels(),
    {
        same(self.message().as_str(), "任务已取消")
    }

    /// The message that goes with the error.
    pub fn message(&self) -> (r: String)
        ensures
            r@ == self.message_of(),
    {
        match self {
            ProcessError::Cancelled => copy("任务已取消"),
            ProcessError::Unanalyzed { chapter, title, missing } => {
                let mut r = copy("第 ");
                r.append(to_decimal(*chapter as u64).as_str());
                r.append(" 章 '");
                r.append(title.as_str());
                r.append("' 还有 ");
                r.append(to_decimal(*missing as u64).as_str());
                r.append(" 段对话未分析，请继续分析后再合成");
                r
            },
            ProcessError::NoAnalysis => copy("暂无可用的分析结果，请先继续分析后再开始合成"),
            ProcessError::AnalysisEnds(n) => {
                let mut r = copy("已合成到第 ");
                r.append(to_decimal(*n as u64).as_str());
                r.append(" 章；后续章节需要先继续分析才能继续合成");
                r
            },
            ProcessError::Failed(m) => m.clone(),
        }
    }
}

/// The title of what is made: the name that was asked for, else the book's title.
pub open spec fn output_title_of(args: Cli, book_title: Seq<char>) -> Seq<char> {
    match args.output_name {
        Some(n) => n@,
        None => book_title,
    }
}

/// The title of what is made.
pub fn output_title(args: &Cli, book_title: &str) -> (r: String)
    ensures
        r@ == output_title_of(*args, book_title@),
{
    match &args.output_name {
        Some(n) => n.clone(),
        None => copy(book_title),
    }
}

/// The directory of what is made of a book.
pub fn book_directory(args: &Cli, book_title: &str) -> (r: String)
    ensures
        r@ == joined_path(args.out@, sanitized(output_title_of(*args, book_title@))),
{
    join(args.out.as_str(), sanitize_filename(output_title(args, book_title).as_str()).as_str())
}

/// How many chapters are made at a time.
pub fn concurrency_limit(args: &Cli) -> (r: usize)
    ensures
        r == if args.concurrency > 0 {
            args.concurrency
        } else {
            4
        },
{
    if args.concurrency > 0 {
        args.concurrency
    } else {
        4
    }
}

/// The name of a chapter's files without their extension: its number and its title.
pub open spec fn chapter_stem(index: nat, title: Seq<char>) -> Seq<char> {
    decimal(index + 1) + "_"@ + sanitized(title)
}

fn make_chapter_name(index: usize, title: &str, ext: &str) -> (r: String)
    requires
        index < usize::MAX,
    ensures
        r@ == chapter_stem(index as nat, title@) + ext@,
{
    let mut r = to_decimal((index + 1) as u64);
    r.append("_");
    r.append(sanitize_filename(title).as_str());
    r.append(ext);
    r
}

/// The name of a chapter's sound file.
pub fn chapter_wav_name(index: usize, title: &str) -> (r: String)
    requires
        index < usize::MAX,
    ensures
        r@ == chapter_stem(index as nat, title@) + ".wav"@,
{
    make_chapter_name(index, title, ".wav")
}

/// The name of a chapter's lyrics file.
pub fn chapter_lrc_name(index: usize, title: &str) -> (r: String)
    requires
        index < usize::MAX,
    ensures
        r@ == chapter_stem(index as nat, title@) + ".lrc"@,
{
    make_chapter_name(index, title, ".lrc")
}

/// What is to be done about a chapter.
#[derive(Clone, Copy, Debug, PartialEq, Eq, Structural)]
pub enum ChapterStart {
    /// Its sound is there already.
    AlreadyDone,
    /// It has no text.
    Empty,
    /// It is to be converted.
    Convert,
}

/// What is to be done about a chapter, by the size of its sound file where there is one.
pub fn chapter_start(existing_size: Option<u64>, content: &str) -> (r: ChapterStart)
    ensures
        r == if existing_size matches Some(n) && n > 0 {
            ChapterStart::AlreadyDone
        } else if content@.len() == 0 {
            ChapterStart::Empty
        } else {
            ChapterStart::Convert
        },
{
    if let Some(n) = existing_size {
        if n > 0 {
            return ChapterStart::AlreadyDone;
        }
    }
    if content.unicode_len() == 0 {
        ChapterStart::Empty
    } else {
        ChapterStart::Convert
    }
}

/// Whether a chapter can be made from a saved analysis: no quotation is without a speaker.
pub fn check_analyzed(index: usize, title: &str, missing: usize) -> (r: Result<(), ProcessError>)
    requires
        index < usize::MAX,
    ensures
        missing == 0 ==> r is Ok,
        missing > 0 ==> (r matches Err(ProcessError::Unanalyzed { chapter, title: t, missing: m })
            && chapter == index + 1 && t@ == title@ && m == missing),
{
    if missing > 0 {
        Err(ProcessError::Unanalyzed { chapter: index + 1, title: copy(title), missing })
    } else {
        Ok(())
    }
}

/// How many chapters are to be converted: all of them, or those from the first on that are
/// analyzed without a gap where only a saved analysis counts.
pub fn chapters_to_process(
    require_existing_analysis: bool,
    analyses: &Vec<ChapterDialogueAnalysis>,
    total: usize,
) -> (r: Result<usize, ProcessError>)
    ensures
        !require_existing_analysis ==> r == Ok::<usize, ProcessError>(total),
        require_existing_analysis ==> {
            let views = analysis_views(analyses@);
            match r {
                Ok(n) => 0 < n <= total && (forall|i: int| 0 <= i < n ==> #[trigger] analyzed(views, i))
                    && (n < total ==> !analyzed(views, n as int)),
                Err(e) => e is NoAnalysis && (total == 0 || !analyzed(views, 0)),
            }
        },
{
    if !require_existing_analysis {
        return Ok(total);
    }
    let n = analyzed_count(analyses, total);
    if n == 0 {
        Err(ProcessError::NoAnalysis)
    } else {
        Ok(n)
    }
}

/// Whether the failure of a chapter ends the conversion: it does where only a saved analysis
/// counts, and where the task was cancelled. Otherwise the other chapters go on.
pub fn ends_conversion(require_existing_analysis: bool, error: &ProcessError) -> (r: bool)
    ensures
        r == (require_existing_analysis || error.cancels()),
{
    require_existing_analysis || error.is_cancellation()
}

/// How a conversion of `done` chapters of `total` ends: with an error where the analysis ended
/// before the book.
pub fn conversion_end(
    require_existing_analysis: bool,
    done: usize,
    total: usize,
) -> (r: Result<(), ProcessError>)
    ensures
        r == if require_existing_analysis && done < total {
            Err::<(), ProcessError>(ProcessError::AnalysisEnds(done))
        } else {
            Ok::<(), ProcessError>(())
        },
{
    if require_existing_analysis && done < total {
        Err(ProcessError::AnalysisEnds(done))
    } else {
        Ok(())
    }
}

/// Whether a message says that an analysis is missing, so that a conversion waits for one.
pub open spec fn waits_for_analysis(message: Seq<char>) -> bool {
    holds_text(message, "未分析"@) || holds_text(message, "继续分析"@)
}

/// Every error that a missing analysis gives is one that waits for it, and none that says that the
/// task was cancelled.
pub proof fn law_missing_analysis_is_waited_for(error: ProcessError)
    requires
        error is Unanalyzed || error is NoAnalysis || error is AnalysisEnds,
    ensures
        waits_for_analysis(error.message_of()),
        !error.cancels(),
{
    reveal_strlit("继续分析");
    reveal_strlit("任务已取消");
    let p = "继续分析"@;
    let m = error.message_of();
    match error {
        ProcessError::Unanalyzed { chapter, title, missing } => {
            let tail = " 段对话未分析，请继续分析后再合成"@;
            reveal_strlit(" 段对话未分析，请继续分析后再合成");
            let at = m.len() - tail.len();
            assert(m.skip(at) =~= tail);
            assert(m.subrange(at + 9, at + 13) =~= tail.subrange(9, 13));
            assert(tail.subrange(9, 13) =~= p);
            assert(occurs_at(m, p, at + 9));
            lemma_holds_text(m, p, at + 9);
        },
        ProcessError::NoAnalysis => {
            reveal_strlit("暂无可用的分析结果，请先继续分析后再开始合成");
            assert(m.subrange(12, 16) =~= p);
            assert(occurs_at(m, p, 12));
            lemma_holds_text(m, p, 12);
        },
        ProcessError::AnalysisEnds(n) => {
            let tail = " 章；后续章节需要先继续分析才能继续合成"@;
            reveal_strlit(" 章；后续章节需要先继续分析才能继续合成");
            let at = m.len() - tail.len();
            assert(m.skip(at) =~= tail);
            assert(m.subrange(at + 10, at + 14) =~= tail.subrange(10, 14));
            assert(tail.subrange(10, 14) =~= p);
            assert(occurs_at(m, p, at + 10));
            lemma_holds_text(m, p, at + 10);
        },
        _ => {},
    }
}

/// Whether a file holds a book.
pub open spec fn is_book(path: Seq<char>) -> bool {
    format_of(lower_extension(path)) is Some
}

/// The paths of books among the paths.
pub open spec fn books_among(paths: Seq<Seq<char>>) -> Seq<Seq<char>>
    decreases paths.len(),
{
    if paths.len() == 0 {
        seq![]
    } else if is_book(paths.last()) {
        books_among(paths.drop_last()).push(paths.last())
    } else {
        books_among(paths.drop_last())
    }
}

/// The paths of books among the paths, in the order they are given in.
pub fn keep_books(paths: &Vec<String>) -> (r: Vec<String>)
    ensures
        texts(r@) == books_among(texts(paths@)),
{
    let ghost views = texts(paths@);
    let mut r: Vec<String> = Vec::new();
    let mut i: usize = 0;
    assert(views.take(0) =~= seq![]);
    assert(texts(r@) =~= seq![]);
    while i < paths.len()
        invariant
            i <= paths@.len(),
            views == texts(paths@),
            texts(r@) == books_among(views.take(i as int)),
        decreases paths@.len() - i,
    {
        let ghost before = texts(r@);
        proof {
            assert(views.take(i + 1).drop_last() =~= views.take(i as int));
            assert(views.take(i + 1).last() == views[i as int]);
        }
        if book_format(paths[i].as_str()).is_ok() {
            r.push(paths[i].clone());
            assert(texts(r@) =~= before.push(views[i as int]));
        }
        i += 1;
    }
    assert(views.take(i as int) =~= views);
    r
}

/// The books of a directory, in order, of the paths of its files.
pub fn directory_books(paths: &Vec<String>) -> (r: Vec<String>)
    ensures
        in_order(texts(r@)),
        texts(r@).to_multiset() == books_among(texts(paths@)).to_multiset(),
{
    sort_texts(keep_books(paths))
}

/// What is written into the sound of a chapter about it.
#[derive(Debug)]
pub struct ChapterTag {
    pub title: String,
    pub album: String,
    pub artist: Option<String>,
    pub cover: Option<(Vec<u8>, String)>,
}

/// What is written into the sound of a chapter about it: its title, the book, and the voice; into
/// that of the first chapter the cover too.
pub fn chapter_tag(args: &Cli, book: &Book, index: usize, title: &str) -> (r: ChapterTag)
    ensures
        r.title@ == title@,
        r.album == book.title,
        r.artist == args.voice,
        match book.cover {
            Some((data, mime)) => if index == 0 {
                r.cover matches Some((d, m)) && d@ == data@ && m == mime
            } else {
                r.cover is None
            },
            None => r.cover is None,
        },
{
    let cover = match &book.cover {
        Some((data, mime)) => if index == 0 {
            Some((data.clone(), mime.clone()))
        } else {
            None
        },
        None => None,
    };
    ChapterTag {
        title: copy(title),
        album: book.title.clone(),
        artist: copy_option(&args.voice),
        cover,
    }
}

/// Whether a file is a text file.
pub fn is_text_file(path: &str) -> (r: bool)
    ensures
        r == (extension_of(path@) matches Some(ext) && same_but_case(ext, "txt"@)),
{
    match extension(path) {
        Some(ext) => eq_ignore_ascii_case(ext.as_str(), "txt"),
        None => false,
    }
}

/// What is made of a book has the name that was asked for, and the book's title only where none was.
pub proof fn law_names_that_are_asked_for_come_first(args: Cli, title: Seq<char>)
    ensures
        args.output_name matches Some(n) ==> output_title_of(args, title) == n@,
        args.output_name is None ==> output_title_of(args, title) == title,
{
}

/// The files of a chapter are named by its number, counted from 1, and its title; no two chapters of a
/// book have files of one name.
pub proof fn law_chapters_have_files_of_their_own(i: nat, a: Seq<char>, j: nat, b: Seq<char>)
    ensures
        (decimal(i + 1) + "_"@).is_prefix_of(chapter_stem(i, a)),
        chapter_stem(i, a) == decimal(i + 1) + "_"@ + sanitized(a),
        i != j ==> chapter_stem(i, a) != chapter_stem(j, b),
{
    reveal_strlit("_");
    let x = chapter_stem(i, a);
    let y = chapter_stem(j, b);
    let m = decimal(i + 1);
    let n = decimal(j + 1);
    assert(x.subrange(0, (m + "_"@).len() as int) =~= m + "_"@);
    law_numerals_are_read_back(i + 1);
    law_numerals_are_read_back(j + 1);
    assert(x[m.len() as int] == '_' && y[n.len() as int] == '_');
    if x == y {
        if m.len() < n.len() {
            assert(y[m.len() as int] == n[m.len() as int]);
        } else if n.len() < m.len() {
            assert(x[n.len() as int] == m[n.len() as int]);
        }
        assert(x.take(m.len() as int) =~= m);
        assert(y.take(n.len() as int) =~= n);
    }
}

/// The books of a directory are its files that are of a format of books, all of them and in their
/// order.
pub proof fn law_all_books_are_found(paths: Seq<Seq<char>>)
    ensures
        books_among(paths) == paths.filter(
            |path: Seq<char>| lower_extension(path) == "txt"@ || lower_extension(path) == "epub"@,
        ),
    decreases paths.len(),
{
    reveal(Seq::filter);
    if paths.len() > 0 {
        law_all_books_are_found(paths.drop_last());
    }
}

/// A conversion was cancelled where it says so, and a failure with another message is none.
pub proof fn law_failures_are_not_cancellations(error: ProcessError)
    ensures
        error is Cancelled ==> error.cancels(),
        error matches ProcessError::Failed(m) ==> error.message_of() == m@ && (error.cancels() <==> m@
            == "任务已取消"@),
        error is Unanalyzed || error is NoAnalysis || error is AnalysisEnds ==> !error.cancels(),
{
    if error is Unanalyzed || error is NoAnalysis || error is AnalysisEnds {
        law_missing_analysis_is_waited_for(error);
    }
}

/// Each error is told by its message, with the chapter and the number that it is about.
pub proof fn law_errors_are_told(chapter: usize, title: String, missing: usize)
    ensures
        ProcessError::Cancelled.message_of() == "任务已取消"@,
        (ProcessError::Unanalyzed { chapter, title, missing }).message_of() == "第 "@ + decimal(
            chapter as nat,
        ) + " 章 '"@ + title@ + "' 还有 "@ + decimal(missing as nat)
            + " 段对话未分析，请继续分析后再合成"@,
        ProcessError::NoAnalysis.message_of() == "暂无可用的分析结果，请先继续分析后再开始合成"@,
        ProcessError::AnalysisEnds(chapter).message_of() == "已合成到第 "@ + decimal(chapter as nat)
            + " 章；后续章节需要先继续分析才能继续合成"@,
        ProcessError::Failed(title).message_of() == title@,
{
}

/// A message waits for an analysis exactly where it speaks of what is not analysed, or of going on
/// with the analysis.
pub proof fn law_messages_wait_for_the_analysis(a: Seq<char>, b: Seq<char>, message: Seq<char>)
    ensures
        waits_for_analysis(a + "未分析"@ + b),
        waits_for_analysis(a + "继续分析"@ + b),
        waits_for_analysis(message) ==> exists|i: int|
            #[trigger] occurs_at(message, "未分析"@, i) || occurs_at(message, "继续分析"@, i),
{
    let n = a.len() as int;
    let first = a + "未分析"@ + b;
    let second = a + "继续分析"@ + b;
    assert(first.subrange(n, n + "未分析"@.len()) =~= "未分析"@);
    assert(second.subrange(n, n + "继续分析"@.len()) =~= "继续分析"@);
    lemma_holds_text(first, "未分析"@, n);
    lemma_holds_text(second, "继续分析"@, n);
    lemma_find_from(message, "未分析"@, 0);
    lemma_find_from(message, "继续分析"@, 0);
    if waits_for_analysis(message) {
        if holds_text(message, "未分析"@) {
            assert(occurs_at(message, "未分析"@, find_from(message, "未分析"@, 0)->0));
        } else {
            let i = find_from(message, "继续分析"@, 0)->0;
            assert(occurs_at(message, "继续分析"@, i));
            assert(!occurs_at(message, "未分析"@, i));
        }
    }
}

} // verus!
