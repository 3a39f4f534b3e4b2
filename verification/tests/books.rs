use baitts::batches::{batch_lines, build_chapter_batches, processed_lines, BatchData};
use baitts::extractor::{
    book_format, chapters_of_sections, extract_epub, extract_text, extract_txt,
    format_from_extension, BookContent, BookFormat, Chapter, ExtractError,
};
use baitts::patterns::{Pattern, MARKS_PATTERN};
use baitts::utils::load_blacklist;

fn chapters(book: &[Chapter]) -> Vec<(&str, &str)> {
    book.iter().map(|c| (c.title.as_str(), c.content.as_str())).collect()
}

fn batches(book: &[BatchData]) -> Vec<(&str, bool)> {
    book.iter().map(|b| (b.text.as_str(), b.is_dialogue)).collect()
}

#[test]
fn formats_are_known_by_extension() {
    assert_eq!(format_from_extension("epub"), Some(BookFormat::Epub));
    assert_eq!(format_from_extension("txt"), Some(BookFormat::Txt));
    assert_eq!(format_from_extension("pdf"), None);
    assert!(matches!(book_format("/book/a.TXT"), Ok(BookFormat::Txt)));
    assert!(matches!(book_format("/book/a.Epub"), Ok(BookFormat::Epub)));
    match book_format("/book/a.pdf") {
        Err(e) => assert_eq!(e.message(), "不支持的文件格式: pdf"),
        Ok(_) => panic!("a format"),
    }
    match book_format("/book/a") {
        Err(e) => assert_eq!(e.message(), "不支持的文件格式: "),
        Ok(_) => panic!("a format"),
    }
}

#[test]
fn texts_are_cut_at_headings() {
    let text = "作者的话\n第一章 开始\n甲\n乙\n  第12回 再来\n丙";
    let book = extract_txt("/book/小说.txt", text.to_string());
    assert_eq!(book.title, "小说");
    assert!(book.cover.is_none());
    assert_eq!(
        chapters(&book.chapters),
        [
            ("序章/开始", "作者的话\n"),
            ("第一章 开始", "甲\n乙\n"),
            ("第12回 再来", "丙\n"),
        ]
    );
}

#[test]
fn text_without_headings_is_one_chapter() {
    let book = extract_txt("a.txt", "甲\n乙".to_string());
    assert_eq!(chapters(&book.chapters), [("a", "甲\n乙\n")]);
    let book = extract_txt("第1章 x.txt", "第1章x不第2章".to_string());
    assert_eq!(book.chapters.len(), 1);
}

#[test]
fn headings_need_a_number_and_a_unit() {
    let text = "第一\n第章\n一章\n第三卷\n正文第四章\n末";
    let book = extract_txt("a.txt", text.to_string());
    assert_eq!(
        chapters(&book.chapters),
        [("序章/开始", "第一\n第章\n一章\n"), ("第三卷", "正文第四章\n末\n")]
    );
}

#[test]
fn sections_of_a_book_become_chapters() {
    let sections = vec![
        Some("<h1>第一章</h1><p>他说“好”。</p>".to_string()),
        Some("<p> </p>".to_string()),
        Some("<p>正文</p>".to_string()),
    ];
    let got = extract_epub("a.epub", vec![], None, sections).unwrap().chapters;
    assert_eq!(got.len(), 2);
    assert_eq!(got[0].title, "# 第一章");
    assert_eq!(got[0].content, "# 第一章\n\n他说“好”。\n");
    assert_eq!(got[1].content, "正文\n");
}

#[test]
fn long_first_lines_are_no_titles() {
    let long = "字".repeat(17);
    let got = chapters_of_sections(vec![
        None,
        Some(format!("\n {} \n", "字".repeat(15))),
        Some(format!("{}\n短", long)),
    ]);
    assert_eq!(got.len(), 2);
    assert_eq!(got[0].title, "字".repeat(15));
    assert_eq!(got[1].title, "第 3 节");
}

#[test]
fn text_of_headings_alone_is_kept_whole() {
    let book = extract_txt("x.txt", "第一章\n\n第二章".to_string());
    assert_eq!(chapters(&book.chapters), [("x", "第一章\n\n第二章")]);
    assert!(extract_txt("x.txt", " \n".to_string()).chapters.is_empty());
}

#[test]
fn books_without_text_are_refused() {
    let got = extract_epub("a.epub", vec![], None, vec![Some("<p></p>".to_string())]);
    assert!(matches!(got, Err(ExtractError::NoText)));
}

#[test]
fn title_of_a_book_is_that_of_its_metadata_or_its_file() {
    let html = || vec![Some("<p>正文</p>".to_string())];
    let metadata = [("creator", "人"), ("title", "题"), ("title", "副题")];
    let metadata = metadata.map(|(a, b)| (a.to_string(), b.to_string())).to_vec();
    let named = extract_epub("x/某书.epub", metadata, None, html()).unwrap();
    assert_eq!(named.title, "题");
    let unnamed = extract_epub(
        "x/某书.epub",
        vec![("creator".to_string(), "人".to_string())],
        Some((vec![1, 2], "image/png".to_string())),
        html(),
    )
    .unwrap();
    assert_eq!(unnamed.title, "某书");
    assert_eq!(unnamed.cover, Some((vec![1, 2], "image/png".to_string())));
}

#[test]
fn content_must_be_that_of_the_format() {
    let got = extract_text("a.epub", BookContent::Text("x".to_string()));
    assert!(matches!(got, Err(ExtractError::WrongContent)));
    let epub = BookContent::Epub { metadata: vec![], cover: None, sections: vec![] };
    assert!(matches!(extract_text("a.txt", epub), Err(ExtractError::WrongContent)));
    let got = extract_text("a.txt", BookContent::Text("x".to_string())).unwrap();
    assert_eq!(got.chapters.len(), 1);
    let got = extract_text("a.doc", BookContent::Text("x".to_string()));
    assert!(matches!(got, Err(ExtractError::Unsupported(_))));
}

#[test]
fn lines_are_cut_into_quotations_and_the_rest() {
    let got = batch_lines(&vec!["他说“好。”走了「嗯」".to_string()]);
    assert_eq!(
        batches(&got),
        [("他说", false), ("“好。”", true), ("走了", false), ("「嗯」", true)]
    );
}

#[test]
fn unclosed_quotations_are_no_quotations() {
    let got = batch_lines(&vec!["他说“好」走了".to_string()]);
    assert_eq!(batches(&got), [("他说“好」走了", false)]);
}

#[test]
fn lines_of_a_kind_share_a_batch_up_to_its_limit() {
    let line = "字".repeat(60);
    let got = batch_lines(&vec!["甲".to_string(), "乙".to_string(), line.clone(), line.clone()]);
    assert_eq!(got.len(), 2);
    assert_eq!(got[0].text, format!("甲\n乙\n{}", line));
    assert_eq!(got[0].lines, ["甲".to_string(), "乙".to_string(), line.clone()]);
    assert_eq!(got[1].text, line);
    let long = "字".repeat(200);
    assert_eq!(batch_lines(&vec![long.clone()])[0].text, long);
}

#[test]
fn segments_of_batches_spell_the_lines() {
    let line = "a“b”c「d」「e」";
    let got = batch_lines(&vec![line.to_string()]);
    let spelled: String = got.iter().flat_map(|b| b.lines.clone()).collect();
    assert_eq!(spelled, line);
}

#[test]
fn lines_lose_what_is_to_be_left_out() {
    let ignore = Pattern::ignored(MARKS_PATTERN);
    let none = processed_lines("  甲***乙##\n\n####\n** #", &None, &ignore);
    assert_eq!(none, ["甲乙", "** #"]);
    let blacklist = load_blacklist("广告\n推荐票").ok();
    assert!(blacklist.is_some());
    let some = processed_lines("甲广告乙\n推荐票***\n求丙", &blacklist, &ignore);
    assert_eq!(some, ["甲[[广告]]乙", "[[推荐票]]", "求丙"]);
}

#[test]
fn patterns_that_do_not_compile_give_way_to_that_of_marks() {
    let ignore = Pattern::ignored("(");
    assert_eq!(ignore.replace_all("a***(b", ""), "a(b");
    let other = Pattern::ignored("[0-9]+");
    assert_eq!(other.replace_all("a1b22***", "-"), "a-b-***");
    assert!(Pattern::compile("(", false).is_err());
    let any_case = Pattern::compile("ab", true).unwrap();
    assert_eq!(any_case.replace_all("xABy", ""), "xy");
}

#[test]
fn chapters_are_batched() {
    let chapter = Chapter {
        title: "t".to_string(),
        content: "一\n“二”\n\n三".to_string(),
    };
    let got = build_chapter_batches(&chapter, &None, &Pattern::ignored(MARKS_PATTERN));
    assert_eq!(batches(&got), [("一", false), ("“二”", true), ("三", false)]);
}
