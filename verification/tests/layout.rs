use baitts::extractor::{extract_epub, ExtractError};
use baitts::markup::is_renderable;

fn text(markup: &str) -> Result<String, ExtractError> {
    let sections = vec![Some(markup.to_string())];
    extract_epub("a.epub", vec![], None, sections).map(|b| b.chapters[0].content.clone())
}

fn nested(open: &str, close: &str, n: usize) -> String {
    format!("{}字{}", open.repeat(n), close.repeat(n))
}

#[test]
fn ordinary_sections_can_be_laid_out() {
    let paragraph = "<p class=\"a>b\"><span id='x'/>他说<strong>“好”</strong>。<br/><img src=\"a\"/></p>\n";
    let section = format!(
        "<?xml version=\"1.0\"?><!DOCTYPE html><html><head><title>题 < 目</title><style>p > b {{}}</style>\
         </head><body><!-- </p> <p> -->{}</body></html>",
        paragraph.repeat(2000)
    );
    assert!(is_renderable(&section));
    assert!(text(&section).unwrap().contains("他说**“好”**。"));
    assert!(is_renderable(""));
    assert!(is_renderable("1 < 2 <3 </ 4 <"));
    assert!(is_renderable(&"<p>段落".repeat(500)));
    assert!(is_renderable("<svg viewBox=\"0 0 1 1\"><image href=\"a\"/></svg><p>字</p>"));
}

#[test]
fn spans_and_list_numbers_are_short() {
    let table = |span: &str| {
        format!("<table><tr><td colspan={}>a</td><td>b</td></tr></table>", span)
    };
    assert!(text(&table("\"9999\"")).unwrap().contains('a'));
    assert!(text(&table("0")).unwrap().contains('a'));
    assert!(!is_renderable(&table("\"18446744073709551615\"")));
    assert!(!is_renderable(&table(" '+99999'")));
    assert!(!is_renderable(&table("\"99&#57;99999999999999999\"")));
    assert!(!is_renderable("<table><tr><td\nCOLSPAN\n=\n99999>a</td></tr></table>"));
    assert!(matches!(
        text(&table("18446744073709551615")),
        Err(ExtractError::Unrendered(0))
    ));
    let list = |start: &str| format!("<ol start=\"{}\"><li>甲</li><li>乙</li></ol>", start);
    assert_eq!(text(&list("-5")).unwrap(), "-5. 甲\n-4. 乙\n");
    assert_eq!(text(&list("999999999")).unwrap(), "999999999.  甲\n1000000000. 乙\n");
    assert!(!is_renderable(&list("9223372036854775807")));
    assert!(is_renderable("<p id=\"9787532763221\">9787532763221</p>"));
}

#[test]
fn nesting_is_limited() {
    for (open, close) in [("<div>", "</div>"), ("<blockquote>", "</blockquote>"), ("<b>", "</b>")] {
        assert!(text(&nested(open, close, 400)).unwrap().contains('字'));
        assert!(!is_renderable(&nested(open, close, 401)));
    }
    assert!(text(&nested("<dl><dd>", "</dd></dl>", 50)).unwrap().contains('字'));
    assert!(!is_renderable(&nested("<dl><dd>", "</dd></dl>", 51)));
    assert!(text(&nested("<ul><li>", "</li></ul>", 200)).unwrap().contains('字'));
    assert!(text(&nested("<table><tr><td>", "</td></tr></table>", 133)).is_ok());
    assert!(!is_renderable(&"<div>".repeat(401)));
    assert!(!is_renderable(&"<div></x>".repeat(401)));
    assert!(!is_renderable(&"<div><!-- </div> -->".repeat(401)));
    assert!(!is_renderable(&"<div title=\"</div>\">".repeat(401)));
    assert!(!is_renderable(&"<div/>".repeat(401)));
    assert!(!is_renderable(&"<form><span></form>".repeat(401)));
    assert!(!is_renderable(&"<body><span></body>".repeat(401)));
    assert!(!is_renderable(&"<p><b></p>".repeat(401)));
    assert!(!is_renderable(&"<script><!--</script><div></div>".repeat(401)));
    assert!(!is_renderable(&"<form><dl></form>".repeat(51)));
}

#[test]
fn elements_end_where_the_next_one_begins() {
    assert!(is_renderable(&format!("<ul>{}</ul>", "<li>项".repeat(1000))));
    assert!(is_renderable(&format!("<dl>{}</dl>", "<dt>词<dd>义".repeat(1000))));
    let row = format!("<tr>{}", "<td>格".repeat(3));
    assert!(is_renderable(&format!("<table>{}</table>", row.repeat(1000))));
    assert!(is_renderable(&format!("<table>{}</table>", "<tr><th>甲<td>乙".repeat(1000))));
    let items = text("<ul><li>甲<li>乙</ul>").unwrap();
    assert_eq!(items, "* 甲\n* 乙\n");
}

#[test]
fn elements_that_may_be_left_open_are_limited() {
    assert!(is_renderable(&"<p><span id='a'/>字</p>".repeat(4000)));
    assert!(!is_renderable(&"<p><span id='a'/>字</p>".repeat(4001)));
    assert!(!is_renderable(&"<td><span></td>".repeat(4001)));
    assert!(!is_renderable(&"<section><div></section><span></div></section>".repeat(4001)));
    assert!(!is_renderable(&"<sub><td><p></td></sub><hr>".repeat(4001)));
    let left = "<sub><td><p></td></sub><hr>".repeat(1000);
    assert!(is_renderable(&left));
    assert!(text(&format!("{}字", left)).unwrap().contains('字'));
}

#[test]
fn words_that_may_be_wide_are_short() {
    let heart = "\u{2764}\u{fe0f}";
    assert!(text(&format!("<p>爱{}你</p>", heart)).unwrap().contains(heart));
    let lines = format!("<p>{}{}</p>\n", heart, "字".repeat(3000)).repeat(20);
    assert!(is_renderable(&lines));
    assert!(!is_renderable(&format!("<p>{}<b>{}</b></p>", heart.repeat(5000), "x".repeat(5001))));
    assert!(is_renderable(&format!("{}{}", heart, "<div>".repeat(100))));
    assert!(!is_renderable(&format!("{}{}", heart, "<div>".repeat(101))));
}

#[test]
fn tables_with_wide_characters_are_plain_and_short() {
    let heart = "\u{2764}\u{fe0f}";
    let cell = format!("<table><tr><td>{}<b>xxxxxxxx</b></td></tr></table>", heart);
    assert!(!is_renderable(&cell));
    assert!(!is_renderable(&cell.replace('\u{fe0f}', "&#xFE0F;")));
    assert!(!is_renderable(&cell.replace('\u{fe0f}', "&#x00fe0f;")));
    assert!(!is_renderable(&cell.replace('\u{fe0f}', "&#065039;")));
    assert!(is_renderable(&cell.replace('\u{fe0f}', "")));
    assert!(is_renderable(&cell.replace('\u{fe0f}', "fe0f 65039")));
    let row = format!("<tr><td>{}{}</td><td colspan=\"2\">{}x</td></tr>", heart, heart, heart);
    let plain = format!("<table><tr><th>爱</th><td>a</td><td>b</td></tr>{}</table>", row);
    assert!(text(&plain).unwrap().contains(&format!("{}{}", heart, heart)));
    assert!(text(&format!("<p>{}</p><table><tr><td><b>x</b></td></tr></table>", heart)).is_ok());
    assert!(is_renderable(&plain.repeat(20)));
    assert!(!is_renderable(&format!("<table>{}</table>", row.repeat(100))));
}

#[test]
fn preformatted_text_in_tables_has_no_tabs_and_names() {
    let cell = |inner: &str| format!("<table><tr><td><h1>{}</h1></td></tr></table>", inner);
    for tab in ["\t", "&#9;", "&#x9;", "&#0009", "&#x009", "&Tab;"] {
        let pre = format!("<pre>\u{200b}{}</pre>", tab);
        assert!(!is_renderable(&cell(&pre)));
        assert!(matches!(text(&cell(&pre)), Err(ExtractError::Unrendered(0))));
        assert!(!is_renderable(&cell(&format!("<pre><img alt='{}'></pre>", tab))));
        assert!(!is_renderable(&format!("<form>{}", cell(&pre))));
    }
    assert!(text("<pre>a\tb</pre><table><tr>\t<td>c\td</td></tr></table>").unwrap().contains("a       b"));
    assert!(is_renderable(&cell("<pre>a b</pre>\t")));
    assert!(!is_renderable(&cell("<pre>\u{200b} <i id='x'></i>\u{200b}</pre>")));
    assert!(!is_renderable(&cell("<pre>\u{200b} <a name='x'></a>\u{200b}</pre>")));
    assert!(text(&cell("<pre id='x'>id name <i>b</i></pre><i id='y'>c</i>")).is_ok());
    assert!(is_renderable("<pre>a <i id='x'>b</i></pre>"));
    assert!(is_renderable("<form><pre>a\tb</pre></form>"));
}

#[test]
fn tables_have_a_limited_number_of_cells() {
    let row = format!("<tr>{}</tr>", "<td>a</td>".repeat(100));
    assert!(is_renderable(&format!("<table>{}</table>", row.repeat(500))));
    assert!(!is_renderable(&format!("<table>{}<tr><th>b</table>", row.repeat(500))));
    assert!(text(&format!("<table>{}</table>", row.repeat(50))).unwrap().contains('a'));
}
