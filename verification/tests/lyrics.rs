use baitts::lrc::{is_break_character, split_line_intelligently};

#[test]
fn short_line_stays() {
    assert_eq!(split_line_intelligently("，你好。", 15), vec!["，你好。".to_string()]);
}

#[test]
fn cut_behind_the_last_break_that_fits() {
    assert_eq!(
        split_line_intelligently("今天天气很好，我们去公园玩吧。", 10),
        vec!["今天天气很好，".to_string(), "我们去公园玩吧。".to_string()]
    );
}

#[test]
fn cut_at_the_maximum_where_no_break_fits() {
    assert_eq!(
        split_line_intelligently("abcdefghijklmno,pq", 10),
        vec!["abcdefghij".to_string(), "klmno,pq".to_string()]
    );
    assert_eq!(split_line_intelligently("一二三四五六七八九十甲乙", 10).len(), 2);
    assert_eq!(
        split_line_intelligently("abcdefghij，klm", 10),
        vec!["abcdefghij".to_string(), "klm".to_string()]
    );
}

#[test]
fn pieces_do_not_begin_with_punctuation() {
    let pieces = split_line_intelligently("  “好”，他说：“走吧！”然后他们离开了那里", 5);
    assert_eq!(
        pieces,
        vec![
            "好”，".to_string(),
            "他说：“".to_string(),
            "走吧！”".to_string(),
            "然后他们离".to_string(),
            "开了那里".to_string()
        ]
    );
    for p in &pieces {
        assert!(p.chars().count() <= 5);
        let first = p.chars().next().unwrap();
        assert!(!first.is_whitespace() && !is_break_character(first));
    }
}

#[test]
fn line_of_punctuation_leaves_nothing() {
    assert_eq!(split_line_intelligently("，。！？；：", 3), Vec::<String>::new());
    assert_eq!(split_line_intelligently("a", 0), vec!["a".to_string()]);
}
