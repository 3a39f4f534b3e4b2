use baitts::ai::{pick_api_key, VoiceCategory};
use baitts::api::{
    after_attempt, collect_voices, forward_url, speech_query, voices_url, AfterAttempt, Attempt,
    Voice, MAX_ATTEMPTS, MAX_URL_BYTES, URL_CHAR_BYTES,
};
use baitts::args::parse_sub_range;
use baitts::ids::{
    allocation_file_path, allocations_dir, analysis_task_id, book_root_path, data_dir,
    dialogue_analysis_dir, dialogue_analysis_file_path, output_root_path, synthesis_task_id,
    task_id,
};
use baitts::utils::{
    apply_blacklist, blacklist_source, combine_blacklist, convert_to_utf8, encoding_issue,
    eq_ignore_ascii_case, is_surely_utf8, load_blacklist, pre_scan_for_encoding_issues,
    sanitize_filename, BlacklistError, BlacklistSource, FileHead, UTF8_CONFIDENCE,
};

#[test]
fn file_names_lose_what_they_cannot_hold() {
    assert_eq!(
        sanitize_filename("a/b\\c:d*e?f\"g<h>i|j#k 第一章"),
        "a_b_c_d_e_f_g_h_i_j_k 第一章"
    );
    assert_eq!(sanitize_filename(""), "");
}

#[test]
fn blacklists_come_from_three_places() {
    assert_eq!(blacklist_source("http://x/y", true), BlacklistSource::Remote);
    assert_eq!(blacklist_source("https://x/y", false), BlacklistSource::Remote);
    assert_eq!(blacklist_source("words.txt", true), BlacklistSource::File);
    assert_eq!(blacklist_source("words.txt", false), BlacklistSource::Inline);
}

#[test]
fn blacklists_are_alternatives_in_any_case() {
    assert_eq!(combine_blacklist("a\n\n b c \n").as_deref(), Some("(a)|(b c)"));
    assert_eq!(combine_blacklist(" \n"), None);
    assert!(matches!(load_blacklist(" \n"), Err(BlacklistError::Empty)));
    assert!(matches!(load_blacklist("(("), Err(BlacklistError::Invalid(_))));
    let Ok(p) = load_blacklist("ad\n广告.") else {
        panic!("a blacklist");
    };
    assert_eq!(apply_blacklist("xADy广告一z", &p), "x[[AD]]y[[广告一]]z");
    assert_eq!(apply_blacklist("plain", &p), "plain");
}

#[test]
fn ascii_letters_are_the_same_in_any_case() {
    for a in ["", "utf-8", "UTF-8", "Utf-8 ", "é", "É"] {
        for b in ["", "utf-8", "UTF-8", "é", "É"] {
            assert_eq!(eq_ignore_ascii_case(a, b), a.eq_ignore_ascii_case(b));
        }
    }
}

#[test]
fn confidence_is_compared_as_a_float() {
    assert_eq!(UTF8_CONFIDENCE, 0.95f32.to_bits());
    for c in [0.0f32, 0.5, 0.949, 0.95, 0.9500001, 0.99, 1.0, -1.0, f32::INFINITY, f32::NAN] {
        assert_eq!(is_surely_utf8("utf-8", c.to_bits()), c > 0.95, "{}", c);
    }
    assert!(!is_surely_utf8("GB2312", 1.0f32.to_bits()));
}

#[test]
fn texts_in_other_encodings_are_found() {
    let text = "第一章 他说今天的天气很好，我们一起去公园散步吧。".repeat(20);
    assert_eq!(encoding_issue(text.as_bytes()), None);
    assert_eq!(encoding_issue(b""), None);
    assert_eq!(encoding_issue(b"\xEF\xBB\xBF\xFF\xFE"), None);
    let (gbk, _, _) = encoding_rs::GB18030.encode(&text);
    let (encoding, confidence) = encoding_issue(&gbk).unwrap();
    assert!(eq_ignore_ascii_case(&encoding, "GB2312"));
    assert!(f32::from_bits(confidence) > 0.5);
    let (back, errors) = convert_to_utf8(&encoding, &gbk);
    assert_eq!(back, text);
    assert!(!errors);
}

#[test]
fn plain_letters_are_an_issue() {
    let (encoding, _) = encoding_issue(b"hello world").unwrap();
    assert_eq!(encoding, "ascii");
    assert!(encoding_issue(b"\x1b~{ escape").is_some());
    assert!(encoding_issue(b"abc\x1b").is_some());
}

#[test]
fn scans_name_the_files_with_issues() {
    let heads = vec![
        FileHead { path: "a.txt".to_string(), bytes: vec![] },
        FileHead { path: "b.txt".to_string(), bytes: b"hello".to_vec() },
        FileHead {
            path: "c.txt".to_string(),
            bytes: "中文内容很多很多".repeat(10).into_bytes(),
        },
    ];
    let issues = pre_scan_for_encoding_issues(&heads);
    assert_eq!(issues.len(), 1);
    assert_eq!(issues[0].path, "b.txt");
    assert_eq!(issues[0].encoding, "ascii");
}

#[test]
fn unknown_encodings_are_read_as_windows_1252() {
    assert_eq!(convert_to_utf8("no such", b"\xe9\x80"), ("é€".to_string(), false));
    assert_eq!(convert_to_utf8("utf-8", b"a\xff"), ("a\u{fffd}".to_string(), true));
}

#[test]
fn ids_are_digests_of_paths() {
    assert_eq!(synthesis_task_id(""), "d41d8cd98f00b204e9800998ecf8427e");
    assert_eq!(synthesis_task_id("abc"), "900150983cd24fb0d6963f7d28e17f72");
    assert_eq!(analysis_task_id("x"), synthesis_task_id("analysis:x"));
    assert_eq!(task_id("x", true), analysis_task_id("x"));
    assert_eq!(task_id("x", false), synthesis_task_id("x"));
}

#[test]
fn data_lies_in_its_directories() {
    assert_eq!((data_dir(true), data_dir(false)), ("/data", "data"));
    assert_eq!((output_root_path(true), output_root_path(false)), ("/output", "output"));
    assert_eq!((book_root_path(true), book_root_path(false)), ("/book", "book"));
    assert_eq!(dialogue_analysis_dir("data"), "data/dialogue_analysis");
    assert_eq!(allocations_dir("/data"), "/data/allocations");
    assert_eq!(
        dialogue_analysis_file_path("data", "abc"),
        "data/dialogue_analysis/900150983cd24fb0d6963f7d28e17f72.json"
    );
    assert_eq!(
        allocation_file_path("data", "abc"),
        "data/allocations/900150983cd24fb0d6963f7d28e17f72.json"
    );
}

#[test]
fn queries_name_what_is_set() {
    let q = speech_query("你 好", &Some("v".to_string()), &Some(5), &None, &Some(100));
    let q: Vec<(&str, &str)> = q.iter().map(|(a, b)| (a.as_str(), b.as_str())).collect();
    assert_eq!(q, [("text", "你 好"), ("voice", "v"), ("volume", "5"), ("pitch", "100")]);
    assert_eq!(voices_url("http://h:1"), "http://h:1/voices");
}

#[test]
fn addresses_of_speech_are_those_of_the_url_crate() {
    let got = forward_url("http://h:1", "a b&é", &Some("v".to_string()), &Some(5), &None, &None);
    assert_eq!(
        got.as_deref(),
        Some("http://h:1/forward?text=a+b%26%C3%A9&voice=v&volume=5")
    );
    assert_eq!(forward_url("no address", "a", &None, &None, &None, &None), None);
    let long = format!("http://h/{}", "a".repeat(MAX_URL_BYTES / URL_CHAR_BYTES));
    assert_eq!(forward_url(&long, "a", &None, &None, &None, &None), None);
    let text = "a".repeat(20_000_000);
    let got = forward_url("http://h", &text, &None, &None, &None, &None).unwrap();
    assert_eq!(got.len(), "http://h/forward?text=".len() + text.len());
    let got = forward_url("http://h#f", "a", &None, &None, &None, &None);
    assert_eq!(got.as_deref(), Some("http://h/?text=a#f/forward"));
}

fn voice(id: &str) -> Voice {
    Voice {
        id: id.to_string(),
        name: String::new(),
        gender: String::new(),
        locale: String::new(),
        voice_type: String::new(),
    }
}

#[test]
fn voices_of_all_providers_are_collected() {
    let providers = vec![vec![voice("a"), voice("b")], vec![], vec![voice("c")]];
    let all = collect_voices(true, &providers).unwrap();
    let ids: Vec<&str> = all.iter().map(|v| v.id.as_str()).collect();
    assert_eq!(ids, ["a", "b", "c"]);
    assert!(collect_voices(false, &providers).is_none());
}

#[test]
fn requests_are_tried_three_times() {
    assert_eq!(after_attempt(1, Attempt::Failure), AfterAttempt::Retry);
    assert_eq!(after_attempt(2, Attempt::Failure), AfterAttempt::Retry);
    assert_eq!(after_attempt(MAX_ATTEMPTS, Attempt::Failure), AfterAttempt::GiveUp);
    assert_eq!(after_attempt(3, Attempt::Success), AfterAttempt::Return);
    assert_eq!(after_attempt(1, Attempt::NotBuilt), AfterAttempt::GiveUp);
}

#[test]
fn lengths_of_lyric_lines_are_checked() {
    assert!(matches!(parse_sub_range("15"), Ok(15)));
    assert!(matches!(parse_sub_range("0"), Ok(0)));
    assert!(parse_sub_range("x").is_err());
    assert!(parse_sub_range("-1").is_err());
}

#[test]
fn first_key_that_is_not_blank_is_picked() {
    assert_eq!(pick_api_key("a@@b").as_deref(), Some("a"));
    assert_eq!(pick_api_key(" @@ b @@c").as_deref(), Some("b"));
    assert_eq!(pick_api_key("@@ @@"), None);
    assert_eq!(pick_api_key(""), None);
    assert_eq!(VoiceCategory::MaleChild.label(), "男童");
}
