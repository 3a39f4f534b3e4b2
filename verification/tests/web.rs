use baitts::ai::AiDialogueConfig;
use baitts::audio::{ChapterAudio, ChapterSound, WavFormat};
use baitts::batches::BatchData;
use baitts::files::{
    answer_download, get_safe_path, input_candidate, parse_range_header, plan_download,
    resolve_input_file_path, sort_entries, upload_directory, Download, FileEntry,
};
use baitts::requests::{
    add_to_preview, analysis_config, analysis_settings, autorun_settings, book_settings,
    conversion_settings, is_listed_book, preview_batches, preview_speech, removed_when_done,
    sound_source, text_task, try_pattern, voice_sample, ConversionRequest, Levels, SoundSource,
    UploadForm,
};
use baitts::settings::{
    autorun_change, autorun_wanted, default_level, delete_wanted, merge_settings,
    settings_at_start, show_settings, watched_api, AutorunChange, ServerConfig, SettingsChange,
};
use baitts::titles::{
    chat_content, choose_title, fallback_task_title, name_of_path, normalize_task_title,
    title_from_ai_response, title_from_reply, title_request, without_fence,
};

const LEVELS: Levels = Levels { volume: 1, speed: 2, pitch: 3 };

fn ai() -> AiDialogueConfig {
    AiDialogueConfig {
        enabled: true,
        api_url: Some("http://ai".to_string()),
        api_key: Some(" @@key@@other".to_string()),
        model: Some("m".to_string()),
        chapter_analysis_enabled: false,
        save_crowd_characters: false,
        context_chars: 0,
        characters: vec![],
    }
}

fn request() -> ConversionRequest {
    ConversionRequest {
        voice_id: "v".to_string(),
        voice_dialogue_id: Some("d".to_string()),
        volume_dialogue: Some(70),
        speed_dialogue: None,
        pitch_dialogue: None,
        volume: None,
        speed: Some(20),
        pitch: None,
        sub: None,
        concurrency: None,
        ignore_regex: None,
        preserve_structure: true,
        analysis_only: false,
        ai_dialogue: ai(),
    }
}

#[test]
fn paths_stay_below_their_root() {
    let safe = |root, sub| get_safe_path(root, sub, false, false);
    assert_eq!(safe("book", None).as_deref(), Some("book/"));
    assert_eq!(safe("book", Some("a/b.txt")).as_deref(), Some("book/a/b.txt"));
    assert_eq!(safe("output", Some("//a")).as_deref(), Some("output/a"));
    assert_eq!(safe("output", Some("\\/a")).as_deref(), Some("output/a"));
    assert_eq!(safe("book", Some("\\../x")), None);
    assert_eq!(safe("book", Some("/\\/..")), None);
    assert_eq!(safe("book", Some("a/\\..")).as_deref(), Some("book/a/\\.."));
    assert_eq!(upload_directory("output", "\\../x", false, false), "book");
    assert_eq!(safe("book", Some("../x")), None);
    assert_eq!(safe("book", Some("a/../../x")), None);
    assert_eq!(safe("data", Some("x")), None);
    assert_eq!(get_safe_path("book", Some("x"), true, false).as_deref(), Some("/book/x"));
    assert_eq!(get_safe_path("output", Some("x"), true, false).as_deref(), Some("output/x"));
    assert_eq!(upload_directory("output", "d", false, true), "/output/d");
    assert_eq!(upload_directory("output", "../d", false, true), "book");
}

#[test]
fn files_are_looked_for_below_the_books() {
    assert_eq!(input_candidate("book\\a\\b.txt", "/book").as_deref(), Some("/book/a/b.txt"));
    assert_eq!(input_candidate("other/a.txt", "/book"), None);
    assert_eq!(resolve_input_file_path("book/a", "/book", true, true), "book/a");
    assert_eq!(resolve_input_file_path("book/a", "/book", false, true), "/book/a");
    assert_eq!(resolve_input_file_path("book/a", "/book", false, false), "book/a");
}

#[test]
fn ranges_are_those_that_the_file_has() {
    let range = |v| parse_range_header(v, 100);
    assert_eq!(range("bytes=0-9"), Some((0, 9)));
    assert_eq!(range("bytes=90-"), Some((90, 99)));
    assert_eq!(range("bytes=-10"), Some((90, 99)));
    assert_eq!(range("bytes=-1000"), Some((0, 99)));
    assert_eq!(range("bytes=5-1000"), Some((5, 99)));
    assert_eq!(range("bytes= 1-2 , 5-6"), Some((1, 2)));
    assert_eq!(range("bytes=0-0"), Some((0, 0)));
    for v in ["bytes=100-", "bytes=9-3", "bytes=-0", "bytes=-", "bytes=a-", "bytes=1-b", "0-9",
        "bytes=5", "Bytes=0-1", "bytes="]
    {
        assert_eq!(range(v), None, "{}", v);
    }
    assert_eq!(parse_range_header("bytes=0-", 0), None);
    assert_eq!(parse_range_header("bytes=-5", 0), None);
}

fn headers(d: &Download) -> Vec<(&str, &str)> {
    d.headers.iter().map(|(a, b)| (a.as_str(), b.as_str())).collect()
}

#[test]
fn downloads_are_answered_whole_or_in_part() {
    let d = plan_download("book/a.txt", 100, false, None);
    assert_eq!((d.status, d.range), (200, None));
    assert_eq!(
        headers(&d),
        [
            ("Content-Type", "text/plain"),
            ("Content-Disposition", "attachment; filename=\"a.txt\""),
            ("Accept-Ranges", "bytes"),
            ("Content-Length", "100"),
        ]
    );
    let d = plan_download("o/b.mp3", 100, true, Some("bytes=10-19"));
    assert_eq!((d.status, d.range), (206, Some((10, 19))));
    assert_eq!(
        headers(&d),
        [
            ("Content-Type", "audio/mpeg"),
            ("Content-Disposition", "inline; filename=\"b.mp3\""),
            ("Accept-Ranges", "bytes"),
            ("Content-Range", "bytes 10-19/100"),
            ("Content-Length", "10"),
        ]
    );
    let d = answer_download("x", "a/b", 7, true, Some("bytes=7-"));
    assert_eq!((d.status, d.range), (416, None));
    assert_eq!(headers(&d), [("Accept-Ranges", "bytes"), ("Content-Range", "bytes */7")]);
    let d = plan_download("o/unknown", 1, true, None);
    assert_eq!(headers(&d)[0], ("Content-Type", "application/octet-stream"));
}

#[test]
fn listings_begin_with_directories() {
    let entry = |name: &str, is_dir| FileEntry {
        name: name.to_string(),
        is_dir,
        size: 0,
        modified: 0,
    };
    let sorted = sort_entries(vec![
        entry("b.txt", false),
        entry("z", true),
        entry("a.txt", false),
        entry("c", true),
        entry("B.txt", false),
    ]);
    let names: Vec<&str> = sorted.iter().map(|e| e.name.as_str()).collect();
    assert_eq!(names, ["c", "z", "B.txt", "a.txt", "b.txt"]);
}

#[test]
fn titles_come_from_file_names() {
    assert_eq!(name_of_path("book/.."), "book/..");
    assert_eq!(fallback_task_title("book/《 斗破 》作者.txt"), "斗破");
    assert_eq!(fallback_task_title("book/《》x《y》.txt"), "y");
    assert_eq!(fallback_task_title("book/《 》x.txt"), "《 》x.txt");
    assert_eq!(fallback_task_title("book/x.txt"), "x.txt");
    assert_eq!(fallback_task_title("book/《x.txt"), "《x.txt");
}

#[test]
fn titles_are_normalized() {
    let title = |v| normalize_task_title(v, "f");
    assert_eq!(title(" “书” "), "书");
    assert_eq!(title("'` 书 `'"), "书");
    assert_eq!(title("\"\""), "f");
    assert_eq!(title("书.TXT"), "书");
    assert_eq!(title("dir/书 .epub"), "书");
    assert_eq!(title(".txt"), ".txt");
    assert_eq!(title("书.pdf"), "书.pdf");
    assert_eq!(title(" .epub/.txt"), ".txt");
}

#[test]
fn titles_are_read_from_answers() {
    let title = |v| title_from_ai_response(v, "f");
    assert_eq!(title("{\"title\": \"“书”\"}").as_deref(), Some("书"));
    assert_eq!(title("```json\n{\"title\":\"书\"}\n```").as_deref(), Some("书"));
    assert_eq!(title("``` 书 ```").as_deref(), Some("书"));
    assert_eq!(title("{\"title\": \"\"}").as_deref(), Some("f"));
    assert_eq!(title("{\"title\": 3}").as_deref(), Some("{\"title\": 3}"));
    assert_eq!(title("书.txt").as_deref(), Some("书"));
    assert_eq!(title("\"\"").as_deref(), Some("f"));
    assert_eq!(title("  "), None);
    assert_eq!(title_from_ai_response("{\"title\":\"\"}", "").as_deref(), Some("{\"title\":\"\"}"));
    assert_eq!(without_fence("```json x```"), "x");
    assert_eq!(without_fence("``x``"), "``x``");
    assert_eq!(choose_title("a", Some("b.txt"), "f").as_deref(), Some("b"));
    assert_eq!(choose_title("a", None, "f").as_deref(), Some("a"));
    assert_eq!(choose_title("", None, "f"), None);
}

#[test]
fn replies_of_a_chat_are_read() {
    let reply = |m: &str| format!("{{\"choices\":[{{\"message\":{}}},{{}}]}}", m);
    assert_eq!(chat_content(&reply("{\"content\":\"a\\n\\\"b\\\"\"}")), "a\n\"b\"");
    assert_eq!(chat_content(&reply("{\"reasoning_content\":\"r\"}")), "r");
    assert_eq!(chat_content(&reply("{\"content\":null,\"reasoning_content\":\"r\"}")), "");
    assert_eq!(chat_content(&reply("{}")), "");
    assert_eq!(chat_content("{\"choices\":[]}"), "");
    assert_eq!(chat_content("{\"choices\":{\"0\":{\"message\":{\"content\":\"a\"}}}}"), "");
    assert_eq!(chat_content("no json"), "");
    let said = reply("{\"content\":\"{\\\"title\\\":\\\"书\\\"}\"}");
    assert_eq!(title_from_reply(&said, "f"), "书");
    assert_eq!(title_from_reply("no json", "f"), "f");
}

#[test]
fn titles_are_asked_for_where_it_is_possible() {
    let q = title_request("book/x.txt", true, &ai()).unwrap();
    assert_eq!(q.question, "File name: x.txt");
    assert_eq!((q.url.as_str(), q.key.as_str(), q.model.as_str()), ("http://ai", "key", "m"));
    assert!(title_request("x", false, &ai()).is_none());
    let mut no_key = ai();
    no_key.api_key = Some(" @@".to_string());
    assert!(title_request("x", true, &no_key).is_none());
    let mut no_model = ai();
    no_model.model = None;
    assert!(title_request("x", true, &no_model).is_none());
}

fn saved() -> ServerConfig {
    ServerConfig {
        api_url: None,
        default_volume: None,
        default_speed: None,
        default_pitch: None,
        preserve_structure: Some(true),
        enable_lrc: None,
        lrc_chars: None,
        analysis_only: None,
        delete_task_allocations: None,
        delete_task_outputs: None,
        delete_task_sources: Some(true),
    }
}

#[test]
fn changed_settings_are_shown() {
    let mut config = saved();
    let mut shown = settings_at_start(&config);
    assert!(shown.preserve_structure && !shown.enable_lrc && shown.delete_task_sources);
    assert_eq!(shown.lrc_chars, 15);
    let change = SettingsChange {
        preserve_structure: Some(false),
        enable_lrc: Some(true),
        lrc_chars: Some(20),
        analysis_only: None,
        delete_task_allocations: Some(true),
        delete_task_outputs: None,
        delete_task_sources: None,
    };
    merge_settings(&mut config, change);
    show_settings(&mut shown, &config);
    assert!(!shown.preserve_structure && shown.enable_lrc && shown.delete_task_allocations);
    assert!(shown.delete_task_sources && !shown.analysis_only && !shown.delete_task_outputs);
    assert_eq!(shown.lrc_chars, 20);
    let again = settings_at_start(&config);
    assert_eq!(again.lrc_chars, shown.lrc_chars);
    assert_eq!(again.enable_lrc, shown.enable_lrc);
}

#[test]
fn levels_come_from_the_environment_or_are_saved() {
    assert_eq!(default_level(Some("70"), Some(60)), 70);
    assert_eq!(default_level(Some("256"), Some(60)), 60);
    assert_eq!(default_level(Some("x"), None), 50);
    assert_eq!(default_level(None, None), 50);
    assert!(autorun_wanted(Some("TRUE")));
    assert!(!autorun_wanted(Some("1")));
    assert!(!autorun_wanted(None));
    assert!(delete_wanted(Some(true), Some(false)));
    assert!(!delete_wanted(Some(false), Some(true)));
    assert!(delete_wanted(None, Some(true)));
    assert!(!delete_wanted(None, None));
}

#[test]
fn requests_become_settings() {
    let cli = conversion_settings(Some("http://h".to_string()), "out", request(), LEVELS);
    assert_eq!(cli.api.as_deref(), Some("http://h"));
    assert_eq!((cli.out.as_str(), cli.voice.as_deref()), ("out", Some("v")));
    assert_eq!((cli.volume, cli.speed, cli.pitch), (1, 20, 3));
    assert_eq!((cli.sub, cli.concurrency), (0, 4));
    assert_eq!(cli.ignore_regex, "\\*{3,}|#{2,}");
    assert_eq!(cli.volume_dialogue, Some(70));
    let book = book_settings(&cli, "书", "/book/a/b/c.txt", "/book");
    assert_eq!((book.out.as_str(), book.output_name.as_deref()), ("out/a/b", Some("书")));
    let book = book_settings(&cli, "书", "/book/c.txt", "/book");
    assert_eq!(book.out, "out");
    let cli = autorun_settings(None, "out", ai(), LEVELS);
    assert_eq!((cli.voice.as_deref(), cli.volume, cli.concurrency), (None, 1, 4));
    let cli = analysis_settings("out", "书", None, analysis_config(ai()), LEVELS);
    assert!(cli.analysis_only && cli.ai_dialogue.chapter_analysis_enabled);
    assert_eq!((cli.concurrency, cli.output_name.as_deref()), (1, Some("书")));
    assert_eq!(text_task(None, "output"), ("web_task".to_string(), "output/web_task.txt".to_string()));
    assert_eq!(text_task(Some("n"), "o").1, "o/n.txt");
    assert!(is_listed_book("a/b.txt") && is_listed_book("b.epub"));
    assert!(!is_listed_book("b.TXT") && !is_listed_book("b"));
}

#[test]
fn forms_become_settings() {
    let mut form = UploadForm::new(LEVELS);
    assert!(form.settings("out", ai()).is_none());
    for (name, value) in [
        ("api_url", "http://h"),
        ("volume", "70"),
        ("speed", "x"),
        ("volume_dialogue", "300"),
        ("pitch_dialogue", "9"),
        ("sub", "12"),
        ("concurrency", "-"),
        ("ignore_regex", "a+"),
        ("analysis_only", "1"),
        ("unknown", "?"),
    ] {
        form.set(name, value, LEVELS);
    }
    assert!(form.settings("out", ai()).is_none());
    form.set("voice_id", "v", LEVELS);
    let cli = form.settings("out", ai()).unwrap();
    assert_eq!((cli.api.as_deref(), cli.voice.as_deref()), (Some("http://h"), Some("v")));
    assert_eq!((cli.volume, cli.speed, cli.pitch), (70, 2, 3));
    assert_eq!((cli.volume_dialogue, cli.pitch_dialogue), (None, Some(9)));
    assert_eq!((cli.sub, cli.concurrency), (12, 4));
    assert_eq!(cli.ignore_regex, "a+");
    assert!(cli.analysis_only && cli.voice_dialogue.is_none());
    form.set("voice_dialogue_id", "d", LEVELS);
    form.set("analysis_only", "yes", LEVELS);
    let cli = form.settings("out", ai()).unwrap();
    assert_eq!(cli.voice_dialogue.as_deref(), Some("d"));
    assert!(!cli.analysis_only);
}

#[test]
fn previews_are_heard() {
    assert!(preview_batches(None, &None).is_none());
    assert!(preview_batches(Some(" \n"), &None).is_none());
    let batches = preview_batches(Some("甲***“乙”1"), &Some("[0-9]".to_string())).unwrap();
    let texts: Vec<(&str, bool)> =
        batches.iter().map(|b| (b.text.as_str(), b.is_dialogue)).collect();
    assert_eq!(texts, [("甲***", false), ("“乙”", true)]);
    let batches = preview_batches(Some("甲***"), &Some("(".to_string())).unwrap();
    assert_eq!(batches[0].text, "甲");
    let batch = |is_dialogue| BatchData { text: "x".to_string(), lines: vec![], is_dialogue };
    let s = preview_speech(&request(), &batch(true), LEVELS);
    assert_eq!((s.voice.as_deref(), s.volume, s.speed, s.pitch), (Some("d"), 70, 20, 3));
    let s = preview_speech(&request(), &batch(false), LEVELS);
    assert_eq!((s.voice.as_deref(), s.volume, s.speed, s.pitch), (Some("v"), 1, 20, 3));
    let format = WavFormat { channels: 1, sample_rate: 8000, bits_per_sample: 16, float: false };
    let mut part = ChapterAudio::new();
    part.add_samples(format, &vec![4, 5]);
    let ChapterSound::File { bytes, .. } = part.finish() else {
        panic!("no file");
    };
    let mut audio = ChapterAudio::new();
    add_to_preview(&mut audio, b"");
    add_to_preview(&mut audio, b"noise");
    add_to_preview(&mut audio, &bytes);
    add_to_preview(&mut audio, &bytes[..bytes.len() - 1]);
    assert_eq!(audio.format, Some(format));
    assert_eq!(audio.samples, [4, 5, 4]);
    let s = voice_sample("v", None, Some(9), None);
    assert_eq!((s.volume, s.speed, s.pitch), (60, 9, 50));
    assert_eq!(s.text, "你好，这是一段试听文本，用于测试声音效果。");
}

#[test]
fn patterns_are_tried() {
    assert_eq!(try_pattern("[0-9]+", "a12b3"), Ok("ab".to_string()));
    match try_pattern("(", "a") {
        Err(m) => assert!(m.contains("unclosed group")),
        Ok(_) => panic!("a pattern"),
    }
}

#[test]
fn requests_for_sound_prefer_their_text() {
    let some = |s: &str| Some(s.to_string());
    match sound_source(some("正文"), some("a.txt"), None, "output") {
        SoundSource::Text { name, path, text } => {
            assert_eq!((name.as_str(), text.as_str()), ("web_task", "正文"));
            assert_eq!(path, "output/web_task.txt");
        }
        _ => panic!(),
    }
    let file = sound_source(None, some("a.txt"), Some("名"), "output");
    assert!(matches!(file, SoundSource::File(f) if f == "a.txt"));
    assert!(matches!(sound_source(None, None, None, "output"), SoundSource::Nothing));
    assert!(removed_when_done(true, true) && removed_when_done(false, false));
    assert!(!removed_when_done(false, true));
}

#[test]
fn watching_needs_settings() {
    assert_eq!(autorun_change(false, true, true), AutorunChange::Off);
    assert_eq!(autorun_change(true, true, false), AutorunChange::Configured);
    assert_eq!(autorun_change(true, false, true), AutorunChange::Kept);
    assert_eq!(autorun_change(true, false, false), AutorunChange::Unconfigured);
    let (a, b) = (Some("http://a".to_string()), Some("http://b".to_string()));
    assert_eq!(watched_api(&a, &b), a);
    assert_eq!(watched_api(&None, &b), b);
    assert_eq!(watched_api(&None, &None), None);
}
