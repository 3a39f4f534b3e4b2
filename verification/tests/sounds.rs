use baitts::ai::AiDialogueConfig;
use baitts::analysis::ChapterDialogueAnalysis;
use baitts::args::Cli;
use baitts::audio::{
    count_chars, lrc_content, read_sound, read_sound_in_part, AudioError, ChapterAudio,
    ChapterSound, WavFormat, MAX_NANOS,
};
use baitts::batches::batch_lines;
use baitts::conversion::{BatchSound, ChapterRun, ChapterStep};
use baitts::extractor::Book;
use baitts::process::{
    book_directory, chapter_lrc_name, chapter_start, chapter_tag, chapter_wav_name,
    chapters_to_process, check_analyzed, concurrency_limit, conversion_end, directory_books,
    ends_conversion, is_text_file, keep_books, output_title, ChapterStart, ProcessError,
};

const MONO: WavFormat = WavFormat { channels: 1, sample_rate: 8000, bits_per_sample: 16, float: false };

fn written(format: WavFormat, samples: &[i16]) -> ChapterSound {
    let mut audio = ChapterAudio::new();
    audio.add_samples(format, &samples.to_vec());
    audio.finish()
}

fn lines(v: &[&str]) -> Vec<String> {
    v.iter().map(|s| s.to_string()).collect()
}

fn stamped(v: &[(u32, String)]) -> Vec<(u32, &str)> {
    v.iter().map(|(t, s)| (*t, s.as_str())).collect()
}

#[test]
fn sounds_that_are_written_are_read_back() {
    let samples = [0i16, 1, -1, i16::MAX, i16::MIN, 42];
    for channels in [1u16, 2, 3] {
        let format = WavFormat { channels, ..MONO };
        let ChapterSound::File { bytes, all, closed } = written(format, &samples) else {
            panic!("no file");
        };
        assert!(all && closed);
        assert_eq!(&bytes[..4], b"RIFF");
        let (f, s) = read_sound(&bytes).unwrap();
        assert_eq!((f, s.as_slice()), (format, &samples[..]));
        assert_eq!(read_sound_in_part(&bytes).unwrap().1, samples);
    }
}

#[test]
fn sounds_are_those_of_the_hound_crate() {
    let spec = hound::WavSpec {
        channels: 1,
        sample_rate: 16000,
        bits_per_sample: 16,
        sample_format: hound::SampleFormat::Int,
    };
    let mut buffer = std::io::Cursor::new(Vec::new());
    let mut writer = hound::WavWriter::new(&mut buffer, spec).unwrap();
    for s in [5i16, -5, 7] {
        writer.write_sample(s).unwrap();
    }
    writer.finalize().unwrap();
    let format = WavFormat { sample_rate: 16000, ..MONO };
    match written(format, &[5, -5, 7]) {
        ChapterSound::File { bytes, .. } => assert_eq!(bytes, buffer.into_inner()),
        _ => panic!("no file"),
    }
}

#[test]
fn sounds_that_break_off_are_read_in_part() {
    let ChapterSound::File { mut bytes, .. } = written(MONO, &[1, 2, 3, 4]) else {
        panic!("no file");
    };
    bytes.truncate(bytes.len() - 3);
    assert!(matches!(read_sound(&bytes), Err(AudioError::Unreadable(_))));
    let (f, s) = read_sound_in_part(&bytes).unwrap();
    assert_eq!((f, s.as_slice()), (MONO, &[1i16, 2][..]));
    assert!(read_sound_in_part(b"no sound").is_none());
    match read_sound(b"no sound") {
        Err(AudioError::Unreadable(m)) => assert!(!m.is_empty()),
        _ => panic!("a sound"),
    }
}

#[test]
fn chapters_without_samples_are_silent() {
    assert!(matches!(ChapterAudio::new().finish(), ChapterSound::Silent));
    assert!(matches!(written(MONO, &[]), ChapterSound::Silent));
}

#[test]
fn formats_that_cannot_be_written_are_told() {
    assert!(matches!(
        written(WavFormat { channels: 0, ..MONO }, &[1]),
        ChapterSound::Unwritable
    ));
    assert!(matches!(
        written(WavFormat { float: true, ..MONO }, &[1]),
        ChapterSound::Unwritable
    ));
    match written(WavFormat { channels: 2, ..MONO }, &[1, 2, 3]) {
        ChapterSound::File { all, closed, .. } => assert!(all && !closed),
        _ => panic!("no file"),
    }
    match written(WavFormat { bits_per_sample: 8, ..MONO }, &[1, 200, 3]) {
        ChapterSound::File { all, .. } => assert!(!all),
        _ => panic!("no file"),
    }
}

#[test]
fn first_sound_sets_the_format() {
    let mut audio = ChapterAudio::new();
    audio.add_samples(MONO, &vec![1]);
    audio.add_samples(WavFormat { channels: 2, ..MONO }, &vec![2, 3]);
    assert_eq!(audio.format, Some(MONO));
    assert_eq!(audio.samples, [1, 2, 3]);
}

#[test]
fn lyrics_have_the_times_of_their_lines() {
    let mut audio = ChapterAudio::new();
    assert!(audio.add_lyrics(&lines(&["一", "二"]), &vec![1500, 250], 0));
    assert!(audio.add_lyrics(&lines(&["三"]), &vec![10], 0));
    assert_eq!(stamped(&audio.lyrics), [(0, "一"), (1500, "二"), (1750, "三")]);
    assert_eq!(audio.clock, 1_760_000_000);
}

#[test]
fn pieces_of_a_line_share_its_time() {
    let mut audio = ChapterAudio::new();
    let line = "一二三四五六七八，一二三四五六七八，末";
    assert!(audio.add_lyrics(&lines(&[line]), &vec![1000], 10));
    assert_eq!(
        stamped(&audio.lyrics),
        [(0, "一二三四五六七八，"), (500, "一二三四五六七八，末")]
    );
    assert_eq!(audio.clock, 1_000_000_000);
}

#[test]
fn times_that_cannot_be_told_are_refused() {
    let mut audio = ChapterAudio::new();
    audio.clock = MAX_NANOS;
    assert!(!audio.add_lyrics(&lines(&["一"]), &vec![1], 0));
    assert!(audio.lyrics.is_empty());
    assert!(audio.add_lyrics(&lines(&["一"]), &vec![0], 0));
    assert_eq!(MAX_NANOS, std::time::Duration::MAX.as_nanos());
}

#[test]
fn lyrics_are_written_with_their_times() {
    let lyrics = vec![(0, "一".to_string()), (61_239, "二".to_string()), (6_000_000, "三".to_string())];
    assert_eq!(
        lrc_content(&lyrics, 15).as_deref(),
        Some("[00:00.00]一\n[01:01.23]二\n[100:00.00]三\n")
    );
    assert_eq!(lrc_content(&lyrics, 0), None);
    assert_eq!(lrc_content(&vec![], 15), None);
    assert_eq!(count_chars(&lines(&["一二", ""])), [2, 0]);
}

fn settings() -> Cli {
    Cli {
        list: false,
        file: None,
        dir: None,
        web: false,
        api: None,
        out: "output".to_string(),
        output_name: None,
        voice: Some("v".to_string()),
        voice_dialogue: None,
        volume_dialogue: None,
        speed_dialogue: None,
        pitch_dialogue: None,
        volume: 50,
        speed: 50,
        pitch: 50,
        sub: 0,
        ignore_regex: String::new(),
        blacklist: None,
        concurrency: 0,
        preserve_structure: false,
        analysis_only: false,
        ai_dialogue: AiDialogueConfig {
            enabled: false,
            api_url: None,
            api_key: None,
            model: None,
            chapter_analysis_enabled: false,
            save_crowd_characters: false,
            context_chars: 0,
            characters: vec![],
        },
    }
}

#[test]
fn books_are_made_in_directories_of_their_own() {
    let mut args = settings();
    assert_eq!(output_title(&args, "书"), "书");
    assert_eq!(book_directory(&args, "书/一"), "output/书_一");
    assert_eq!(concurrency_limit(&args), 4);
    args.output_name = Some("名?".to_string());
    args.concurrency = 7;
    assert_eq!(output_title(&args, "书"), "名?");
    assert_eq!(book_directory(&args, "书"), "output/名_");
    assert_eq!(concurrency_limit(&args), 7);
}

#[test]
fn chapters_have_files_by_number_and_title() {
    assert_eq!(chapter_wav_name(0, "第一章: 始"), "1_第一章_ 始.wav");
    assert_eq!(chapter_lrc_name(0, "第一章: 始"), "1_第一章_ 始.lrc");
    assert_eq!(chapter_lrc_name(11, "a.b"), "12_a.b.lrc");
}

#[test]
fn chapters_that_are_done_are_skipped() {
    assert_eq!(chapter_start(Some(1), "x"), ChapterStart::AlreadyDone);
    assert_eq!(chapter_start(Some(0), "x"), ChapterStart::Convert);
    assert_eq!(chapter_start(None, ""), ChapterStart::Empty);
    assert_eq!(chapter_start(None, "\n"), ChapterStart::Convert);
}

#[test]
fn missing_analyses_are_told() {
    assert!(check_analyzed(2, "题", 0).is_ok());
    match check_analyzed(2, "题", 5) {
        Err(e) => assert_eq!(
            e.message(),
            "第 3 章 '题' 还有 5 段对话未分析，请继续分析后再合成"
        ),
        Ok(()) => panic!("analysed"),
    }
    let chapter = |i| ChapterDialogueAnalysis {
        chapter_index: i,
        chapter_title: String::new(),
        dialogues: vec![],
    };
    let analyses = vec![chapter(0), chapter(1), chapter(3)];
    assert!(matches!(chapters_to_process(true, &analyses, 4), Ok(2)));
    assert!(matches!(chapters_to_process(false, &analyses, 4), Ok(4)));
    match chapters_to_process(true, &vec![chapter(1)], 4) {
        Err(e) => assert_eq!(e.message(), "暂无可用的分析结果，请先继续分析后再开始合成"),
        Ok(_) => panic!("analysed"),
    }
    assert!(conversion_end(true, 4, 4).is_ok());
    assert!(conversion_end(false, 2, 4).is_ok());
    match conversion_end(true, 2, 4) {
        Err(e) => assert_eq!(
            e.message(),
            "已合成到第 2 章；后续章节需要先继续分析才能继续合成"
        ),
        Ok(()) => panic!("at the end"),
    }
}

#[test]
fn conversions_end_where_they_are_cancelled_or_miss_an_analysis() {
    assert!(ends_conversion(false, &ProcessError::Cancelled));
    assert!(ends_conversion(false, &ProcessError::Failed("任务已取消".to_string())));
    assert!(!ends_conversion(false, &ProcessError::Failed("x".to_string())));
    assert!(ends_conversion(true, &ProcessError::Failed("x".to_string())));
    assert_eq!(ProcessError::Cancelled.message(), "任务已取消");
    assert_eq!(ProcessError::Failed("x".to_string()).message(), "x");
}

#[test]
fn books_of_a_directory_are_found_in_order() {
    let paths = lines(&["d/b.EPUB", "d/a.txt", "d/c.pdf", "d/noext", "d/A.Txt"]);
    assert_eq!(keep_books(&paths), ["d/b.EPUB", "d/a.txt", "d/A.Txt"]);
    assert_eq!(directory_books(&paths), ["d/A.Txt", "d/a.txt", "d/b.EPUB"]);
    assert!(is_text_file("a.TXT"));
    assert!(!is_text_file("a.epub"));
    assert!(!is_text_file("txt"));
}

#[test]
fn first_chapter_carries_the_cover() {
    let book = Book {
        title: "书".to_string(),
        chapters: vec![],
        cover: Some((vec![9], "image/png".to_string())),
    };
    let tag = chapter_tag(&settings(), &book, 0, "章");
    assert_eq!((tag.title.as_str(), tag.album.as_str()), ("章", "书"));
    assert_eq!(tag.artist.as_deref(), Some("v"));
    assert_eq!(tag.cover, Some((vec![9], "image/png".to_string())));
    assert!(chapter_tag(&settings(), &book, 1, "章").cover.is_none());
}

#[test]
fn batches_are_spoken_in_turn() {
    let batches = batch_lines(&lines(&["一“二”三"]));
    let speakers = batches.iter().map(|_| None).collect();
    let mut run = ChapterRun::start(batches, speakers);
    let ChapterSound::File { bytes, .. } = written(MONO, &[7, 8]) else {
        panic!("no file");
    };
    assert_eq!(run.step(true), ChapterStep::Cancelled);
    assert_eq!(run.step(false), ChapterStep::Speak(0));
    assert!(matches!(run.hear(b""), BatchSound::Nothing));
    assert!(matches!(run.hear(b"noise"), BatchSound::Unreadable(_)));
    match run.hear(&bytes) {
        BatchSound::Sound { format, samples, chars } => {
            assert_eq!(chars, [1]);
            assert!(run.take(format, &samples, &vec![250], 0));
        }
        _ => panic!("no sound"),
    }
    assert_eq!(run.step(false), ChapterStep::Speak(1));
    run.skip();
    assert_eq!(run.step(false), ChapterStep::Speak(2));
    assert!(run.take(MONO, &vec![9], &vec![5], 0));
    assert_eq!(run.step(true), ChapterStep::Finish);
    assert_eq!(run.audio.samples, [7, 8, 9]);
    assert_eq!(stamped(&run.audio.lyrics), [(0, "一"), (250, "三")]);
    assert_eq!(run.audio.clock, 255_000_000);
}
