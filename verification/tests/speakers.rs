use baitts::ai::{
    AiDialogueConfig, AllocationSource, CharacterVoice, SpeakerResult, VoiceAllocationEntry,
    VoiceAllocationTable, VoiceCategory,
};
use baitts::allocation::{
    accept_edited_table, collect_leftovers, create_live_allocation_table, dialogue_request,
    edited_entry, fallback_voice, is_crowd, is_crowd_or_garbled, is_locked, leftover_entry,
    lookup_entry, manual_voice, manual_write, narration_request, needs_review, normalize_allocation_table, plan_batch,
    record_speaker_allocation, recorded_by_conversion, sort_summaries, speaker_entry,
    speaker_voice, speaker_write, summarize_table, upsert_entry, voice_source,
    BatchPlan, ManualVoice, TableWrite, VoiceSource,
};
use baitts::analysis::{
    analysis_entries, analyzed_count, begin_table, count_unanalyzed, restore_speakers,
    saved_chapter, upsert_chapter_analysis, ChapterDialogueAnalysis, DialogueAnalysisEntry,
};
use baitts::args::Cli;
use baitts::batches::{batch_lines, BatchData};
use baitts::dialogue::{
    dialogue_inputs, known_characters_from_table, parse_manual_speaker_tag, speaker_context,
    trim_for_log, voice_category_from_label, window_chars, ChapterAnalysis, ChapterSpeaker,
    ScreenedEntry,
};
use baitts::messages::{analysis_message, conversion_message, garbled_message, voice_message};

const ALL: [VoiceCategory; 10] = [
    VoiceCategory::MaleChild,
    VoiceCategory::FemaleChild,
    VoiceCategory::MaleTeen,
    VoiceCategory::FemaleTeen,
    VoiceCategory::MaleYouth,
    VoiceCategory::FemaleYouth,
    VoiceCategory::MaleMiddleAge,
    VoiceCategory::FemaleMiddleAge,
    VoiceCategory::MaleElder,
    VoiceCategory::FemaleElder,
];

fn speaker(name: &str) -> SpeakerResult {
    SpeakerResult {
        name: name.to_string(),
        gender: None,
        age: None,
        confidence: Some(0.9f32.to_bits()),
        reason: Some("上下文".to_string()),
    }
}

fn entry(name: &str, voice: &str, locked: bool) -> VoiceAllocationEntry {
    let mut e = edited_entry(name, voice, locked);
    e.aliases = vec!["小".to_string() + name];
    e.category = Some(VoiceCategory::MaleYouth);
    e.volume = Some(70);
    e
}

fn character(name: &str, voice: Option<&str>) -> CharacterVoice {
    CharacterVoice {
        name: name.to_string(),
        aliases: vec!["别名".to_string()],
        gender: None,
        age: None,
        category: Some(VoiceCategory::FemaleElder),
        voice_id: voice.map(|v| v.to_string()),
        enabled: true,
    }
}

fn config(characters: Vec<CharacterVoice>) -> AiDialogueConfig {
    AiDialogueConfig {
        enabled: true,
        api_url: None,
        api_key: None,
        model: None,
        chapter_analysis_enabled: true,
        save_crowd_characters: false,
        context_chars: 100,
        characters,
    }
}

fn settings() -> Cli {
    Cli {
        list: false,
        file: None,
        dir: None,
        web: false,
        api: None,
        out: "output".to_string(),
        output_name: None,
        voice: Some("narrator".to_string()),
        voice_dialogue: Some("talker".to_string()),
        volume_dialogue: None,
        speed_dialogue: Some(61),
        pitch_dialogue: None,
        volume: 50,
        speed: 51,
        pitch: 52,
        sub: 0,
        ignore_regex: String::new(),
        blacklist: None,
        concurrency: 4,
        preserve_structure: false,
        analysis_only: false,
        ai_dialogue: config(vec![]),
    }
}

fn said(text: &str) -> BatchData {
    BatchData {
        text: text.to_string(),
        lines: vec![text.to_string()],
        is_dialogue: true,
    }
}

#[test]
fn labels_name_categories() {
    for c in ALL {
        assert_eq!(voice_category_from_label(c.label()), Some(c));
    }
    assert_eq!(voice_category_from_label("男儿童"), Some(VoiceCategory::MaleChild));
    assert_eq!(voice_category_from_label("女少年"), Some(VoiceCategory::FemaleTeen));
    assert_eq!(voice_category_from_label("机器人"), None);
}

#[test]
fn speaker_tags_are_read() {
    let t = parse_manual_speaker_tag("  <<张三（男青年）>>“好”").unwrap();
    assert_eq!((t.name.as_str(), t.category), ("张三", Some(VoiceCategory::MaleYouth)));
    assert_eq!(t.tag, "<<张三（男青年）>>");
    let t = parse_manual_speaker_tag("<< 李四 >>“好”").unwrap();
    assert_eq!((t.name.as_str(), t.category), ("李四", None));
    let t = parse_manual_speaker_tag("<<a(外星人)>>x").unwrap();
    assert_eq!((t.name.as_str(), t.category), ("a", None));
    let t = parse_manual_speaker_tag("<<a(女童）>>x").unwrap();
    assert_eq!(t.category, Some(VoiceCategory::FemaleChild));
    let long = "名".repeat(51);
    for s in ["“好”", "<<>>x", "<< >>x", "<<a|b>>x", "<<a()>>", "x<<a>>", &format!("<<{}>>", long)] {
        assert!(parse_manual_speaker_tag(s).is_none(), "{}", s);
    }
}

#[test]
fn windows_lie_about_what_is_said() {
    assert_eq!(window_chars("一二三四五六七八", "五", 4), "三四五六");
    assert_eq!(window_chars("一二三四五六七八", "二", 4), "一二三四");
    assert_eq!(window_chars("一二三四五六七八", "没有", 3), "一二三");
    assert_eq!(window_chars("一二三四五六七八", "八", 4), "六七八");
    assert_eq!(window_chars("一二三", "二", 3), "一二三");
    assert_eq!(window_chars("一二三", "二", 0), "");
    assert_eq!(
        speaker_context("一二三四五", "四", 2),
        "【当前重点对话】\n四\n\n【对话附近上下文】\n三四"
    );
}

#[test]
fn texts_are_shortened_for_messages() {
    assert_eq!(trim_for_log("a\nb"), "a b");
    let forty = "字".repeat(40);
    assert_eq!(trim_for_log(&forty), forty);
    assert_eq!(trim_for_log(&format!("{}尾", forty)), format!("{}...", forty));
}

#[test]
fn known_characters_come_from_settings_and_table() {
    let screened = |e, garbled, aliases| ScreenedEntry { entry: e, garbled, garbled_aliases: aliases };
    let entries = vec![
        screened(entry("甲", "v1", true), false, vec![false]),
        screened(entry("乙", "", true), false, vec![true]),
        screened(entry("丙", "v3", true), true, vec![false]),
        screened(entry("乙", "v4", true), false, vec![false]),
    ];
    let known = known_characters_from_table(&config(vec![character("甲", None)]), &entries);
    let names: Vec<&str> = known.iter().map(|c| c.name.as_str()).collect();
    assert_eq!(names, ["甲", "乙"]);
    assert_eq!(known[0].aliases, ["别名"]);
    assert!(known[1].aliases.is_empty());
    assert_eq!(known[1].voice_id, None);
    assert_eq!(known[1].category, Some(VoiceCategory::MaleYouth));
    assert!(known[1].enabled);
}

fn answer_for(indices: &[usize]) -> Vec<ChapterSpeaker> {
    indices.iter().map(|i| ChapterSpeaker { index: *i, speaker: speaker("甲") }).collect()
}

fn quotations(n: usize) -> Vec<BatchData> {
    (0..n).map(|i| said(&format!("“{}”", i))).collect()
}

fn nobody(n: usize) -> Vec<Option<SpeakerResult>> {
    (0..n).map(|_| None).collect()
}

#[test]
fn only_open_quotations_are_asked_for() {
    let mut batches = batch_lines(&vec!["旁白“一”旁白“二”".to_string()]);
    batches.push(said("<<甲>>“三”"));
    let mut speakers = nobody(batches.len());
    speakers[1] = Some(speaker("乙"));
    let inputs = dialogue_inputs(&batches, &speakers);
    let got: Vec<(usize, &str)> = inputs.iter().map(|i| (i.index, i.text.as_str())).collect();
    assert_eq!(got, [(3, "“二”")]);
}

#[test]
fn chapters_with_enough_answers_are_not_asked_again() {
    let batches = quotations(10);
    let mut a = ChapterAnalysis::start(true, &batches, nobody(10));
    assert_eq!(a.request().unwrap().len(), 10);
    a.answer(&batches, &answer_for(&[0, 1, 2, 3, 4, 5, 6, 7, 99]));
    assert!(a.request().is_none());
    assert_eq!(a.speakers.iter().filter(|s| s.is_some()).count(), 8);
}

#[test]
fn chapters_with_too_few_answers_are_asked_in_chunks() {
    let batches = quotations(25);
    let mut a = ChapterAnalysis::start(true, &batches, nobody(25));
    a.answer(&batches, &answer_for(&[0, 1]));
    assert_eq!(a.request().unwrap().len(), 10);
    a.answer(&batches, &answer_for(&[2, 24]));
    assert!(a.speakers[2].is_some());
    assert!(a.speakers[24].is_none());
    assert_eq!(a.request().unwrap().len(), 10);
    a.answer(&batches, &vec![]);
    let last = a.request().unwrap();
    assert_eq!(last.len(), 3);
    assert_eq!(last[0].index, 22);
    a.answer(&batches, &vec![]);
    assert!(a.request().is_none());
}

#[test]
fn analysis_that_is_not_in_use_asks_nothing() {
    let batches = quotations(3);
    let a = ChapterAnalysis::start(false, &batches, nobody(3));
    assert!(a.request().is_none());
    let a = ChapterAnalysis::start(true, &vec![], vec![]);
    assert!(a.request().is_none());
}

#[test]
fn saved_speakers_come_back() {
    let batches = quotations(3);
    let mut speakers = nobody(3);
    speakers[0] = Some(speaker("甲"));
    speakers[2] = Some(speaker("乙"));
    let entries = analysis_entries(&batches, &speakers);
    assert_eq!(entries.len(), 2);
    let (back, hits) = restore_speakers(&batches, &entries);
    assert_eq!(hits, 2);
    assert_eq!(back[0].as_ref().map(|s| s.name.as_str()), Some("甲"));
    assert!(back[1].is_none());
    assert_eq!(back[2].as_ref().map(|s| s.name.as_str()), Some("乙"));
    assert_eq!(count_unanalyzed(&batches, &back), 1);
    let changed = quotations(1);
    assert_eq!(restore_speakers(&changed, &entries).1, 1);
    let other = vec![said("“别的”")];
    assert_eq!(restore_speakers(&other, &entries).1, 0);
}

#[test]
fn chapters_of_a_table_stay_in_order() {
    let dialogue = |n| {
        vec![DialogueAnalysisEntry { batch_index: n, text: String::new(), speaker: speaker("甲") }]
    };
    let mut table = begin_table(None, "a.txt", "书", 7);
    assert_eq!((table.schema_version, table.generated_at), (1, 7));
    upsert_chapter_analysis(&mut table, 2, "三".to_string(), dialogue(1));
    upsert_chapter_analysis(&mut table, 0, "一".to_string(), dialogue(2));
    upsert_chapter_analysis(&mut table, 2, "三改".to_string(), dialogue(3));
    let got: Vec<(usize, &str, usize)> = table
        .chapters
        .iter()
        .map(|c| (c.chapter_index, c.chapter_title.as_str(), c.dialogues[0].batch_index))
        .collect();
    assert_eq!(got, [(0, "一", 2), (2, "三改", 3)]);
    assert_eq!(analyzed_count(&table.chapters, 5), 1);
    let table = begin_table(Some(table), "b.txt", "新", 9);
    assert_eq!(table.chapters.len(), 2);
    assert_eq!((table.file_path.as_str(), table.novel_title.as_str()), ("b.txt", "新"));
    assert_eq!(table.generated_at, 9);
}

#[test]
fn last_analysis_of_a_chapter_counts() {
    let chapter = |i, t: &str| ChapterDialogueAnalysis {
        chapter_index: i,
        chapter_title: t.to_string(),
        dialogues: vec![],
    };
    let chapters = vec![chapter(0, "a"), chapter(1, "b"), chapter(0, "c")];
    assert_eq!(saved_chapter(&chapters, 0), Some(2));
    assert_eq!(saved_chapter(&chapters, 3), None);
    assert_eq!(analyzed_count(&chapters, 5), 2);
    assert_eq!(analyzed_count(&chapters, 1), 1);
}

#[test]
fn low_confidence_is_for_review() {
    assert!(needs_review(None));
    for c in [0.0f32, -0.0, 0.3, 0.59999, 0.6, 0.60001, 1.0, -2.0, f32::NAN, f32::INFINITY,
        f32::NEG_INFINITY]
    {
        assert_eq!(needs_review(Some(c.to_bits())), c < 0.6, "{}", c);
    }
}

#[test]
fn crowds_are_known_by_name() {
    assert!(is_crowd("群众甲"));
    assert!(!is_crowd("缇や紬甲"));
    assert!(is_crowd_or_garbled("缇や紬甲"));
    assert!(is_crowd_or_garbled("群众"));
    assert!(!is_crowd_or_garbled("张三"));
    assert!(recorded_by_conversion(true, false, "张三"));
    assert!(!recorded_by_conversion(true, false, "群众"));
    assert!(recorded_by_conversion(true, true, "群众"));
    assert!(!recorded_by_conversion(false, true, "张三"));
}

#[test]
fn voices_come_from_table_character_or_pool() {
    match voice_source(&Some(entry("甲", "v", true)), &Some(character("甲", None))) {
        VoiceSource::Table(v) => assert_eq!(v, "v"),
        _ => panic!("not of the table"),
    }
    assert!(matches!(
        voice_source(&Some(entry("甲", "", true)), &Some(character("甲", None))),
        VoiceSource::Character
    ));
    let mut ai = entry("甲", "v", false);
    ai.source = AllocationSource::AIInferred;
    assert!(matches!(voice_source(&Some(ai), &None), VoiceSource::Pool));
    let mut by_hand = entry("甲", "v", false);
    by_hand.source = AllocationSource::Manual;
    assert!(matches!(voice_source(&Some(by_hand), &None), VoiceSource::Table(_)));
    assert!(matches!(voice_source(&None, &None), VoiceSource::Pool));
}

#[test]
fn entries_of_speakers_take_the_best_source() {
    let e = speaker_entry(
        &speaker("张三"),
        &Some(character("老张", Some("v"))),
        &Some(entry("甲", "x", false)),
        &Some(vec![" ".to_string(), "别名".to_string(), "新".to_string()]),
        Some(VoiceCategory::MaleTeen),
        "voice",
    );
    assert_eq!(e.character_name, "老张");
    assert_eq!(e.aliases, ["别名", "新"]);
    assert_eq!(e.category, Some(VoiceCategory::FemaleElder));
    assert_eq!(e.category_label.as_deref(), Some("女老年"));
    assert_eq!(e.voice_id, "voice");
    assert_eq!(e.source, AllocationSource::CharacterOverride);
    assert!(e.locked && !e.needs_review);
    assert_eq!((e.volume, e.speed, e.pitch), (None, None, None));
    assert_eq!(e.confidence, Some(0.9f32.to_bits()));

    let e = speaker_entry(&speaker("张三"), &None, &None, &None, None, "");
    assert_eq!(e.character_name, "张三");
    assert!(e.aliases.is_empty());
    assert_eq!((e.category, e.category_label.as_deref()), (None, None));
    assert_eq!(e.source, AllocationSource::AIInferred);

    let e = speaker_entry(&speaker("张三"), &None, &Some(entry("甲", "x", false)), &None, None, "");
    assert_eq!(e.character_name, "甲");
    assert_eq!(e.aliases, ["小甲"]);
    assert_eq!(e.category, Some(VoiceCategory::MaleYouth));
    assert_eq!(e.source, AllocationSource::Manual);
}

#[test]
fn locked_entries_are_not_written() {
    assert!(is_locked(&Some(entry("甲", "v", true))));
    assert!(!is_locked(&Some(entry("甲", "v", false))));
    assert!(!is_locked(&None));
    let write = |recorded, locked| {
        speaker_write(
            recorded,
            &speaker("甲"),
            &None,
            &Some(entry("甲", "v", locked)),
            &None,
            None,
            "w",
        )
    };
    assert!(matches!(write(false, false), TableWrite::Leave));
    assert!(matches!(write(true, true), TableWrite::Keep));
    match write(true, false) {
        TableWrite::Upsert(e) => assert_eq!((e.voice_id.as_str(), e.locked), ("w", true)),
        _ => panic!("not written"),
    }
}

#[test]
fn analyses_record_speakers() {
    let record = |table, garbled, crowd, name: &str, voice: Option<&str>| {
        record_speaker_allocation(
            table,
            garbled,
            crowd,
            &speaker(name),
            &None,
            &None,
            &None,
            None,
            &voice.map(|v| v.to_string()),
        )
    };
    assert!(matches!(record(false, true, false, "甲", None), (TableWrite::Leave, None)));
    assert!(matches!(record(false, false, false, "甲", None), (TableWrite::Leave, None)));
    assert!(matches!(record(true, false, false, "群众", None), (TableWrite::Leave, None)));
    assert!(matches!(record(true, false, true, "群众", None), (TableWrite::Upsert(_), Some(_))));
    let (write, message) = record(true, true, false, "锟斤拷", None);
    assert!(matches!(write, TableWrite::Leave));
    assert_eq!(message.as_deref(), Some("AI 角色名疑似乱码，跳过分配表写入: 锟斤拷"));
    match record(true, false, false, "甲", None) {
        (TableWrite::Upsert(e), Some(m)) => {
            assert_eq!(e.voice_id, "");
            assert_eq!(m, "分析写入分配表: 甲 (分类:?, 声音:无)");
        }
        _ => panic!("not written"),
    }
    let (_, message) = record(true, false, false, "甲", Some("v1"));
    assert_eq!(message.as_deref(), Some("分析写入分配表: 甲 (分类:?, 声音:v1)"));
}

#[test]
fn locked_speakers_are_not_mentioned_by_an_analysis() {
    let existing = Some(leftover_entry("甲", "w"));
    let (write, message) = record_speaker_allocation(
        true, false, true, &speaker("甲"), &None, &existing, &None, None, &None,
    );
    assert!(matches!(write, TableWrite::Keep));
    assert_eq!(message, None);
}

#[test]
fn voices_of_speakers_come_from_their_source() {
    let some = |v: &str| Some(v.to_string());
    let table = VoiceSource::Table("t".to_string());
    assert_eq!(speaker_voice(&table, some("f"), some("d")), some("t"));
    assert_eq!(speaker_voice(&table, None, None), some("t"));
    assert_eq!(speaker_voice(&VoiceSource::Character, some("f"), some("d")), some("f"));
    assert_eq!(speaker_voice(&VoiceSource::Pool, None, some("d")), some("d"));
    assert_eq!(speaker_voice(&VoiceSource::Pool, None, None), None);
}

#[test]
fn conversions_say_what_the_table_learns() {
    let mut entry = leftover_entry("乙", "v");
    entry.category_label = Some("成年男性".to_string());
    let upsert = TableWrite::Upsert(entry);
    assert_eq!(
        conversion_message("甲", &upsert).as_deref(),
        Some("分配表写入: 甲 (分类:成年男性, 声音:v)")
    );
    assert_eq!(
        conversion_message("甲", &TableWrite::Keep).as_deref(),
        Some("分配表已锁定，跳过覆盖: 甲")
    );
    assert_eq!(
        conversion_message("群众甲", &TableWrite::Leave).as_deref(),
        Some("群众角色未写入分配表: 群众甲")
    );
    assert_eq!(conversion_message("甲", &TableWrite::Leave), None);
    assert_eq!(
        garbled_message("甲"),
        "AI dialogue speaker '甲' 疑似乱码，使用默认对话声音且不写入分配表"
    );
    assert_eq!(
        analysis_message(true, false, "甲", &upsert).as_deref(),
        Some("分析写入分配表: 甲 (分类:成年男性, 声音:v)")
    );
}

#[test]
fn voices_of_quotations_are_told() {
    let mut who = speaker("甲");
    who.gender = Some("male".to_string());
    who.age = None;
    let some = |v: &str| Some(v.to_string());
    let fixed = Some(leftover_entry("乙", "w"));
    assert_eq!(
        voice_message("好", &who, &fixed, &None, &None),
        "AI dialogue: '好' -> 乙 (使用分配表声音: w)"
    );
    assert_eq!(
        voice_message("好", &who, &None, &None, &some("v")),
        "AI dialogue: '好' -> speaker '甲' (male/?), auto pool: v"
    );
    assert_eq!(
        voice_message("好", &who, &None, &None, &None),
        "AI dialogue speaker '甲' (male/?) not matched; using default dialogue voice"
    );
    let label = VoiceCategory::FemaleElder.label();
    assert_eq!(
        voice_message("好", &who, &None, &Some(character("丙", None)), &some("v")),
        format!("AI dialogue: '好' -> 丙 (category: {}, voice: v)", label)
    );
    let mut other = character("丙", None);
    other.category = None;
    assert_eq!(
        voice_message("好", &who, &None, &Some(other), &some("v")),
        "AI dialogue: '好' -> 丙 (category: none, voice: v)"
    );
    assert_eq!(
        voice_message("好", &who, &None, &Some(character("丙", None)), &None),
        "AI dialogue: '好' -> 丙 (no voice in pool, using fallback)"
    );
}

#[test]
fn batches_are_planned() {
    let narration = BatchData { text: "旁白".to_string(), lines: vec![], is_dialogue: false };
    let known = Some(speaker("甲"));
    assert!(matches!(plan_batch(&narration, &known, false, true), BatchPlan::Narration));
    assert!(matches!(plan_batch(&said("<<甲>>x"), &known, false, true), BatchPlan::Manual(_)));
    assert!(matches!(plan_batch(&said("“x”"), &known, true, false), BatchPlan::Known));
    assert!(matches!(plan_batch(&said("“x”"), &None, false, true), BatchPlan::Identify));
    assert!(matches!(plan_batch(&said("“x”"), &None, true, true), BatchPlan::Default));
    assert!(matches!(plan_batch(&said("“x”"), &None, false, false), BatchPlan::Default));
}

#[test]
fn tags_set_voices_and_entries() {
    let tag = parse_manual_speaker_tag("<<甲(少女)>>x").unwrap();
    match manual_voice(&Some(entry("甲", "v", false)), tag.category) {
        ManualVoice::Table(v) => assert_eq!(v, "v"),
        _ => panic!("not of the table"),
    }
    assert!(matches!(
        manual_voice(&None, tag.category),
        ManualVoice::Allocate(VoiceCategory::FemaleTeen)
    ));
    assert!(matches!(manual_voice(&None, None), ManualVoice::Default));
    assert!(matches!(manual_write(false, &tag, &None, &None), TableWrite::Leave));
    assert!(matches!(
        manual_write(true, &tag, &Some(entry("甲", "v", true)), &None),
        TableWrite::Keep
    ));
    match manual_write(true, &tag, &Some(entry("老甲", "v", false)), &Some("w".to_string())) {
        TableWrite::Upsert(e) => {
            assert_eq!((e.character_name.as_str(), e.voice_id.as_str()), ("老甲", "w"));
            assert_eq!(e.category, Some(VoiceCategory::FemaleTeen));
            assert_eq!(e.source, AllocationSource::Manual);
            assert_eq!(e.confidence, Some(1.0f32.to_bits()));
            assert_eq!(e.reason.as_deref(), Some("手动标注"));
            assert!(e.locked && !e.needs_review);
        }
        _ => panic!("not written"),
    }
}

#[test]
fn requests_have_voices_and_levels() {
    let args = settings();
    assert_eq!(fallback_voice(&args).as_deref(), Some("talker"));
    let mut other = settings();
    other.voice_dialogue = None;
    assert_eq!(fallback_voice(&other).as_deref(), Some("narrator"));
    let r = narration_request(&args, &said("x"));
    assert_eq!(r.voice.as_deref(), Some("narrator"));
    assert_eq!((r.volume, r.speed, r.pitch), (50, 51, 52));
    let tag = parse_manual_speaker_tag("<<甲>>“好”");
    let r = dialogue_request(
        &args,
        &said("<<甲>>“好”"),
        &tag,
        Some("v".to_string()),
        &Some(entry("甲", "v", true)),
    );
    assert_eq!(r.text, "“好”");
    assert_eq!(r.voice.as_deref(), Some("v"));
    assert_eq!((r.volume, r.speed, r.pitch), (70, 61, 52));
}

#[test]
fn live_tables_are_made_where_they_are_needed() {
    assert!(create_live_allocation_table(false, None, "a.txt").is_none());
    let t = create_live_allocation_table(true, None, "dir/a.txt").unwrap();
    assert_eq!(t.file_path, "dir/a.txt");
    assert!(t.entries.is_empty());
    let saved = VoiceAllocationTable {
        schema_version: 1,
        file_path: "dir\\a.txt".to_string(),
        novel_title: "书".to_string(),
        entries: vec![entry("甲", "v", true)],
        generated_at: 3,
    };
    let t = create_live_allocation_table(true, Some(saved), "dir/a.txt").unwrap();
    assert_eq!(t.entries.len(), 1);
}

#[test]
fn edited_tables_are_checked() {
    let table = |path: &str, e: VoiceAllocationEntry| VoiceAllocationTable {
        schema_version: 0,
        file_path: path.to_string(),
        novel_title: "书".to_string(),
        entries: vec![e],
        generated_at: 3,
    };
    assert!(accept_edited_table(table("  ", entry("甲", "v", true)), 9).is_none());
    let t = accept_edited_table(table("a.txt", entry("甲", "v", true)), 9).unwrap();
    assert_eq!((t.file_path.as_str(), t.novel_title.as_str()), ("a.txt", "书"));
    assert_eq!((t.schema_version, t.generated_at), (2, 3));
    let mut new = table("a.txt", entry("甲", "v", true));
    new.generated_at = 0;
    new.schema_version = 1;
    let t = accept_edited_table(new, 9).unwrap();
    assert_eq!((t.schema_version, t.generated_at), (1, 9));
    let t = normalize_allocation_table(table("a.txt", entry("甲", "v", true)));
    assert_eq!((t.schema_version, t.entries.len()), (2, 1));
    let mut names = vec![];
    for path in ["x/b.txt", "y/a.txt", "/"] {
        names.push(summarize_table(&table(path, entry("甲", "v", true))));
    }
    assert_eq!(names[0].entry_count, 1);
    let names: Vec<String> = sort_summaries(names).into_iter().map(|s| s.file_name).collect();
    assert_eq!(names, ["", "a.txt", "b.txt"]);
    let e = leftover_entry("甲", "v");
    assert_eq!((e.character_name.as_str(), e.voice_id.as_str()), ("甲", "v"));
    assert_eq!(e.source, AllocationSource::AIInferred);
    assert!(e.locked && !e.needs_review && e.confidence.is_none());
    let e = edited_entry("甲", "v", false);
    assert_eq!(e.source, AllocationSource::Manual);
    assert!(!e.locked);
}

#[test]
fn entries_are_found_by_name() {
    let mut table = create_live_allocation_table(true, None, "a.txt").unwrap();
    assert_eq!(lookup_entry(&table, "甲"), None);
    upsert_entry(&mut table, entry("甲", "v", true));
    upsert_entry(&mut table, entry("乙", "w", true));
    upsert_entry(&mut table, entry("甲", "x", false));
    assert_eq!(table.entries.len(), 2);
    assert_eq!(lookup_entry(&table, "甲"), Some(0));
    assert_eq!(table.entries[0].voice_id, "x");
    assert_eq!(table.entries[1].voice_id, "w");
}

#[test]
fn names_with_a_voice_are_added_to_the_table_once() {
    let mut table = create_live_allocation_table(true, None, "a.txt").unwrap();
    upsert_entry(&mut table, entry("甲", "v", false));
    let voices = [("乙", "w"), ("甲", "x"), ("丙", "y"), ("乙", "z")];
    let voices = voices.map(|(a, b)| (a.to_string(), b.to_string())).to_vec();
    collect_leftovers(&mut table, &voices);
    let entries: Vec<(&str, &str, bool)> = table
        .entries
        .iter()
        .map(|e| (e.character_name.as_str(), e.voice_id.as_str(), e.locked))
        .collect();
    assert_eq!(entries, [("甲", "v", false), ("乙", "w", true), ("丙", "y", true)]);
}
