use baitts::ai::AiDialogueConfig;
use baitts::args::Cli;
use baitts::deletion::{
    deletion_message, discard_tasks, distinct_paths, find_allocation_file_paths, gather_paths,
    is_same_path, leftover_table_files, output_deletion, path_of_belonging, remove_tasks,
    source_deletion, table_file_to_save, task_output_path, Belonging, Deletion, DeletionCounts,
    TableFile,
};
use baitts::process::ProcessError;
use baitts::requests::{autorun_settings, Levels};
use baitts::tasks::{
    change_task, elapsed_for_eta, failure_status, pending_task, planned_work, processing_task,
    requires_existing_analysis, settings_for_retry, settings_for_synthesis, sync_active_phase,
    synthesis_task, task_phase_from_task, RetryError, StartError, TaskChange, TaskPhase, TaskState,
    TaskStatus, TaskStore, TaskWork,
};

const LEVELS: Levels = Levels { volume: 1, speed: 2, pitch: 3 };

const STATUSES: [TaskStatus; 6] = [
    TaskStatus::Pending,
    TaskStatus::Processing,
    TaskStatus::Paused,
    TaskStatus::Completed,
    TaskStatus::Error,
    TaskStatus::Cancelled,
];

fn settings(analysis_only: bool) -> Cli {
    let ai = AiDialogueConfig {
        enabled: false,
        api_url: None,
        api_key: None,
        model: None,
        chapter_analysis_enabled: false,
        save_crowd_characters: false,
        context_chars: 0,
        characters: vec![],
    };
    let mut cli = autorun_settings(Some("http://h".to_string()), "output", ai, LEVELS);
    cli.analysis_only = analysis_only;
    cli
}

fn task(id: &str, status: TaskStatus) -> TaskState {
    let mut t = processing_task(id, "书", &format!("book/{}.txt", id), settings(false), 100, 5);
    t.status = status;
    sync_active_phase(&mut t);
    t
}

fn store(tasks: Vec<TaskState>) -> TaskStore {
    let mut s = TaskStore::new();
    for t in tasks {
        s.insert(t);
    }
    s
}

fn ids(v: &[&str]) -> Vec<String> {
    v.iter().map(|s| s.to_string()).collect()
}

#[test]
fn statuses_have_names() {
    for s in STATUSES {
        assert_eq!(TaskStatus::from_name(s.name()), Some(s));
    }
    assert_eq!(TaskStatus::Processing.name(), "processing");
    assert_eq!(TaskStatus::from_name("running"), None);
}

#[test]
fn new_tasks_wait_or_run() {
    let t = pending_task("i", "书", "a.txt", settings(true), 7);
    assert_eq!((t.id.as_str(), t.status), ("i", TaskStatus::Pending));
    assert_eq!(t.file_name, "分析: 书");
    assert_eq!(t.active_phase, Some(TaskPhase::Analysis));
    assert_eq!(t.analysis_phase.as_ref().map(|p| p.status), Some(TaskStatus::Pending));
    assert!(t.synthesis_phase.is_none());
    assert_eq!((t.created_at, t.start_time), (Some(7), None));
    let t = processing_task("i", "书", "a.txt", settings(false), 9, 7);
    assert_eq!((t.file_name.as_str(), t.status), ("书", TaskStatus::Processing));
    assert_eq!(t.active_phase, Some(TaskPhase::Synthesis));
    assert_eq!(t.synthesis_phase.as_ref().and_then(|p| p.start_time), Some(9));
    assert_eq!(t.full_path.as_deref(), Some("a.txt"));
}

#[test]
fn phases_follow_their_task() {
    let mut t = task("i", TaskStatus::Processing);
    t.current = 3;
    t.total = 8;
    let p = task_phase_from_task(&t, TaskStatus::Paused);
    assert_eq!((p.status, p.current, p.total), (TaskStatus::Paused, 3, 8));
    sync_active_phase(&mut t);
    assert_eq!(t.synthesis_phase.as_ref().map(|p| p.current), Some(3));
    t.active_phase = None;
    t.current = 4;
    sync_active_phase(&mut t);
    assert_eq!(t.synthesis_phase.as_ref().map(|p| p.current), Some(3));
}

#[test]
fn changes_apply_to_the_statuses_they_are_for() {
    let table: [(TaskChange, &[TaskStatus], TaskStatus); 6] = [
        (
            TaskChange::Cancel,
            &[TaskStatus::Pending, TaskStatus::Processing, TaskStatus::Paused],
            TaskStatus::Cancelled,
        ),
        (TaskChange::Pause, &[TaskStatus::Processing], TaskStatus::Paused),
        (TaskChange::Resume, &[TaskStatus::Paused], TaskStatus::Processing),
        (
            TaskChange::Stop(9),
            &[TaskStatus::Pending, TaskStatus::Processing, TaskStatus::Paused],
            TaskStatus::Cancelled,
        ),
        (
            TaskChange::Restart(9),
            &[TaskStatus::Processing, TaskStatus::Paused],
            TaskStatus::Cancelled,
        ),
        (
            TaskChange::Discard(9),
            &[TaskStatus::Pending, TaskStatus::Processing, TaskStatus::Paused],
            TaskStatus::Cancelled,
        ),
    ];
    for (change, from, to) in table {
        for s in STATUSES {
            let mut t = task("i", s);
            let applied = change_task(&mut t, &change);
            assert_eq!(applied, from.contains(&s), "{:?} {:?}", change, s);
            assert_eq!(t.status, if applied { to } else { s }, "{:?} {:?}", change, s);
            assert_eq!(t.synthesis_phase.as_ref().map(|p| p.status), Some(t.status));
        }
    }
}

#[test]
fn resuming_undoes_pausing() {
    let mut t = task("i", TaskStatus::Processing);
    t.eta = Some(4);
    t.current = 2;
    assert!(change_task(&mut t, &TaskChange::Pause));
    assert!(change_task(&mut t, &TaskChange::Resume));
    assert_eq!((t.status, t.current), (TaskStatus::Processing, 2));
}

#[test]
fn messages_say_why_tasks_were_cancelled() {
    let mut t = task("i", TaskStatus::Processing);
    change_task(&mut t, &TaskChange::Stop(200));
    assert_eq!(t.error_msg.as_deref(), Some("用户手动停止"));
    assert_eq!(t.end_time, Some(200));
    let mut t = task("i", TaskStatus::Paused);
    change_task(&mut t, &TaskChange::Restart(300));
    assert_eq!(t.error_msg.as_deref(), Some("服务器重启，任务已取消，请重试"));
    assert_eq!((t.end_time, t.eta), (Some(300), None));
}

#[test]
fn cancelled_tasks_stay_cancelled_when_they_fail() {
    let mut t = task("i", TaskStatus::Cancelled);
    let fail = TaskChange::Finish(TaskStatus::Error, Some("x".to_string()), 9);
    change_task(&mut t, &fail);
    assert_eq!((t.status, t.error_msg.as_deref()), (TaskStatus::Cancelled, None));
    let mut t = task("i", TaskStatus::Processing);
    change_task(&mut t, &fail);
    assert_eq!((t.status, t.error_msg.as_deref()), (TaskStatus::Error, Some("x")));
    assert_eq!(t.end_time, Some(9));
}

#[test]
fn completed_tasks_are_done() {
    let mut t = task("i", TaskStatus::Processing);
    change_task(&mut t, &TaskChange::Progress(3, 8, Some(50)));
    assert_eq!((t.current, t.total, t.eta), (3, 8, Some(50)));
    change_task(&mut t, &TaskChange::Output(77, "output/书".to_string()));
    assert_eq!((t.size, t.output_path.as_deref()), (Some(77), Some("output/书")));
    change_task(&mut t, &TaskChange::Finish(TaskStatus::Completed, None, 9));
    assert_eq!((t.current, t.status, t.eta), (8, TaskStatus::Completed, None));
    assert_eq!(t.synthesis_phase.as_ref().map(|p| p.current), Some(8));
    assert!(change_task(&mut t, &TaskChange::Hide));
    assert!(t.is_hidden);
}

#[test]
fn time_that_is_left_needs_time_that_has_passed() {
    let t = task("i", TaskStatus::Processing);
    assert_eq!(elapsed_for_eta(&t, 160, 3), Some(60));
    assert_eq!(elapsed_for_eta(&t, 100, 3), None);
    assert_eq!(elapsed_for_eta(&t, 160, 0), None);
}

#[test]
fn sound_is_made_from_analyses() {
    let analysis = |status, voice: Option<&str>| {
        let mut cli = settings(true);
        cli.voice = voice.map(|v| v.to_string());
        let mut t = processing_task("i", "书", "a.txt", cli, 9, 7);
        t.status = status;
        t
    };
    let error = |t: &TaskState, on_disk| settings_for_synthesis(t, on_disk, &None).err();
    assert_eq!(
        error(&analysis(TaskStatus::Processing, Some("v")), true),
        Some(StartError::NotReady)
    );
    let done = analysis(TaskStatus::Completed, Some("v"));
    assert_eq!(error(&done, false), Some(StartError::NoFile));
    assert_eq!(
        error(&analysis(TaskStatus::Paused, None), true),
        Some(StartError::NoVoice)
    );
    let mut pathless = analysis(TaskStatus::Completed, Some("v"));
    pathless.full_path = None;
    assert_eq!(error(&pathless, true), Some(StartError::NoPath));
    let mut bare = analysis(TaskStatus::Completed, Some("v"));
    bare.cli_config = None;
    assert_eq!(error(&bare, true), Some(StartError::NoSettings));
    let mut no_api = analysis(TaskStatus::Completed, Some("v"));
    if let Some(cli) = &mut no_api.cli_config {
        cli.api = None;
    }
    assert_eq!(error(&no_api, true), Some(StartError::NoApi));
    let api = Some("http://d".to_string());
    let cli = settings_for_synthesis(&no_api, true, &api).unwrap();
    assert_eq!(cli.api.as_deref(), Some("http://d"));
    let cli = settings_for_synthesis(&done, true, &None).unwrap();
    assert_eq!(cli.output_name.as_deref(), Some("书"));
    assert!(!cli.analysis_only);
    assert!(!requires_existing_analysis(&done));
    assert!(requires_existing_analysis(&analysis(TaskStatus::Paused, Some("v"))));
    let t = synthesis_task(&done, cli, "书", "a.txt", 20, 30);
    assert_eq!((t.id.as_str(), t.status), ("i", TaskStatus::Processing));
    assert_eq!(t.active_phase, Some(TaskPhase::Synthesis));
    assert!(t.analysis_phase.is_some() && t.synthesis_phase.is_some());
    assert_eq!(StartError::NoFile.message(), "源文件不存在，无法开始合成");
}

#[test]
fn failures_leave_a_status() {
    assert_eq!(failure_status(&ProcessError::Cancelled, true), (TaskStatus::Cancelled, None));
    let (s, m) = failure_status(&ProcessError::NoAnalysis, true);
    assert_eq!(s, TaskStatus::Paused);
    assert_eq!(m.as_deref(), Some("暂无可用的分析结果，请先继续分析后再开始合成"));
    assert_eq!(failure_status(&ProcessError::NoAnalysis, false).0, TaskStatus::Error);
    let (s, m) = failure_status(&ProcessError::Failed("坏".to_string()), true);
    assert_eq!((s, m.as_deref()), (TaskStatus::Error, Some("坏")));
}

#[test]
fn tasks_are_found_by_id() {
    let mut s = store(vec![task("a", TaskStatus::Pending), task("b", TaskStatus::Error)]);
    assert_eq!(s.tasks().len(), 2);
    assert_eq!(s.get("b").map(|t| t.status), Some(TaskStatus::Error));
    s.insert(task("a", TaskStatus::Completed));
    assert_eq!(s.tasks().len(), 2);
    assert_eq!(s.get("a").map(|t| t.status), Some(TaskStatus::Completed));
    assert!(s.remove("a"));
    assert!(!s.remove("a"));
    assert!(s.get("a").is_none());
    assert_eq!(s.position("b"), Some(0));
    s.clear();
    assert!(s.tasks().is_empty());
}

#[test]
fn queues_are_worked_in_order_one_at_a_time() {
    let at = |id: &str, created| {
        let mut t = task(id, TaskStatus::Pending);
        t.created_at = Some(created);
        t
    };
    let mut s = store(vec![at("late", 9), at("early", 3), at("mid", 5)]);
    assert_eq!(s.next_pending(), Some(1));
    assert!(s.change("early", &TaskChange::Pick(50)));
    assert_eq!(s.next_pending(), None);
    assert!(s.change("early", &TaskChange::Finish(TaskStatus::Completed, None, 60)));
    assert_eq!(s.next_pending(), Some(2));
    assert!(s.change("early", &TaskChange::Hide));
    assert_eq!(s.visible(), [0, 2]);
}

#[test]
fn all_tasks_are_changed_at_once() {
    let mut s = store(vec![
        task("a", TaskStatus::Processing),
        task("b", TaskStatus::Completed),
        task("c", TaskStatus::Processing),
    ]);
    assert_eq!(s.change_all(&TaskChange::Pause), 2);
    assert!(s.is_paused("a") && s.is_paused("c") && !s.is_paused("b"));
    assert_eq!(s.change_all(&TaskChange::Resume), 2);
    assert_eq!(s.change_all(&TaskChange::Stop(9)), 2);
    assert!(s.is_cancelled_or_missing("a"));
    assert!(s.is_cancelled_or_missing("zz"));
    assert!(!s.is_cancelled_or_missing("b"));
    assert_eq!(s.retryable(), [0, 2]);
}

#[test]
fn batches_pass_over_tasks() {
    let s = store(STATUSES.iter().map(|st| task(st.name(), *st)).collect());
    let reset: Vec<&str> =
        STATUSES.iter().map(|st| st.name()).filter(|n| s.is_reset_by_batch(n)).collect();
    assert_eq!(reset, ["pending", "processing", "error"]);
    let skipped: Vec<&str> =
        STATUSES.iter().map(|st| st.name()).filter(|n| s.is_skipped_by_batch(n)).collect();
    assert_eq!(skipped, ["processing", "paused", "completed", "cancelled"]);
    assert!(s.is_reset_by_batch("new") && !s.is_skipped_by_batch("new"));
}

#[test]
fn deleted_tasks_are_gone() {
    let mut s = store(vec![
        task("a", TaskStatus::Processing),
        task("b", TaskStatus::Pending),
        task("c", TaskStatus::Completed),
    ]);
    assert!(!discard_tasks(&mut s, &ids(&["b", "c", "none"]), 9));
    assert!(discard_tasks(&mut s, &ids(&["a"]), 9));
    assert_eq!(s.get("b").map(|t| t.status), Some(TaskStatus::Cancelled));
    assert_eq!(s.get("c").map(|t| t.status), Some(TaskStatus::Completed));
    assert_eq!(remove_tasks(&mut s, &ids(&["b", "none", "a", "b"])), ["b", "a"]);
    assert_eq!(s.tasks().len(), 1);
    assert!(s.get("c").is_some());
}

#[test]
fn what_belongs_to_tasks_is_found() {
    let mut t = task("a", TaskStatus::Completed);
    assert_eq!(task_output_path(&t), None);
    if let Some(cli) = &mut t.cli_config {
        cli.output_name = Some("书:一".to_string());
    }
    assert_eq!(task_output_path(&t).as_deref(), Some("output/书_一"));
    t.output_path = Some("elsewhere".to_string());
    assert_eq!(task_output_path(&t).as_deref(), Some("elsewhere"));
    let mut other = task("b", TaskStatus::Completed);
    other.full_path = Some("book\\a.txt".to_string());
    let mut blank = task("c", TaskStatus::Completed);
    blank.full_path = Some(" ".to_string());
    assert_eq!(path_of_belonging(&blank, Belonging::Source), None);
    assert_eq!(path_of_belonging(&blank, Belonging::Allocation).as_deref(), Some(" "));
    let s = store(vec![t, other, blank]);
    let all = ids(&["a", "b", "c", "none"]);
    assert_eq!(gather_paths(&s, &all, Belonging::Source), ["book/a.txt"]);
    assert_eq!(gather_paths(&s, &all, Belonging::Allocation), ["book/a.txt", " "]);
    assert_eq!(gather_paths(&s, &all, Belonging::Output), ["elsewhere"]);
    assert_eq!(distinct_paths(&ids(&["a\\b", "a/b", "c"])), ["a\\b", "c"]);
}

#[test]
fn tables_of_a_book_are_found() {
    let file = |p: &str, b: &str| TableFile { path: p.to_string(), book: b.to_string() };
    let files = vec![
        file("d/x.json", "book\\a.txt"),
        file("d/./own.json", "book/a.txt"),
        file("d/y.json", "book/b.txt"),
    ];
    let found = find_allocation_file_paths(Some("d/own.json".to_string()), &files, "book/a.txt");
    assert_eq!(found, ["d/own.json", "d/x.json"]);
    assert_eq!(table_file_to_save(&found, "d/new.json"), "d/own.json");
    assert_eq!(table_file_to_save(&vec![], "d/new.json"), "d/new.json");
    assert_eq!(leftover_table_files(&found, "d//own.json"), ["d/x.json"]);
    assert!(find_allocation_file_paths(None, &files, "c").is_empty());
}

#[test]
fn only_what_lies_below_its_root_is_deleted() {
    assert_eq!(output_deletion(Some("/output/a"), Some("/output")), Deletion::Allowed);
    assert_eq!(output_deletion(Some("/output"), Some("/output/")), Deletion::Refused);
    assert_eq!(output_deletion(Some("/outputs/a"), Some("/output")), Deletion::Refused);
    assert_eq!(output_deletion(None, Some("/output")), Deletion::Nothing);
    assert_eq!(output_deletion(Some("/output/a"), None), Deletion::Nothing);
    let source = |c, f, b, o| source_deletion(c, f, b, o);
    assert_eq!(source(Some("/b/x"), true, Some("/b"), Some("/o")), Deletion::Allowed);
    assert_eq!(source(Some("/b/x"), true, Some("/b"), None), Deletion::Allowed);
    assert_eq!(source(Some("/b/x"), false, Some("/b"), None), Deletion::Nothing);
    assert_eq!(source(Some("/c/x"), true, Some("/b"), None), Deletion::Refused);
    assert_eq!(source(Some("/b/o/x"), true, Some("/b"), Some("/b/o")), Deletion::Nothing);
    assert_eq!(source(Some("/b/x"), true, None, None), Deletion::Nothing);
    assert_eq!(source(None, true, Some("/b"), None), Deletion::Nothing);
    assert!(is_same_path("a/./b", "a//b/"));
    assert!(!is_same_path("/a", "a"));
}

#[test]
fn deletions_are_reported() {
    let counts = DeletionCounts { tasks: 3, allocations: 1, outputs: 2, sources: 0, failed: 4 };
    assert_eq!(deletion_message(counts, false, false, false), "已删除 3 个任务记录");
    assert_eq!(
        deletion_message(counts, true, true, true),
        "已删除 3 个任务记录，1 张分配表，2 个输出路径，0 个源文件，4 项删除失败"
    );
    let fine = DeletionCounts { failed: 0, ..counts };
    assert_eq!(deletion_message(fine, false, true, false), "已删除 3 个任务记录，2 个输出路径");
}

#[test]
fn only_one_task_is_begun_from_the_queue() {
    let mut first = task("a", TaskStatus::Pending);
    first.created_at = Some(7);
    let mut second = task("b", TaskStatus::Pending);
    second.created_at = Some(4);
    let mut s = store(vec![first, second]);
    assert_eq!(s.begin_next(50), Some(1));
    assert_eq!(s.tasks()[1].status, TaskStatus::Processing);
    assert_eq!(s.tasks()[1].start_time, Some(50));
    assert_eq!(s.tasks()[0].status, TaskStatus::Pending);
    assert_eq!(s.begin_next(51), None);
    assert_eq!(TaskStore::new().begin_next(52), None);
}

#[test]
fn new_tasks_do_not_replace_known_ones() {
    let mut s = store(vec![task("a", TaskStatus::Completed)]);
    assert!(!s.insert_new(task("a", TaskStatus::Pending)));
    assert_eq!(s.tasks()[0].status, TaskStatus::Completed);
    assert!(s.insert_new(task("b", TaskStatus::Pending)));
    assert_eq!(s.tasks().len(), 2);
}

#[test]
fn retries_need_a_file_and_settings() {
    let mut t = task("a", TaskStatus::Error);
    t.full_path = Some("book/a.txt".to_string());
    t.cli_config = Some(settings(true));
    let (path, cli) = settings_for_retry(Some(&t), true).unwrap();
    assert_eq!(path, "book/a.txt");
    assert!(cli.analysis_only);
    assert!(matches!(settings_for_retry(Some(&t), false), Err(RetryError::NoFile)));
    t.cli_config = None;
    assert!(matches!(settings_for_retry(Some(&t), true), Err(RetryError::Unknown)));
    assert!(matches!(settings_for_retry(None, true), Err(RetryError::Unknown)));
    assert_eq!(RetryError::NoFile.message(), "原文件不存在，无法重试");
    assert_eq!(RetryError::Unknown.message(), "任务无效或缺少配置信息");
}

#[test]
fn work_is_planned_by_the_settings() {
    assert_eq!(planned_work(true, false, false), TaskWork::Analyze);
    assert_eq!(planned_work(true, false, true), TaskWork::Convert);
    assert_eq!(planned_work(false, false, false), TaskWork::Convert);
    assert_eq!(planned_work(false, true, false), TaskWork::ConvertAnalyzed);
}
