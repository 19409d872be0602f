use semantic_graph_extract::progress::{render_progress_line, ProgressReporter, ProgressTask};

#[test]
fn progress_line_renders_partial_progress() {
    assert_eq!(
        render_progress_line(12, 24, "rust symbols"),
        "[##########----------] 12/24 50% rust symbols"
    );
}

#[test]
fn progress_line_renders_complete_progress() {
    assert_eq!(
        render_progress_line(24, 24, "csharp calls"),
        "[####################] 24/24 100% csharp calls"
    );
}

#[test]
fn progress_line_renders_zero_total_as_complete() {
    assert_eq!(
        render_progress_line(0, 0, "fts files"),
        "[####################] 0/0 100% fts files"
    );
}

#[test]
fn progress_line_is_ascii_only() {
    let line = render_progress_line(1, 2, "soul λ symbols");

    assert!(line.is_ascii());
    assert_eq!(line, "[##########----------] 1/2 50% soul ? symbols");
}

#[test]
fn progress_line_caps_current_at_total() {
    assert_eq!(
        render_progress_line(30, 24, "rust refs"),
        "[####################] 24/24 100% rust refs"
    );
}

#[test]
fn progress_line_rounds_percent_down() {
    assert_eq!(
        render_progress_line(1, 3, "x"),
        "[######--------------] 1/3 33% x"
    );
}

#[test]
fn disabled_reporter_tasks_write_nothing() {
    let mut reporter = ProgressReporter::disabled();
    let mut task = reporter.task(2, "rust symbols".to_string());
    assert_eq!(task.tick(&mut reporter), "");
    assert_eq!(task.finish(&mut reporter), "");
}

#[test]
fn disabled_task_writes_nothing() {
    let mut reporter = ProgressReporter::with_writer();
    let mut task = ProgressTask::disabled();
    assert_eq!(task.tick(&mut reporter), "");
    assert_eq!(task.finish(&mut reporter), "");
}

#[test]
fn ticks_advance_and_finish_writes_once() {
    let mut reporter = ProgressReporter::with_writer();
    let mut task = reporter.task(2, "calls".to_string());
    let first = task.tick(&mut reporter);
    assert!(first.contains("[##########----------] 1/2 50% calls"));
    let second = task.tick(&mut reporter);
    assert!(second.contains("2/2 100% calls"));
    assert!(second.ends_with('\n'));
    assert_eq!(task.finish(&mut reporter), "");
}

#[test]
fn each_count_is_rendered_once_and_one_newline_ends_the_task() {
    let mut reporter = ProgressReporter::with_writer();
    let mut task = reporter.task(3, "files".to_string());
    let texts: Vec<String> = (0..5).map(|_| task.tick(&mut reporter)).collect();
    assert!(texts[0].contains(" 1/3 "));
    assert!(texts[1].contains(" 2/3 "));
    assert!(texts[2].contains(" 3/3 100% files"));
    assert_eq!(texts[3], "");
    assert_eq!(texts[4], "");
    let newlines: usize = texts.iter().map(|t| t.matches('\n').count()).sum();
    assert_eq!(newlines, 1);
    assert!(texts[2].ends_with('\n'));
}
