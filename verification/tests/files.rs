use gtd_cli::board::TaskBoard;
use gtd_cli::dates::TaskDates;
use gtd_cli::group::{by_context, flat_tasks, group_by_status, pivot_on_context, Project};
use gtd_cli::order::sort_by_project;
use gtd_cli::select::{read_tasks, task_line, TaskFilter};
use gtd_cli::status::TaskStatus;
use gtd_cli::task::Task;
use gtd_cli::text::lines;

fn keys(ks: &[&str]) -> Vec<String> {
    ks.iter().map(|k| k.to_string()).collect()
}

fn st(k: &str) -> TaskStatus {
    TaskStatus::Status(k.to_string())
}

const PLAIN: &str = "# Project A\n- buy milk @todo #xshop\n* call bob #xphone\n- just a note\n- @wip fix door @d20260101\n  - indented @todo\n- hidden #xsomeday\n";

const GTD: &str = "- @gtd @todo #xwork @s20260301 @v20260310\n- write report\n- review draft @wip #xpc @d20260320\n* other";

fn default_filter() -> TaskFilter {
    TaskFilter::new(vec![], vec![], Some(keys(&["#xsomeday"])))
}

fn descriptions(ts: &[Task]) -> Vec<String> {
    ts.iter().map(|t| t.description.clone()).collect()
}

#[test]
fn text_lines() {
    assert_eq!(lines("a\nb\r\nc"), keys(&["a", "b", "c"]));
    assert_eq!(lines("a\n"), keys(&["a"]));
    assert_eq!(lines(""), Vec::<String>::new());
    assert_eq!(lines("\n\nx"), keys(&["", "", "x"]));
    assert_eq!(lines("a\rb\n"), keys(&["a\rb"]));
}

#[test]
fn bullet_lines() {
    assert!(task_line("- x"));
    assert!(task_line("* x"));
    assert!(!task_line("-x"));
    assert!(!task_line("  - x"));
}

#[test]
fn plain_file_tasks() {
    let ks = keys(&["todo", "wip"]);
    let ts = read_tasks("a.md", "/kb/a.md", PLAIN, &ks, &default_filter());
    assert_eq!(descriptions(&ts), keys(&["- buy milk ", "* call bob ", "- fix door "]));
    assert_eq!(ts[0].status, st("todo"));
    assert_eq!(ts[0].line, Some(2));
    assert_eq!(ts[1].status, TaskStatus::NoStatus);
    assert_eq!(ts[1].line, Some(3));
    assert_eq!(ts[2].status, st("wip"));
    assert_eq!(ts[2].line, Some(5));
    assert_eq!(ts[2].project, "a.md");
    assert_eq!(ts[2].file_path, Some("/kb/a.md".to_string()));
}

#[test]
fn default_hidden_context_applies_only_without_asked_contexts() {
    let ks = keys(&["todo", "wip"]);
    let f = TaskFilter::new(vec![], keys(&["#xsomeday"]), Some(keys(&["#xsomeday"])));
    assert!(f.default_not_context.is_empty());
    let ts = read_tasks("a.md", "/kb/a.md", PLAIN, &ks, &f);
    assert_eq!(descriptions(&ts), keys(&["- hidden "]));
}

#[test]
fn status_filter() {
    let ks = keys(&["todo", "wip"]);
    let f = TaskFilter::new(vec![st("wip")], vec![], None);
    let ts = read_tasks("a.md", "/kb/a.md", PLAIN, &ks, &f);
    assert_eq!(descriptions(&ts), keys(&["- fix door "]));
}

#[test]
fn context_filter() {
    let ks = keys(&["todo", "wip"]);
    let f = TaskFilter::new(vec![], keys(&["#xphone", "#xshop"]), None);
    let ts = read_tasks("a.md", "/kb/a.md", PLAIN, &ks, &f);
    assert_eq!(descriptions(&ts), keys(&["- buy milk ", "* call bob "]));
}

#[test]
fn gtd_file_tasks() {
    let ks = keys(&["todo", "wip"]);
    let ts = read_tasks("b.md", "/kb/b.md", GTD, &ks, &default_filter());
    assert_eq!(descriptions(&ts), keys(&["- write report", "- review draft ", "* other"]));
    assert_eq!(ts[0].status, st("todo"));
    assert_eq!(ts[0].contexts, keys(&["#xwork"]));
    assert_eq!(
        ts[0].dates,
        Some(TaskDates {
            start: Some("20260301".to_string()),
            due: None,
            visible: Some("20260310".to_string())
        })
    );
    assert_eq!(ts[0].line, Some(2));
    assert_eq!(ts[1].status, st("wip"));
    assert_eq!(ts[1].contexts, keys(&["#xpc", "#xwork"]));
    assert_eq!(
        ts[1].dates,
        Some(TaskDates {
            start: Some("20260301".to_string()),
            due: Some("20260320".to_string()),
            visible: Some("20260320".to_string())
        })
    );
    assert_eq!(ts[2].status, st("todo"));
    assert_eq!(ts[2].line, Some(4));
}

#[test]
fn projects_of_files() {
    let ks = keys(&["todo", "wip"]);
    let a = Project::of_file("a.md", "/kb/a.md", PLAIN, &ks, &default_filter()).unwrap();
    assert_eq!(a.file_name, "a.md");
    let statuses: Vec<TaskStatus> = a.tasks.iter().map(|g| g.status.clone()).collect();
    assert_eq!(statuses, vec![st("todo"), TaskStatus::NoStatus, st("wip")]);
    assert!(Project::of_file("e.md", "/kb/e.md", "nothing\n- plain", &ks, &default_filter()).is_none());
    assert!(Project::of_file("e.md", "/kb/e.md", "", &ks, &default_filter()).is_none());
}

fn both_projects() -> Vec<Project> {
    let ks = keys(&["todo", "wip"]);
    vec![
        Project::of_file("a.md", "/kb/a.md", PLAIN, &ks, &default_filter()).unwrap(),
        Project::of_file("b.md", "/kb/b.md", GTD, &ks, &default_filter()).unwrap(),
    ]
}

#[test]
fn grouping_by_status() {
    let ks = keys(&["todo", "wip"]);
    let ts = read_tasks("b.md", "/kb/b.md", GTD, &ks, &default_filter());
    let gs = group_by_status(&ts);
    assert_eq!(gs.len(), 2);
    assert_eq!(gs[0].status, st("todo"));
    assert_eq!(descriptions(&gs[0].tasks), keys(&["- write report", "* other"]));
    assert_eq!(gs[1].status, st("wip"));
    assert_eq!(descriptions(&gs[1].tasks), keys(&["- review draft "]));
    let total: usize = gs.iter().map(|g| g.tasks.len()).sum();
    assert_eq!(total, ts.len());
}

#[test]
fn all_tasks_of_projects() {
    let ps = both_projects();
    let all = flat_tasks(&ps);
    assert_eq!(
        descriptions(&all),
        keys(&["- buy milk ", "* call bob ", "- fix door ", "- write report", "* other", "- review draft "])
    );
}

#[test]
fn tasks_by_context() {
    let ps = both_projects();
    let gs = pivot_on_context(&ps);
    let names: Vec<String> = gs.iter().map(|g| g.context.clone()).collect();
    assert_eq!(names, keys(&["#xshop", "#xphone", "#xwork", "#xpc"]));
    assert_eq!(descriptions(&gs[2].tasks), keys(&["- write report", "* other", "- review draft "]));
    assert_eq!(descriptions(&gs[3].tasks), keys(&["- review draft "]));
    for g in &gs {
        for t in &g.tasks {
            assert!(t.contexts.contains(&g.context));
        }
    }
    let sorted = by_context(&ps);
    assert_eq!(sorted.len(), 4);
    assert_eq!(descriptions(&sorted[2].tasks), keys(&["- write report", "* other", "- review draft "]));
}

fn task_in(project: &str, desc: &str) -> Task {
    Task::from(desc, project, None, None, &[])
}

#[test]
fn ordering_by_project() {
    let ts = vec![task_in("b", "one"), task_in("a", "two"), task_in("c", "three"), task_in("a", "four"), task_in("ab", "five")];
    let s = sort_by_project(&ts);
    assert_eq!(descriptions(&s), keys(&["two", "four", "five", "one", "three"]));
    let projects: Vec<String> = s.iter().map(|t| t.project.clone()).collect();
    let mut expected: Vec<String> = ts.iter().map(|t| t.project.clone()).collect();
    expected.sort();
    assert_eq!(projects, expected);
}

#[test]
fn ordering_uses_character_codes() {
    let ts = vec![task_in("b", "lower"), task_in("B", "upper"), task_in("é", "accent")];
    let s = sort_by_project(&ts);
    assert_eq!(descriptions(&s), keys(&["upper", "lower", "accent"]));
}

#[test]
fn board_read_after_write() {
    let mut b = TaskBoard::new();
    assert!(b.tasks().is_empty());
    let ts = vec![task_in("z", "last"), task_in("m", "mid"), task_in("a", "first")];
    b.set_tasks(ts.clone());
    assert_eq!(b.tasks(), ts);
    assert_eq!(descriptions(&b.sorted_tasks()), keys(&["first", "mid", "last"]));
    b.set_tasks(vec![]);
    assert!(b.sorted_tasks().is_empty());
}
