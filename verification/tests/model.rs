use gtd_cli::cli::{inbox_line, is_hidden, is_ignored, Args, ConfigFile, ServerConfig};
use gtd_cli::context::TaskContext;
use gtd_cli::dates::TaskDates;
use gtd_cli::status::{valid_status_keys, TaskStatus, TermColor};
use gtd_cli::task::Task;

fn keys(ks: &[&str]) -> Vec<String> {
    ks.iter().map(|k| k.to_string()).collect()
}

fn st(k: &str) -> TaskStatus {
    TaskStatus::Status(k.to_string())
}

#[test]
fn classify_first_declared_token() {
    let ks = keys(&["todo", "wip", "review"]);
    assert_eq!(TaskStatus::classify("- fix bug @todo #xhome", &ks), st("todo"));
    assert_eq!(TaskStatus::classify("- @wip then @todo", &ks), st("wip"));
    assert_eq!(TaskStatus::classify("- nothing here", &ks), TaskStatus::NoStatus);
    assert_eq!(TaskStatus::classify("- @waiting for mail", &ks), TaskStatus::NoStatus);
}

#[test]
fn classify_explicit_no_status() {
    let ks = keys(&["todo"]);
    assert_eq!(TaskStatus::classify("- @noStatus before @todo", &ks), TaskStatus::NoStatus);
    assert_eq!(TaskStatus::classify("- @todo before @noStatus", &ks), st("todo"));
}

#[test]
fn classify_first_key_wins_at_same_place() {
    let ks = keys(&["do", "done"]);
    assert_eq!(TaskStatus::classify("- finished @done", &ks), st("done"));
    assert_eq!(TaskStatus::classify("- finished @do.", &ks), st("do"));
    let ks = keys(&["done", "do"]);
    assert_eq!(TaskStatus::classify("- finished @done", &ks), st("done"));
}

#[test]
fn status_key_must_be_a_whole_word() {
    let ks = keys(&["todo"]);
    assert_eq!(TaskStatus::classify("- read @todos", &ks), TaskStatus::NoStatus);
    assert_eq!(TaskStatus::remove_status_str("- read @todos", &ks), "- read @todos");
    assert_eq!(TaskStatus::classify("- read @todo-list", &ks), TaskStatus::NoStatus);
    assert_eq!(TaskStatus::classify("- read @todo, then @todos", &ks), st("todo"));
    assert_eq!(TaskStatus::remove_status_str("- read @todo, then @todos", &ks), "- read , then @todos");
    assert_eq!(TaskStatus::classify("- @noStatusx @todo", &ks), st("todo"));
}

#[test]
fn classify_without_declared_keys() {
    let ks: Vec<String> = vec![];
    assert_eq!(TaskStatus::classify("- task @todo", &ks), TaskStatus::NoStatus);
    assert_eq!(TaskStatus::remove_status_str("- task @noStatus x", &ks), "- task x");
}

#[test]
fn keys_that_are_not_words_give_no_status_pattern() {
    let ks = keys(&["todo", "("]);
    assert!(!valid_status_keys(&ks));
    assert_eq!(TaskStatus::classify("- a @todo", &ks), TaskStatus::NoStatus);
    assert_eq!(TaskStatus::classify("- a @(", &ks), TaskStatus::NoStatus);
    assert_eq!(TaskStatus::remove_status_str("- a  @todo\tb", &ks), "- a  @todo\tb");
    let dotted = keys(&["a.b"]);
    assert_eq!(TaskStatus::classify("- x @a.b", &dotted), TaskStatus::NoStatus);
    assert_eq!(TaskStatus::remove_status_str("- x @a.b", &dotted), "- x @a.b");
}

#[test]
fn task_from_with_keys_that_are_not_words() {
    let t = Task::from("- pay @todo #xhome @d20260407", "p", None, None, &keys(&["todo", "("]));
    assert_eq!(t.status, TaskStatus::NoStatus);
    assert_eq!(t.description, "- pay @todo ");
    assert_eq!(t.contexts, vec!["#xhome".to_string()]);
    assert_eq!(t.dates.unwrap().due, Some("20260407".to_string()));
}

#[test]
fn remove_status_collapses_space() {
    let ks = keys(&["todo"]);
    assert_eq!(TaskStatus::remove_status_str("- fix  bug @todo now", &ks), "- fix bug now");
    assert_eq!(TaskStatus::remove_status_str("- keep @waiting", &ks), "- keep @waiting");
    assert_eq!(TaskStatus::remove_status_str("a\t\t@todo\nb", &ks), "a b");
}

#[test]
fn status_text_forms() {
    assert_eq!(TaskStatus::NoStatus.to_string(), "@noStatus");
    assert_eq!(st("wip").to_string(), "@wip");
    assert_eq!(TaskStatus::from_str("@noStatus"), Ok(TaskStatus::NoStatus));
    assert_eq!(TaskStatus::from_str("NoStatus"), Ok(TaskStatus::NoStatus));
    assert_eq!(TaskStatus::from_str("@review"), Ok(st("review")));
    assert_eq!(TaskStatus::from_str("@"), Ok(st("")));
    assert_eq!(TaskStatus::from_str("todo"), Err("Not a status token: todo".to_string()));
}

#[test]
fn status_json_names() {
    assert_eq!(TaskStatus::NoStatus.json_name(), "NoStatus");
    assert_eq!(st("todo").json_name(), "todo");
    assert_eq!(TaskStatus::from_json_name("NoStatus"), TaskStatus::NoStatus);
    assert_eq!(TaskStatus::from_json_name("todo"), st("todo"));
    assert_eq!(TaskStatus::from_json_name("@wip"), st("wip"));
}

#[test]
fn status_colors() {
    let c = TaskStatus::NoStatus.to_color_str();
    assert_eq!(c.text, "@noStatus");
    assert_eq!(c.color, TermColor::Black);
    assert_eq!(st("todo").to_color_str().color, TermColor::Green);
    assert_eq!(st("review").to_color_str().color, TermColor::Yellow);
    let w = st("wip").to_color_str();
    assert_eq!(w.text, "@wip");
    assert_eq!(w.color, TermColor::Red);
}

#[test]
fn status_equality_and_copy() {
    assert!(st("a").same_as(&st("a")));
    assert!(!st("a").same_as(&st("b")));
    assert!(!st("a").same_as(&TaskStatus::NoStatus));
    assert_eq!(st("x").duplicate(), st("x"));
}

#[test]
fn valid_keys_check() {
    assert!(valid_status_keys(&keys(&["todo", "in-progress", "on_hold", "p1"])));
    assert!(!valid_status_keys(&keys(&["a.b"])));
    assert!(!valid_status_keys(&keys(&["todo", "wait ing"])));
}

#[test]
fn contexts_extracted() {
    assert_eq!(
        TaskContext::extract_contexts("call mom #xhome #xphone"),
        vec!["#xhome".to_string(), "#xphone".to_string()]
    );
    assert_eq!(TaskContext::extract_contexts("#xa#xb c"), vec!["#xa#xb".to_string()]);
    assert_eq!(TaskContext::extract_contexts("#x_ok"), vec!["#x_ok".to_string()]);
    assert_eq!(TaskContext::extract_contexts("#x alone"), Vec::<String>::new());
    assert_eq!(TaskContext::extract_contexts("#xa-b"), vec!["#xa".to_string()]);
    assert_eq!(TaskContext::extract_contexts("##xq"), vec!["#xq".to_string()]);
}

#[test]
fn contexts_removed() {
    assert_eq!(TaskContext::remove_context_string("call #xhome mom"), "call mom");
    assert_eq!(TaskContext::remove_context_string("a #xb#xc d"), "a d");
    assert_eq!(TaskContext::remove_context_string("#x kept"), "#x kept");
}

#[test]
fn dates_extracted() {
    let d = TaskDates::extract_dates("task @d20260407 @s20260401").unwrap();
    assert_eq!(d.start, Some("20260401".to_string()));
    assert_eq!(d.due, Some("20260407".to_string()));
    assert_eq!(d.visible, None);
    let b = TaskDates::extract_dates("task @b20260101 @d20261231").unwrap();
    assert_eq!(b.due, Some("20260101".to_string()));
    assert_eq!(b.visible, Some("20260101".to_string()));
    assert_eq!(b.start, None);
    let v = TaskDates::extract_dates("@v20260505").unwrap();
    assert_eq!(v.visible, Some("20260505".to_string()));
    assert_eq!(v.due, None);
}

#[test]
fn dates_absent() {
    assert_eq!(TaskDates::extract_dates("no dates"), None);
    assert_eq!(TaskDates::extract_dates("@,12345678"), None);
    assert_eq!(TaskDates::extract_dates("@d2026040"), None);
    assert_eq!(TaskDates::extract_dates("@x20260407"), None);
    assert_eq!(TaskDates::extract_dates("@d2026-04-07"), None);
}

#[test]
fn dates_first_of_each_kind() {
    let d = TaskDates::extract_dates("@s20260101 @s20270101 @d123456789").unwrap();
    assert_eq!(d.start, Some("20260101".to_string()));
    assert_eq!(d.due, Some("12345678".to_string()));
}

#[test]
fn dates_removed() {
    assert_eq!(TaskDates::remove_date("pay @d20260407 rent"), "pay rent");
    assert_eq!(TaskDates::remove_date("x @,12345678 y"), "x @,12345678 y");
    assert_eq!(TaskDates::remove_date("a\u{a0}\u{a0}b"), "a b");
}

#[test]
fn date_pattern_matches() {
    let p = TaskDates::re_date();
    assert!(p.is_match("due @d20260407"));
    assert!(!p.is_match("due @d2026"));
    assert!(!p.is_match("@,20240101"));
}

#[test]
fn task_from_line() {
    let ks = keys(&["todo"]);
    let t = Task::from(
        "- call mom @todo #xhome @d20260407",
        "proj.md",
        Some("/kb/proj.md".to_string()),
        Some(3),
        &ks,
    );
    assert_eq!(t.description, "- call mom ");
    assert_eq!(t.project, "proj.md");
    assert_eq!(t.status, st("todo"));
    assert_eq!(t.contexts, vec!["#xhome".to_string()]);
    assert_eq!(
        t.dates,
        Some(TaskDates { start: None, due: Some("20260407".to_string()), visible: None })
    );
    assert_eq!(t.file_path, Some("/kb/proj.md".to_string()));
    assert_eq!(t.line, Some(3));
    assert!(!t.has_noflags());
}

#[test]
fn task_without_flags() {
    let ks = keys(&["todo"]);
    let t = Task::from("- just a note", "p", None, None, &ks);
    assert!(t.has_noflags());
    assert_eq!(t.description, "- just a note");
    assert_eq!(t.dates, None);
}

#[test]
fn any_task_pattern() {
    let ks = keys(&["todo"]);
    let p = Task::re_any(&ks);
    assert!(p.is_match("- a #xhome"));
    assert!(p.is_match("- a @todo"));
    assert!(p.is_match("- a @s20260101"));
    assert!(p.is_match("- a #x_under"));
    assert!(!p.is_match("- a @todos"));
    assert!(!p.is_match("- a #x"));
    assert!(!p.is_match("- a @wip"));
    assert!(!p.is_match("- plain"));
}

#[test]
fn task_lines_for_display() {
    let ks = keys(&["todo"]);
    let t = Task::from("- call  #xhome #xphone", "p.md", None, None, &ks);
    assert_eq!(t.description, "- call ");
    assert_eq!(t.display_line("", ""), "- call #xhome #xphone");
    assert_eq!(t.display_line("<", ">"), "- call <#xhome> <#xphone>");
    assert_eq!(t.ctx_line("", ""), "p.md - call ");
    assert_eq!(t.ctx_line("*", "*"), "*p.md* - call ");
    let c = t.duplicate();
    assert_eq!(c, t);
}

#[test]
fn status_options() {
    let ks = keys(&["todo", "wip"]);
    assert_eq!(
        Args::parse_status_arg(&Some("todo,wip".to_string()), &ks),
        vec![st("todo"), st("wip")]
    );
    assert_eq!(
        Args::parse_status_arg(&Some("noStatus,foo".to_string()), &ks),
        vec![TaskStatus::NoStatus, TaskStatus::NoStatus]
    );
    assert_eq!(Args::parse_status_arg(&None, &ks), vec![]);
}

#[test]
fn context_options() {
    assert_eq!(
        Args::parse_context_arg(&Some("home,work".to_string())),
        vec!["#xhome".to_string(), "#xwork".to_string()]
    );
    assert_eq!(Args::parse_context_arg(&Some("".to_string())), vec!["#x".to_string()]);
    assert_eq!(
        Args::parse_context_arg(&Some("a,,b".to_string())),
        vec!["#xa".to_string(), "#x".to_string(), "#xb".to_string()]
    );
    assert_eq!(Args::parse_context_arg(&None), Vec::<String>::new());
}

fn args() -> Args {
    Args {
        dir: None,
        status: Some("todo".to_string()),
        not_status: Some("wip".to_string()),
        context: Some("home".to_string()),
        not_context: None,
        pivot: None,
        json: None,
        web: None,
    }
}

#[test]
fn args_accessors() {
    let ks = keys(&["todo", "wip"]);
    let a = args();
    assert_eq!(a.statuses(&ks), vec![st("todo")]);
    assert_eq!(a.not_statuses(&ks), vec![st("wip")]);
    assert_eq!(a.contexts(), vec!["#xhome".to_string()]);
    assert_eq!(a.not_context(), Vec::<String>::new());
    assert_eq!(a.dirs(&Some(keys(&["/a", "/b"]))), keys(&["/a", "/b"]));
    let mut b = args();
    b.dir = Some("/kb".to_string());
    assert_eq!(b.dirs(&Some(keys(&["/a"]))), keys(&["/kb"]));
    assert_eq!(args().dirs(&None), Vec::<String>::new());
}

#[test]
fn status_options_with_keys_that_are_not_words() {
    let ks = keys(&["todo", "wip", "("]);
    assert_eq!(args().statuses(&ks), vec![TaskStatus::NoStatus]);
    assert_eq!(args().not_statuses(&ks), vec![TaskStatus::NoStatus]);
}

#[test]
fn config_defaults_and_urls() {
    let c = ConfigFile::new();
    assert!(c.default_dirs.is_none() && c.inbox_path.is_none() && c.server.is_none());
    assert_eq!(c.status_keys(), Vec::<String>::new());
    let s = ServerConfig { host: "http://localhost:10084".to_string() };
    assert_eq!(s.tasks_url(), "http://localhost:10084/tasks");
}

#[test]
fn file_names() {
    assert!(is_hidden(".git"));
    assert!(!is_hidden("notes.md"));
    assert!(!is_hidden(""));
    let ig = keys(&["inbox.md", "archive.md"]);
    assert!(is_ignored("inbox.md", &ig));
    assert!(!is_ignored("todo.md", &ig));
}

#[test]
fn inbox_lines() {
    assert_eq!(inbox_line(&keys(&["buy", "milk"]), "2026-04-07"), "\n- buy milk @d2026-04-07");
    assert_eq!(inbox_line(&keys(&["call"]), "2026-01-02"), "\n- call @d2026-01-02");
    assert_eq!(inbox_line(&keys(&[]), "d"), "\n-  @dd");
}
