use gtd_cli::context::TaskContext;
use gtd_cli::dates::TaskDates;
use gtd_cli::group::{flat_tasks, group_by_status, pivot_on_context, Project};
use gtd_cli::order::sort_by_project;
use gtd_cli::select::{read_tasks, TaskFilter};
use gtd_cli::status::TaskStatus;
use gtd_cli::task::Task;

fn keys(ks: &[&str]) -> Vec<String> {
    ks.iter().map(|k| k.to_string()).collect()
}

fn st(k: &str) -> TaskStatus {
    TaskStatus::Status(k.to_string())
}

#[test]
fn status_is_always_declared() {
    let ks = keys(&["todo", "wip"]);
    for line in ["- a @todo", "- b @wip @todo", "- c @noStatus", "- d @other", "- e @todox"] {
        match TaskStatus::classify(line, &ks) {
            TaskStatus::NoStatus => {}
            TaskStatus::Status(k) => assert!(ks.contains(&k) && k != "noStatus"),
        }
    }
}

#[test]
fn status_text_reads_back() {
    for s in [TaskStatus::NoStatus, st("todo"), st(""), st("a-b")] {
        assert_eq!(TaskStatus::from_str(&s.to_string()), Ok(s.clone()));
    }
    assert_eq!(TaskStatus::from_str(&st("noStatus").to_string()), Ok(TaskStatus::NoStatus));
}

#[test]
fn json_name_reads_back() {
    for s in [TaskStatus::NoStatus, st("todo"), st("Review")] {
        assert_eq!(TaskStatus::from_json_name(&s.json_name()), s);
    }
    assert_eq!(TaskStatus::from_json_name(&st("@x").json_name()), st("x"));
}

#[test]
fn collapsed_text_is_single_spaced() {
    let once = TaskContext::remove_context_string(" a \t\u{2003} b\n\n#xq c  ");
    assert_eq!(once, " a b c ");
    assert!(!once.contains("  "));
    assert_eq!(TaskContext::remove_context_string(&once), once);
}

#[test]
fn dates_are_stamps() {
    let d = TaskDates::extract_dates("@s20260101 @b20261231 @v20260606").unwrap();
    for x in [d.start, d.due, d.visible].into_iter().flatten() {
        assert_eq!(x.len(), 8);
        assert!(x.chars().all(|c| c.is_ascii_digit()));
    }
}

#[test]
fn untokened_lines_have_no_status_or_dates() {
    let ks = keys(&["todo"]);
    let line = "- plain @wip @todos #x @d2026";
    assert!(!Task::re_any(&ks).is_match(line));
    let t = Task::from(line, "p", None, None, &ks);
    assert_eq!(t.status, TaskStatus::NoStatus);
    assert_eq!(t.dates, None);
    assert!(t.contexts.is_empty());
    let flagged = Task::from("- a #x_b", "p", None, None, &ks);
    assert_eq!(flagged.contexts, keys(&["#x_b"]));
    assert!(Task::re_any(&ks).is_match("- a #x_b"));
}

#[test]
fn groups_partition_tasks() {
    let ks = keys(&["todo", "wip"]);
    let lines = ["- a @todo", "- b @wip", "- c #xq", "- d @todo", "- e @wip", "- f @todo"];
    let ts: Vec<Task> = lines.iter().map(|l| Task::from(l, "p", None, None, &ks)).collect();
    let gs = group_by_status(&ts);
    assert_eq!(gs.len(), 3);
    for i in 0..gs.len() {
        for j in i + 1..gs.len() {
            assert_ne!(gs[i].status, gs[j].status);
        }
        assert!(gs[i].tasks.iter().all(|t| t.status == gs[i].status));
    }
    let mut regrouped: Vec<Task> = gs.iter().flat_map(|g| g.tasks.clone()).collect();
    let mut original = ts.clone();
    regrouped.sort_by(|a, b| a.description.cmp(&b.description));
    original.sort_by(|a, b| a.description.cmp(&b.description));
    assert_eq!(regrouped, original);
}

#[test]
fn ordering_is_sorted_permutation() {
    let ps = ["m", "b", "z", "b", "a", "m"];
    let ts: Vec<Task> = ps
        .iter()
        .enumerate()
        .map(|(i, p)| Task::from(&format!("t{}", i), p, None, None, &[]))
        .collect();
    let s = sort_by_project(&ts);
    assert_eq!(s.len(), ts.len());
    for w in s.windows(2) {
        assert!(w[0].project <= w[1].project);
    }
    for t in &ts {
        assert_eq!(s.iter().filter(|u| *u == t).count(), ts.iter().filter(|u| *u == t).count());
    }
}

#[test]
fn ordering_keeps_order_within_project() {
    let ps = ["m", "b", "m", "a", "b", "m"];
    let ts: Vec<Task> = ps
        .iter()
        .enumerate()
        .map(|(i, p)| Task::from(&format!("t{}", i), p, None, None, &[]))
        .collect();
    let s = sort_by_project(&ts);
    for p in ["a", "b", "m"] {
        let before: Vec<&Task> = ts.iter().filter(|t| t.project == p).collect();
        let after: Vec<&Task> = s.iter().filter(|t| t.project == p).collect();
        assert_eq!(before, after);
    }
    let order: Vec<&str> = s.iter().map(|t| t.description.as_str()).collect();
    assert_eq!(order, vec!["t3", "t1", "t4", "t0", "t2", "t5"]);
}

#[test]
fn listed_tasks_pass_filter() {
    let ks = keys(&["todo", "wip"]);
    let content = "- a @todo #xhome\n- b @wip\n- c #xhome\n- d\n- e @todo #xwork";
    let f = TaskFilter::new(vec![st("todo")], keys(&["#xhome"]), None);
    let ts = read_tasks("f.md", "/f.md", content, &ks, &f);
    assert_eq!(ts.len(), 1);
    assert!(ts.iter().all(|t| f.keeps(t)));
}

#[test]
fn gtd_tasks_carry_head_contexts_and_status() {
    let ks = keys(&["todo"]);
    let content = "- @gtd @todo #xhead\n- one #xown\n- two";
    let ts = read_tasks("g.md", "/g.md", content, &ks, &TaskFilter::new(vec![], vec![], None));
    assert_eq!(ts.len(), 2);
    for t in &ts {
        assert_eq!(t.contexts.last(), Some(&"#xhead".to_string()));
        assert_ne!(t.status, TaskStatus::NoStatus);
    }
    assert_eq!(ts[0].contexts, keys(&["#xown", "#xhead"]));
}

#[test]
fn context_groups_partition_pairs() {
    let ks = keys(&["todo"]);
    let content = "- a #xh #xw\n- b #xw\n- c @todo\n- d #xh#xq";
    let p = Project::of_file("f.md", "/f.md", content, &ks, &TaskFilter::new(vec![], vec![], None)).unwrap();
    let projects = vec![p];
    let gs = pivot_on_context(&projects);
    let names: Vec<String> = gs.iter().map(|g| g.context.clone()).collect();
    assert_eq!(names, keys(&["#xh", "#xw", "#xh#xq"]));
    let pairs: usize = flat_tasks(&projects).iter().map(|t| t.contexts.len()).sum();
    let grouped: usize = gs.iter().map(|g| g.tasks.len()).sum();
    assert_eq!(pairs, grouped);
}

#[test]
fn flagged_lines_are_the_tasks() {
    let ks = keys(&["todo"]);
    let content = "intro\n- a @todo\n- b\n* c #xhome\n- d @s20260101\n- e @other\n  - f @todo\n- g #xq";
    let ts = read_tasks("f.md", "/f.md", content, &ks, &TaskFilter::new(vec![], vec![], None));
    let names: Vec<String> = ts.iter().map(|t| t.description.clone()).collect();
    assert_eq!(names, keys(&["- a ", "* c ", "- d ", "- g "]));
    assert!(ts.iter().all(|t| t.project == "f.md" && t.file_path == Some("/f.md".to_string())));
}

#[test]
fn context_removal_leaves_no_context() {
    for line in ["#x#xa b", "##xq r", "#x #xa_b", "a#xb#xc d", "#xa\t#xb", "# x#xq#x_"] {
        let once = TaskContext::remove_context_string(line);
        assert!(TaskContext::extract_contexts(&once).is_empty(), "{:?}", line);
        assert_eq!(TaskContext::remove_context_string(&once), once);
    }
}
