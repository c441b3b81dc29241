//! The task-line scanners compared, on many generated lines, with the same
//! token grammar written with regular expressions. A status is `@` followed
//! by a whole word of key characters that is one of the keys.
use gtd_cli::context::TaskContext;
use gtd_cli::dates::TaskDates;
use gtd_cli::status::TaskStatus;
use gtd_cli::task::Task;
use regex::Regex;

struct Lines {
    state: u64,
}

const PIECES: &[&str] = &[
    "@", "#", "x", "d", "s", "b", "v", ",", "0", "1", "9", "t", "o", "w", "i", "p", "_", "-",
    "A", " ", "  ", "\t", "\u{a0}", "\u{2003}", "\n", "é", "@todo", "@wip", "@done", "@do",
    "@noStatus", "#xab", "#xa_b", "#x_", "#x", "@d20260407", "@s20260101", "@b20261231",
    "@v20260505", "@,12345678", "@d2026", "20260407", "review", "@review", "@todos",
    "@todo-x", "@noStatusx", ".",
];

impl Lines {
    fn next_u64(&mut self) -> u64 {
        self.state = self.state.wrapping_mul(6364136223846793005).wrapping_add(1442695040888963407);
        self.state >> 33
    }

    fn line(&mut self) -> String {
        let n = (self.next_u64() % 12) as usize;
        let mut s = String::new();
        for _ in 0..n {
            let k = (self.next_u64() as usize) % PIECES.len();
            s.push_str(PIECES[k]);
        }
        s
    }
}

fn status_keys(statuses: &[String]) -> Vec<String> {
    let mut keys = statuses.to_vec();
    if !keys.contains(&"noStatus".to_string()) {
        keys.push("noStatus".to_string());
    }
    keys
}

/// `@` and the whole word of key characters after it.
fn at_word_regex() -> Regex {
    Regex::new(r"@([A-Za-z0-9_-]*)").unwrap()
}

fn remove_statuses(task: &str, keys: &[String], at_word: &Regex) -> String {
    at_word
        .replace_all(task, |c: &regex::Captures| {
            if keys.contains(&c[1].to_string()) {
                String::new()
            } else {
                c[0].to_string()
            }
        })
        .to_string()
}

fn reference_classify(task: &str, keys: &[String], at_word: &Regex) -> TaskStatus {
    at_word
        .captures_iter(task)
        .find(|c| keys.contains(&c[1].to_string()))
        .map(|c| {
            if &c[0] == "@noStatus" {
                TaskStatus::NoStatus
            } else {
                TaskStatus::Status(c[1].to_string())
            }
        })
        .unwrap_or(TaskStatus::NoStatus)
}

fn context_regex() -> Regex {
    Regex::new(r"(#x[A-Za-z0-9_]{1,})+").unwrap()
}

fn date_regex() -> Regex {
    Regex::new(r"(@[dsbv][0-9]{8})").unwrap()
}

fn reference_parse_date(dates: &Vec<String>, c: char) -> Option<String> {
    dates.iter().find(|s| s.contains(c)).cloned().map(|s| s.replace(&format!("@{}", c), ""))
}

fn reference_dates(task: &str, re: &Regex) -> Option<TaskDates> {
    let dates: Vec<String> = re.find_iter(task).map(|m| m.as_str().to_string()).collect();
    let start = reference_parse_date(&dates, 's');
    let both = reference_parse_date(&dates, 'b');
    let due = both.clone().or(reference_parse_date(&dates, 'd'));
    let visible = both.clone().or(reference_parse_date(&dates, 'v'));
    if start.is_none() && due.is_none() && visible.is_none() {
        None
    } else {
        Some(TaskDates { start, due, visible })
    }
}

fn reference_any(line: &str, statuses: &[String], any: &Regex, at_word: &Regex) -> bool {
    any.is_match(line) || at_word.captures_iter(line).any(|c| statuses.contains(&c[1].to_string()))
}

fn key_sets() -> Vec<Vec<String>> {
    let sets: Vec<Vec<&str>> = vec![
        vec!["todo", "wip", "review"],
        vec!["do", "done"],
        vec!["done", "do"],
        vec![],
        vec!["noStatus", "t"],
        vec!["", "todo"],
        vec!["A-b", "x_1"],
    ];
    sets.into_iter().map(|s| s.into_iter().map(|k| k.to_string()).collect()).collect()
}

#[test]
fn statuses_agree_with_regex() {
    let ws = Regex::new(r"\s+").unwrap();
    let at_word = at_word_regex();
    for ks in key_sets() {
        let all = status_keys(&ks);
        let mut gen = Lines { state: 7 };
        for _ in 0..800 {
            let line = gen.line();
            assert_eq!(TaskStatus::classify(&line, &ks), reference_classify(&line, &all, &at_word), "{:?} {:?}", line, ks);
            let expected = ws.replace_all(&remove_statuses(&line, &all, &at_word), " ").to_string();
            assert_eq!(TaskStatus::remove_status_str(&line, &ks), expected, "{:?} {:?}", line, ks);
        }
    }
}

#[test]
fn contexts_agree_with_regex() {
    let ctx = context_regex();
    let ws = Regex::new(r"\s+").unwrap();
    let mut gen = Lines { state: 11 };
    for _ in 0..2500 {
        let line = gen.line();
        let expected: Vec<String> = ctx.find_iter(&line).map(|m| m.as_str().to_string()).collect();
        assert_eq!(TaskContext::extract_contexts(&line), expected, "{:?}", line);
        let removed = ws.replace_all(&ctx.replace_all(&line, ""), " ").to_string();
        assert_eq!(TaskContext::remove_context_string(&line), removed, "{:?}", line);
    }
}

#[test]
fn dates_agree_with_regex() {
    let date = date_regex();
    let ws = Regex::new(r"\s+").unwrap();
    let mut gen = Lines { state: 13 };
    for _ in 0..2500 {
        let line = gen.line();
        assert_eq!(TaskDates::extract_dates(&line), reference_dates(&line, &date), "{:?}", line);
        let removed = ws.replace_all(&date.replace_all(&line, ""), " ").to_string();
        assert_eq!(TaskDates::remove_date(&line), removed, "{:?}", line);
        assert_eq!(TaskDates::re_date().is_match(&line), date.is_match(&line), "{:?}", line);
    }
}

#[test]
fn task_lines_agree_with_regex() {
    let ws = Regex::new(r"\s+").unwrap();
    let ctx = context_regex();
    let date = date_regex();
    let any = Regex::new(r"#x[A-Za-z0-9_]|@[dsbv][0-9]{8}").unwrap();
    let at_word = at_word_regex();
    for ks in key_sets() {
        let all = status_keys(&ks);
        let pattern = Task::re_any(&ks);
        let mut gen = Lines { state: 17 };
        for _ in 0..800 {
            let line = gen.line();
            assert_eq!(pattern.is_match(&line), reference_any(&line, &ks, &any, &at_word), "{:?} {:?}", line, ks);
            let t = Task::from(&line, "p.md", None, None, &ks);
            let no_status = ws.replace_all(&remove_statuses(&line, &all, &at_word), " ").to_string();
            let flagged = !t.contexts.is_empty() || t.status != TaskStatus::NoStatus || t.dates.is_some();
            if flagged {
                assert!(pattern.is_match(&line), "{:?} {:?}", line, ks);
            }
            let no_contexts = ws.replace_all(&ctx.replace_all(&no_status, ""), " ").to_string();
            let description = ws.replace_all(&date.replace_all(&no_contexts, ""), " ").to_string();
            assert_eq!(t.description, description, "{:?} {:?}", line, ks);
        }
    }
}

#[test]
fn white_space_agrees_with_regex() {
    let ws = Regex::new(r"\s+").unwrap();
    for code in 0u32..0x3100 {
        if let Some(c) = char::from_u32(code) {
            let text = format!("a{}{}b", c, c);
            let expected = ws.replace_all(&text, " ").to_string();
            assert_eq!(TaskDates::remove_date(&text), expected, "{:?}", c);
        }
    }
}
