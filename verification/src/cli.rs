//! The settings of the command-line tools: the parsing of the status and
//! context options, the configuration file's contents, which files and
//! directories are read, and the line that the inbox tool appends.
use vstd::prelude::*;
use crate::select::statuses_view;
use crate::status::{TaskStatus, classify_spec};
use crate::text::{chars_of, split_chars, split_on, strings_view};

verus! {

/// The options of the command-line tool.
pub struct Args {
    /// Root directory of the knowledge base.
    pub dir: Option<String>,
    /// Statuses to list, separated by commas.
    pub status: Option<String>,
    /// Statuses not to list, separated by commas.
    pub not_status: Option<String>,
    /// Contexts to list, separated by commas.
    pub context: Option<String>,
    /// Contexts not to list, separated by commas.
    pub not_context: Option<String>,
    /// Also list the tasks by context.
    pub pivot: Option<bool>,
    /// Print the tasks as JSON.
    pub json: Option<bool>,
    /// Send the tasks to the server.
    pub web: Option<bool>,
}

/// The statuses named by the pieces of a comma-separated option: each piece
/// read as the task text `@piece`.
pub open spec fn status_arg_spec(pieces: Seq<Seq<char>>, statuses: Seq<Seq<char>>) -> Seq<Option<Seq<char>>> {
    pieces.map_values(|p: Seq<char>| classify_spec(seq!['@'] + p, statuses))
}

/// The contexts named by the pieces of a comma-separated option: `#x` before
/// each piece.
pub open spec fn context_arg_spec(pieces: Seq<Seq<char>>) -> Seq<Seq<char>> {
    pieces.map_values(|p: Seq<char>| seq!['#', 'x'] + p)
}

impl Args {
    /// The statuses named by a comma-separated option (none when it is
    /// absent).
    pub fn parse_status_arg(status: &Option<String>, statuses: &[String]) -> (r: Vec<TaskStatus>)
        ensures
            match status {
                None => r@.len() == 0,
                Some(s) => statuses_view(r@) == status_arg_spec(
                    split_on(s@, ','),
                    strings_view(statuses@),
                ),
            },
    {
        match status {
            None => Vec::new(),
            Some(s) => {
                let pieces = split_chars(s.as_str(), ',');
                let ghost want = status_arg_spec(strings_view(pieces@), strings_view(statuses@));
                let mut r: Vec<TaskStatus> = Vec::new();
                let mut i: usize = 0;
                while i < pieces.len()
                    invariant
                        i <= pieces.len(),
                        want == status_arg_spec(strings_view(pieces@), strings_view(statuses@)),
                        statuses_view(r@) == want.take(i as int),
                    decreases pieces.len() - i,
                {
                    let mut text = String::from_str("@");
                    proof {
                        reveal_strlit("@");
                    }
                    text.append(pieces[i].as_str());
                    assert(text@ =~= seq!['@'] + pieces@[i as int]@);
                    let st = TaskStatus::classify(text.as_str(), statuses);
                    let ghost before = r@;
                    r.push(st);
                    assert(statuses_view(r@) =~= statuses_view(before).push(st@));
                    assert(want.take(i + 1) =~= want.take(i as int).push(want[i as int]));
                    i = i + 1;
                }
                assert(want.take(i as int) =~= want);
                r
            },
        }
    }

    /// The statuses to list.
    pub fn statuses(&self, keys: &[String]) -> (r: Vec<TaskStatus>)
        ensures
            match self.status {
                None => r@.len() == 0,
                Some(s) => statuses_view(r@) == status_arg_spec(
                    split_on(s@, ','),
                    strings_view(keys@),
                ),
            },
    {
        Args::parse_status_arg(&self.status, keys)
    }

    /// The statuses not to list.
    pub fn not_statuses(&self, keys: &[String]) -> (r: Vec<TaskStatus>)
        ensures
            match self.not_status {
                None => r@.len() == 0,
                Some(s) => statuses_view(r@) == status_arg_spec(
                    split_on(s@, ','),
                    strings_view(keys@),
                ),
            },
    {
        Args::parse_status_arg(&self.not_status, keys)
    }

    /// The contexts named by a comma-separated option (none when it is
    /// absent).
    pub fn parse_context_arg(context: &Option<String>) -> (r: Vec<String>)
        ensures
            match context {
                None => r@.len() == 0,
                Some(s) => strings_view(r@) == context_arg_spec(split_on(s@, ',')),
            },
    {
        match context {
            None => Vec::new(),
            Some(s) => {
                let pieces = split_chars(s.as_str(), ',');
                let ghost want = context_arg_spec(strings_view(pieces@));
                let mut r: Vec<String> = Vec::new();
                let mut i: usize = 0;
                while i < pieces.len()
                    invariant
                        i <= pieces.len(),
                        want == context_arg_spec(strings_view(pieces@)),
                        strings_view(r@) == want.take(i as int),
                    decreases pieces.len() - i,
                {
                    let mut text = String::from_str("#x");
                    proof {
                        reveal_strlit("#x");
                    }
                    text.append(pieces[i].as_str());
                    assert(text@ =~= seq!['#', 'x'] + pieces@[i as int]@);
                    let ghost before = r@;
                    r.push(text);
                    assert(strings_view(r@) =~= strings_view(before).push(text@));
                    assert(want.take(i + 1) =~= want.take(i as int).push(want[i as int]));
                    i = i + 1;
                }
                assert(want.take(i as int) =~= want);
                r
            },
        }
    }

    /// The contexts to list.
    pub fn contexts(&self) -> (r: Vec<String>)
        ensures
            match self.context {
                None => r@.len() == 0,
                Some(s) => strings_view(r@) == context_arg_spec(split_on(s@, ',')),
            },
    {
        Args::parse_context_arg(&self.context)
    }

    /// The contexts not to list.
    pub fn not_context(&self) -> (r: Vec<String>)
        ensures
            match self.not_context {
                None => r@.len() == 0,
                Some(s) => strings_view(r@) == context_arg_spec(split_on(s@, ',')),
            },
    {
        Args::parse_context_arg(&self.not_context)
    }

    /// The directories to read: the one given as an option, or else those of
    /// the configuration (none when neither is given).
    pub fn dirs(&self, default_dirs: &Option<Vec<String>>) -> (r: Vec<String>)
        ensures
            match self.dir {
                Some(d) => strings_view(r@) == seq![d@],
                None => match default_dirs {
                    Some(ds) => strings_view(r@) == strings_view(ds@),
                    None => r@.len() == 0,
                },
            },
    {
        match &self.dir {
            Some(d) => {
                let mut r: Vec<String> = Vec::new();
                r.push(d.clone());
                assert(strings_view(r@) =~= seq![d@]);
                r
            },
            None => match default_dirs {
                Some(ds) => {
                    let r = ds.clone();
                    assert(strings_view(r@) =~= strings_view(ds@));
                    r
                },
                None => Vec::new(),
            },
        }
    }
}

/// Where the server is.
pub struct ServerConfig {
    pub host: String,
}

impl ServerConfig {
    /// The address to which the tasks are sent: the host followed by
    /// `/tasks`.
    pub fn tasks_url(&self) -> (r: String)
        ensures
            r@ == self.host@ + "/tasks"@,
    {
        let mut r = self.host.clone();
        r.append("/tasks");
        r
    }
}

/// The contents of the configuration file.
pub struct ConfigFile {
    pub default_dirs: Option<Vec<String>>,
    pub inbox_path: Option<String>,
    pub ignore_files: Option<Vec<String>>,
    pub default_not_context: Option<Vec<String>>,
    /// The status keys (without `@`) that task lines may carry, e.g. `todo`,
    /// `wip`, `review`; every other `@word` stays in the description.
    pub statuses: Option<Vec<String>>,
    pub server: Option<ServerConfig>,
    /// Files (any path containing one of these names) whose task lines are
    /// all listed, unfiltered.
    pub always_files: Option<Vec<String>>,
}

impl ConfigFile {
    /// The configuration used when there is no configuration file: nothing set.
    pub fn new() -> (c: ConfigFile)
        ensures
            c.default_dirs is None,
            c.inbox_path is None,
            c.ignore_files is None,
            c.default_not_context is None,
            c.statuses is None,
            c.server is None,
            c.always_files is None,
    {
        ConfigFile {
            default_dirs: None,
            inbox_path: None,
            ignore_files: None,
            default_not_context: None,
            statuses: None,
            server: None,
            always_files: None,
        }
    }

    /// The declared status keys (none when the configuration declares none).
    pub fn status_keys(&self) -> (r: Vec<String>)
        ensures
            match self.statuses {
                Some(s) => strings_view(r@) == strings_view(s@),
                None => r@.len() == 0,
            },
    {
        match &self.statuses {
            Some(s) => {
                let r = s.clone();
                assert(strings_view(r@) =~= strings_view(s@));
                r
            },
            None => Vec::new(),
        }
    }
}

/// A hidden file or directory: its name starts with `.`.
pub fn is_hidden(name: &str) -> (r: bool)
    ensures
        r == (name@.len() > 0 && name@[0] == '.'),
{
    let v = chars_of(name);
    v.len() > 0 && v[0] == '.'
}

/// Whether the file name is one of those to ignore.
pub fn is_ignored(name: &str, ignore_files: &Vec<String>) -> (r: bool)
    ensures
        r == strings_view(ignore_files@).contains(name@),
{
    crate::select::contains_string(ignore_files, &String::from_str(name))
}

/// The words joined by single spaces.
pub open spec fn join_words(words: Seq<Seq<char>>) -> Seq<char>
    decreases words.len(),
{
    if words.len() == 0 {
        Seq::empty()
    } else if words.len() == 1 {
        words[0]
    } else {
        join_words(words.drop_last()) + seq![' '] + words.last()
    }
}

/// The total length of the words.
pub open spec fn total_len(words: Seq<Seq<char>>) -> nat
    decreases words.len(),
{
    if words.len() == 0 {
        0
    } else {
        total_len(words.drop_last()) + words.last().len()
    }
}

/// Adding a word to a message adds one space and the word: the message of
/// `words` followed by `w` is the message of `words`, a space, and `w`.
pub proof fn law_join_words_push(words: Seq<Seq<char>>, w: Seq<char>)
    requires
        words.len() > 0,
    ensures
        join_words(words.push(w)) == join_words(words) + seq![' '] + w,
{
    assert(words.push(w).drop_last() =~= words);
}

/// Joining two non-empty lists of words puts exactly one space between the
/// two messages.
pub proof fn law_join_words_concat(a: Seq<Seq<char>>, b: Seq<Seq<char>>)
    requires
        a.len() > 0,
        b.len() > 0,
    ensures
        join_words(a + b) == join_words(a) + seq![' '] + join_words(b),
    decreases b.len(),
{
    if b.len() == 1 {
        assert((a + b).drop_last() =~= a);
        assert(b[0] == b.last());
    } else {
        let b1 = b.drop_last();
        law_join_words_concat(a, b1);
        assert((a + b).drop_last() =~= a + b1);
        assert((a + b).last() == b.last());
        assert(join_words(a + b) =~= join_words(a) + seq![' '] + join_words(b));
    }
}

/// A message of `n` words holds the words and `n - 1` spaces, no more and no
/// fewer: its length is the total length of the words plus `n - 1`.
pub proof fn law_join_words_len(words: Seq<Seq<char>>)
    requires
        words.len() > 0,
    ensures
        join_words(words).len() == total_len(words) + words.len() - 1,
    decreases words.len(),
{
    if words.len() > 1 {
        law_join_words_len(words.drop_last());
    } else {
        assert(words[0] == words.last());
        assert(total_len(words.drop_last()) == 0);
    }
}

/// The line that the inbox tool appends to the inbox file: a new line with
/// the message (its words joined by spaces) as a task due `today`.
pub fn inbox_line(message: &[String], today: &str) -> (r: String)
    ensures
        r@ == "\n- "@ + join_words(strings_view(message@)) + " @d"@ + today@,
{
    let mut words = String::new();
    let mut i: usize = 0;
    assert(strings_view(message@).take(0) =~= Seq::<Seq<char>>::empty());
    while i < message.len()
        invariant
            i <= message@.len(),
            words@ == join_words(strings_view(message@).take(i as int)),
        decreases message@.len() - i,
    {
        let ghost ws = strings_view(message@);
        assert(ws.take(i + 1).drop_last() =~= ws.take(i as int));
        assert(ws.take(i + 1).last() == message@[i as int]@);
        if i > 0 {
            words.append(" ");
            proof {
                reveal_strlit(" ");
            }
        } else {
            assert(ws.take(1) =~= seq![ws[0]]);
        }
        words.append(message[i].as_str());
        i = i + 1;
    }
    assert(strings_view(message@).take(i as int) =~= strings_view(message@));
    let mut r = String::from_str("\n- ");
    r.append(words.as_str());
    r.append(" @d");
    r.append(today);
    r
}

} // verus!
