# gtd-cli

A GTD ("Getting Things Done") system on top of a Markdown knowledge base. Any
bullet line (`- ` or `* `) of a file is a potential task, and the file is its
project. A bullet becomes a task when it carries a status (`@todo`, `@wip`, …,
from the keys declared in `~/.gtd.toml`), a context (`#xhome`) or a date
(`@d20260407` due, `@s…` start, `@v…` visible from, `@b…` due and visible).
A file whose first bullet starts with `- @gtd` is a project whose other bullets
all take that first bullet's status, dates and contexts.

## Layout

- `src/` — the verified library (Verus):
  - `text.rs`: white space, collapsing, lines, splitting, string helpers;
  - `pattern.rs`: the token grammar of task lines and its scanners;
  - `status.rs`, `context.rs`, `dates.rs`: statuses, contexts, dates;
  - `task.rs`: a task line read into a task;
  - `select.rs`: the task lines of a file, the filter, `- @gtd` files;
  - `group.rs`: projects grouped by status, all tasks, tasks by context;
  - `order.rs`: ordering tasks by project;
  - `board.rs`: the tasks kept by the server;
  - `cli.rs`: options, configuration contents, file names, inbox lines.
- `tests/` — tests of the library.
- `app/` — the programs: the lister (default), `inbox`, `serve` (task server
  with update notices on `/ws`) and `serve-list` (plain task store). The
  program is picked by the first argument, or by the executable's name
  (`gtd-inbox`, `gtd-server`, `server`).
