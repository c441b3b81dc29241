//! Verified core of a Markdown-based GTD (Getting Things Done) task system:
//! the grammar of task lines, task construction, and the rules that select,
//! group and order tasks.
pub mod text;
pub mod pattern;
pub mod status;
pub mod context;
pub mod dates;
pub mod task;
pub mod select;
pub mod order;
pub mod group;
pub mod cli;
pub mod board;
