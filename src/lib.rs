//! Turn coordination engine: the streaming proposed-plan segmenter, the
//! pending-interaction ledger and the task registry of an active turn,
//! together with the smaller pieces of logic around a turn: the todo-list
//! tool arguments, the environment context message, multiplexer pane
//! commands, skills path matching and the sandbox helper's command line.

pub mod text;
pub mod plan_parser;
pub mod keyed_map;
pub mod protocol;
pub mod turn;
pub mod active_turn;
pub mod todo_tool;
pub mod plan_tool;
pub mod todo_handler;
pub mod environment_context;
pub mod terminal_multiplexer;
pub mod skills_watcher;
pub mod linux_sandbox;
