//! Kiosk: a Git-aware tmux session manager. This library holds its logic:
//! parsing git's worktree listings, naming sessions, the worktree browser's
//! state machine with fuzzy search, the terminal interface's repository and
//! branch browser (its actions and background events), ranking and grouping of search results,
//! the help overlay's layout and scrolling, list rows (the branch picker's
//! among them) and dialog geometry,
//! the setup prompt and path completion, the text formatting of the
//! command-line interface, and the README generator's text transformations.
pub mod text;
pub mod order;
pub mod paths;
pub mod git;
pub mod matching;
pub mod tmux;
pub mod ui;
pub mod search_bar;
pub mod list_state;
pub mod layout;
pub mod path_input;
pub mod cli;
pub mod cli_steps;
pub mod commands;
pub mod config;
pub mod logging;
pub mod readme;
pub mod help_view;
pub mod list_row;
pub mod branch_rows;
pub mod search_filter;
pub mod setup_prompt;
pub mod browser;
