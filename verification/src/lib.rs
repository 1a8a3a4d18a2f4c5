//! The library of `fleet-top`: the state of dozens of git repositories on one
//! screen. It receives what `git` and `gh` wrote, today's date and the command
//! line as values, and returns the table and the decisions of a run.

// Text, numbers and dates.
pub mod text;
pub mod day;

// Reading `git status --porcelain=v2 --branch`.
pub mod head;
pub mod divergence;
pub mod porcelain_error_kind;
pub mod porcelain_error;
pub mod porcelain_line;
pub mod local_state;

// Reading JSON.
pub mod json_error_kind;
pub mod json_error;
pub mod json_number;
pub mod json_value;
pub mod json_parser;

// GitHub's side.
pub mod ci_state;
pub mod freshness;
pub mod remote_branch;
pub mod stale_count;
pub mod branch_list;
pub mod remote_error;
pub mod remote_state;
pub mod github_slug;
pub mod graphql;

// The table.
pub mod local_report;
pub mod remote_report;
pub mod row;
pub mod table;

// The command line.
pub mod argument;
pub mod github_access;
pub mod usage_error;
pub mod options;
pub mod invocation;
pub mod cli;
pub mod help;

// A run.
pub mod outcome;
pub mod tally;
pub mod target;
pub mod chunk_outcome;
pub mod local_finding;
pub mod reason;
pub mod github;
pub mod local;
pub mod run;
