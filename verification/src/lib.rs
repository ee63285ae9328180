//! A front end for curl that downloads files with sane defaults.
//!
//! The library turns a command line into the arguments for one run of curl.
//! [`Args::parse`] reads the command line, [`Wcurl::get_curl_features`]
//! reads what the installed curl supports from its version report, and
//! [`Wcurl::command_plan`] assembles the arguments. [`Wcurl::run`] ties them
//! together: it tells the caller what to do next outside the program and
//! takes what came of it.
//!
//! Every function is pure: none reads the environment, prints or ends
//! the process.

pub mod args;
pub mod command;
pub mod exit;
pub mod features;
pub mod filename;
pub mod percent;
pub mod text;
pub mod usage;

pub use args::{Args, WordKind};
pub use command::{Action, Event, Wcurl};
pub use exit::Exit;
pub use features::CurlFeatures;
pub use usage::{get_usage, USAGE};
