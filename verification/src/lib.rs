//! Answering questions about a corpus that is never put in a prompt.
//!
//! The corpus is held as a variable. A planner works over an outline of it and
//! reaches the text through operators that summarise before they return: it
//! looks with `outline`, `peek` and `grep`, has a cheap model read chunks with
//! `map`, and gives a sub-question a plan of its own with `recurse`. What the
//! planner is shown does not grow with the corpus.
//!
//! - [`chunk`], [`context`]: documents cut into numbered chunks, the coordinate
//!   system of everything else.
//! - [`ops`], [`observe`], [`pattern`]: the operators, and the bound on what any
//!   of them shows.
//! - [`engine`], [`working`], [`prompts`], [`fold`], [`trace`], [`budget`]: the
//!   planning loop as a function from state and event to state and action, what
//!   it keeps, what it says, and what it leaves behind.
//! - [`run_laws`]: what holds of every run.
//! - [`host`]: the quota of a query, the request for a completion, and what a
//!   reply means.
//! - [`roots`]: the boundary of what may be read, and the walk within it.
//! - [`store`], [`shelf`], [`order`]: what is held, by id, and in which order it
//!   is listed.
//! - [`api`], [`mcp`], [`auth`]: the replies of the two surfaces, as values.
//! - [`json`], [`text`], [`stamp`]: values, characters, ids and times.

pub mod api;
pub mod auth;
pub mod budget;
pub mod chunk;
pub mod context;
pub mod engine;
pub mod fold;
pub mod host;
pub mod json;
pub mod mcp;
pub mod observe;
pub mod ops;
pub mod order;
pub mod pattern;
pub mod prompts;
pub mod roots;
pub mod run_laws;
pub mod shelf;
pub mod stamp;
pub mod store;
pub mod text;
pub mod trace;
pub mod working;
