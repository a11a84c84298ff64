//! A gateway between chat clients and language models, with tools, a memory of
//! Markdown files, and skills.
//!
//! The library holds the gateway's rules. The files that these speak of are read and
//! written around it, and so are the connections opened. From its surroundings it takes
//! two things itself: [`preamble`] asks for today's date, for which `chrono` looks at the
//! clock, at `TZ` and at the machine's time zone file, and [`ident`] draws random keys.
//!
//! - [`chain`] is the chain of providers and its configuration. [`stream`], [`prompt`]
//!   and [`light`] are the three ways in which a prompt is answered. Each is a state
//!   machine that says what is to be done next and is told what came of it. [`runs`] is
//!   what holds of whole runs of the first.
//! - [`sse`] reads the streamed replies of a provider, [`json`] and [`messages`] are
//!   the documents that are exchanged, and [`feed`] is how tool calls are shown.
//! - [`tools`] are the tools, [`memory`] the files that they work on, [`tasks`] the
//!   checkboxes in these, [`skills`] the skills that can be loaded, and [`preamble`] the
//!   system prompt that tells of them.
//! - [`api`] is the chat endpoint that the gateway offers, [`ident`] the identifiers of
//!   its replies, and [`cli`] the command line.
//! - [`text`], [`bytes`] and [`order`] are the texts that all of it is made of.
pub mod api;
pub mod bytes;
pub mod chain;
pub mod cli;
pub mod feed;
pub mod ident;
pub mod json;
pub mod light;
pub mod memory;
pub mod messages;
pub mod order;
pub mod preamble;
pub mod prompt;
pub mod runs;
pub mod skills;
pub mod sse;
pub mod stream;
pub mod tasks;
pub mod text;
pub mod tools;
