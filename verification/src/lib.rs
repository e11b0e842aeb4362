//! A verified core for a static-asset HTTP serving engine.
//!
//! For each incoming request the pipeline resolves a filesystem path
//! (host- and rule-dependent), decides how to satisfy it (file,
//! directory listing, rewrite, redirect, or error page), negotiates the
//! response encoding, and attaches operational headers.  The whole
//! decision is the pure function [`handler::handle`], pinned to its
//! spec-level mirror: it takes the request, an immutable configuration
//! snapshot, and a value describing the filesystem contents, and returns
//! the response.  The surrounding program does the I/O: it parses
//! requests, probes the directories below the configured roots, streams
//! bodies (running the on-the-fly encoder when the response asks for
//! one), and writes the access-log records.

pub mod auth;
pub mod bytes;
pub mod compose;
pub mod config;
pub mod fs;
pub mod glob;
pub mod handler;
pub mod listing;
pub mod msg;
pub mod negotiate;
pub mod resolve;
pub mod rules;
