//! A small command-line switch parsing library.
//!
//! A program declares a set of named switches, each spelled as a short
//! single-character form (`-p`), a long double-dash form (`--threads`), or
//! both, and each bound to a typed value handler: integer, size with unit
//! suffix, free string, enumerated string, or boolean presence flag.
//! [`args::Arguments::build`] then scans a raw token list left to right,
//! routes each switch occurrence to its handler, and collects the remaining
//! tokens as positional arguments, optionally checking their count against a
//! declared name list.
//!
//! Handlers live in a table owned by the caller; a [`switch::Switch`] refers
//! to its handler by index into that table, so several switches may
//! deliberately share one handler.

pub mod args;
pub mod handlers;
pub mod numtext;
pub mod scan;
mod strutil;
pub mod switch;
