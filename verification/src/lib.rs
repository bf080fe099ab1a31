//! A file lock for commands: what `flock` does, decided and proved.
//!
//! A run is a conversation. [`run::Run::begin`] begins it and [`run::Run::resume`]
//! carries it on: each returns an [`action::Action`], which the surrounding program
//! performs, and the second takes the [`action::Event`] that came of it. The library
//! opens no file, takes no lock and starts no command by itself.
//!
//! - [`run`] is the whole course of a run, in wrap mode and in descriptor mode;
//!   [`acquire`] is the part that takes the lock.
//! - [`holder`] is the sidecar, which tells waiters who holds the lock.
//! - [`paths`], [`descriptor`], [`text`], [`exit`] and [`messages`] are the values
//!   that go in and out.
//! - [`conduct`] states what a run asks for after each answer, [`laws`] what holds of
//!   every run, and [`exclusion`] what holds of many runs on one lock file.

pub mod acquire;
pub mod action;
pub mod conduct;
pub mod descriptor;
pub mod exclusion;
pub mod exit;
pub mod holder;
pub mod laws;
pub mod messages;
pub mod options;
pub mod paths;
pub mod run;
pub mod text;
