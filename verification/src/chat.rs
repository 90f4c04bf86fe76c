//! A single chat room shared by many line-oriented connections.
//!
//! A connection is a [`session::Session`]: it negotiates a name and turns
//! the lines it reads into [`room::Event`]s.  The [`room::Room`] consumes
//! those events one at a time, in arrival order, and answers each with the
//! lines that have to be written to the members' connections.

pub mod laws;
pub mod room;
pub mod session;
pub mod text;
