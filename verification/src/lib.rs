//! Line-oriented network services: a multi-user chat room and the smaller
//! request/response protocols that sit beside it.
//!
//! Every module holds the rules of one protocol as plain functions from
//! decoded input to the replies that are owed; sockets, tasks and channels
//! stay with the caller.

pub mod chat;
pub mod database;
pub mod means;
pub mod prime_time;
pub mod proxy;
pub mod strings;
