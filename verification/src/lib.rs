//! Keeps the tasks of a task service in step with the events of a calendar service.
//!
//! The library holds what is decided and computed on the way: which requests are made, what
//! follows from the answers, what a task for an event looks like, and which tasks have to be
//! created or updated. Sending the requests is left to the program around it.
pub mod asana;
pub mod canon;
pub mod datetime;
pub mod error;
pub mod json;
pub mod pco;
pub mod secrets;
pub mod string_map;
pub mod text;
