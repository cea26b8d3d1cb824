//! A greetd client's logic, for the login screen run as the greeter.
//!
//! greetd speaks a four-message protocol over the unix socket it names
//! in `$GREETD_SOCK`: `create_session` for a user, then a round of
//! `auth_message` / `post_auth_message_response` until it says
//! `success`, then `start_session` with the command to hand the seat
//! to, and `cancel_session` on the way out of anything that went
//! wrong. Each message is a JSON object behind a `u32` length.
//!
//! Everything here is a function of the bytes and replies it is handed:
//! [`json`] is the whole of the reader and writer the protocol needs,
//! [`secret`] holds the password, and [`session`] decides what to send
//! next. Opening the socket and moving the bytes is the program's job.

pub mod json;
pub mod json_laws;
pub mod json_spec;
pub mod secret;
pub mod session;
pub mod session_laws;

pub use json::{quote, read_object, Object};
pub use secret::Secret;
