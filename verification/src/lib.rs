//! A small single-admin weblog engine.
//!
//! The heart of the crate is the stateless, encrypted-cookie session
//! subsystem in [`auth`]: logging in encrypts today's date under a key
//! derived from the admin password, and a request is authenticated
//! exactly when its cookie decrypts to a date at most two weeks old.
use vstd::prelude::*;

pub mod auth;
pub mod blogroll;
pub mod codec;
pub mod cookie;
pub mod data;
pub mod date;
pub mod discovery;
pub mod health;
pub mod html;
pub mod md;
pub mod rss;
pub mod search;
pub mod serve;
pub mod settings;
pub mod text;

verus! {

/// Command-line configuration of the server.
///
/// The admin password is optional: without one the site runs read-only and
/// every authentication check fails closed.
#[derive(Clone, Debug)]
pub struct ServeArgs {
    pub production: bool,
    pub port: u16,
    pub database_path: String,
    pub username: String,
    pub password: Option<String>,
    pub domain: String,
    pub html_lang: String,
    pub extra_head: String,
}

} // verus!
