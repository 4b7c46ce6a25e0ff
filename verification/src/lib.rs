//! Journaloo: a travel-journaling backend core.
//!
//! Users sign up, authenticate with signed tokens, and manage journeys
//! (trips) containing entries (dated notes with optional location and an
//! attached image). The relational store, the request handlers and the
//! authentication rules live here, each with a verified contract; process
//! bootstrapping, HTTP transport, outbound email and the object store are
//! left to the surrounding application.

use vstd::prelude::*;

pub mod auth;
pub mod db;
pub mod endpoints;
pub mod timefmt;

verus! {

/// Greeting served at the root route.
pub fn index() -> (r: &'static str)
    ensures
        r@ == "Hello, world!"@,
{
    "Hello, world!"
}

} // verus!

