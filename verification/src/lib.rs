//! A small HTTP server toolkit, verified: the text of a request is read
//! into a request, the request is matched against the routes, the global
//! units, the guards of the route and its handler run in their order, and
//! the response is written out as text.

use crate::aplication::App;
use crate::config::Config;
use crate::context::TypeKey;
use vstd::prelude::*;

pub mod aplication;
pub mod assoc;
pub mod config;
pub mod context;
pub mod fairing;
pub mod guard;
pub mod handler;
pub mod pipeline;
pub mod request;
pub mod responder;
pub mod response;
pub mod router;
pub mod status;
pub mod text;
pub mod textmap;
pub mod wire;

verus! {

/// An application without routes, units or state.
pub fn server<S, F, G, H>() -> (app: App<S, F, G, H>)
    ensures
        app.routes@.len() == 0,
        app.fairings@.len() == 0,
        app.context@ == Map::<TypeKey, S>::empty(),
        app.context.wf(),
        app.config == Config::defaults(),
{
    App::new()
}

} // verus!
