//! A verified core of a Chrome DevTools Protocol automation library.

use vstd::prelude::*;

pub mod accessibility;
pub mod api;
pub mod call_order;
pub mod codegen;
pub mod config;
pub mod context;
pub mod dep;
pub mod discovery;
pub mod dispatch;
pub mod dom;
pub mod error;
pub mod evaluate;
pub mod event_bus;
pub mod frame_tree;
pub mod generator;
pub mod input;
pub mod keyed;
pub mod handler;
pub mod har;
pub mod launch;
pub mod naming;
pub mod num;
pub mod options;
pub mod page;
pub mod page_setup;
pub mod pdl;
pub mod pdl_render;
pub mod recorder;
pub mod resolver;
pub mod session;
pub mod text;
pub mod types;

verus! {

} // verus!
