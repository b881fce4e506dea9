//! EffectFence: a causal fence around the side effects of tool calls.
//!
//! When more than one agent, or a retry, or a re-dispatch can end up running the
//! same side-effecting operation, the fence admits one attempt and tells the
//! others what came of it.
//!
//! - [`fence`] is the fence itself. [`model`] says what it is and what each
//!   operation does to it, and [`fence_laws`] what follows: that an action
//!   executes at most once, that sequence numbers are handed out once each.
//! - [`cert`] holds requests, tickets and certificates, [`clock`] vector clocks,
//!   [`pqc`] signatures over certificates.
//! - [`wrap`] puts a fence in front of a server that has none, [`probe`] finds
//!   out whether a server needs one, [`demo`] shows both, [`server`] is what
//!   agents call, and [`cli`] the command line.
//! - The modules that end in `_laws` prove what the operations are for, in terms
//!   of what goes in and what comes out: [`operation_laws`] of the fence's
//!   operations one by one, [`server_laws`] and [`report_laws`] of what can be read
//!   from replies and reports, [`text_laws`] and [`value_laws`] of texts and values,
//!   [`view_laws`] of what the values that callers handle stand for.
//! - [`json`], [`strmap`], [`order`], [`text`], [`hex`] and [`sha`] are what the
//!   others are built of.

pub mod order;
pub mod strmap;
pub mod text;
pub mod text_laws;
pub mod hex;
pub mod json;
pub mod json_laws;
pub mod sha;
pub mod clock;
pub mod clock_laws;
pub mod value_laws;
pub mod cert;
pub mod cert_laws;
pub mod model;
pub mod fence;
pub mod fence_laws;
pub mod operation_laws;
pub mod pqc;
pub mod wrap;
pub mod wrap_laws;
pub mod probe;
pub mod probe_laws;
pub mod report_laws;
pub mod server;
pub mod server_laws;
pub mod cli;
pub mod demo;
pub mod demo_laws;
pub mod cli_laws;
pub mod view_laws;
