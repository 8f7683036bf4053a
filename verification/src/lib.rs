//! Composition of independently written route modules into one web service.
//!
//! A [`WebBackendBuilder`] collects the modules, their shared context and the network
//! settings. Building it yields a [`Backend`]: the modules beside their [`Lifecycle`], the
//! fixed startup sequence as a state machine that names the next step and takes its outcome.
//! Whoever owns the server performs the steps of the server; the hooks of the modules are
//! called from here, phase by phase, and every decision about order, failure and termination
//! is taken here.
//!
//! The template helpers that every service offers to its templates are plain functions on
//! [`Value`].

pub mod backend;
pub mod builder;
pub mod builtin;
pub mod context;
pub mod error;
pub mod lifecycle;
pub mod order;
pub mod text;
pub mod value;

pub use backend::Backend;
pub use builder::{BindAddress, ServerConfig, WebBackendBuilder};
pub use builtin::{add_builtin, Builtin, ExtensionKind};
pub use error::TemplateError;
pub use lifecycle::{Lifecycle, LiftoffFailure, Stage, Step};
pub use value::{Member, Value};
