//! Streaming, validation and XML (de)serialization of XES event logs.
//!
//! A log is exchanged as a sequence of typed elements, one at a time: a
//! [`stream::Stream`] is pulled, a [`stream::StreamSink`] is pushed into, and
//! decorators such as [`stream::Observer`] stand between the two.

use vstd::prelude::*;

pub mod date;
pub mod error;
pub mod model;
pub mod stream;
pub mod text;

pub use crate::error::Error;
pub use crate::model::{
    Attribute, AttributeType, Classifier, DateTime, Event, Extension, Global, Log, Scope, Trace,
};

verus! {

/// The version of this library, as written into serialized logs.
pub const VERSION: &'static str = "0.1.0";

} // verus!
