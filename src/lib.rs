//! Compact binary codec for geometric drawing entities, and the framing that
//! streams one drawing's entities as a bounded batch of messages.
use vstd::prelude::*;

pub mod wire;
pub mod entity;
pub mod convert;
pub mod stream;
