//! What most users of the runtime need, in one import.

pub use crate::arena::{Owner, Root};
pub use crate::effect::Effect;
pub use crate::memo::Memo;
pub use crate::node::ReactiveError;
pub use crate::runtime::{Reactions, Runtime};
pub use crate::signal::read::ReadSignal;
pub use crate::signal::{signal, ArcRwSignal, Signal, WriteSignal};
pub use crate::untrack;
