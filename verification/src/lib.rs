//! An incremental composition runtime.
//!
//! A tree of composables is rebuilt on every pass while the state of each node,
//! its memoized values and its pending mutations persist between passes. Every
//! node owns a [`ScopeData`], an arena of hook slots that is filled in call
//! order; handles into that arena are plain indices, and mutations are data
//! that a [`Runtime`] applies at once or replays after the pass.

pub mod composer;
pub mod context;
pub mod handle;
pub mod hooks;
pub mod laws;
pub mod memo;
pub mod pointer;
pub mod runtime;
pub mod scope;

pub use composer::{compose_child, compose_memo, compose_nested, Compose, Composer};
pub use context::ContextError;
pub use handle::{Cow, Mapped, Mut, Ref, RefMap};
pub use hooks::{
    use_callback, use_child, use_context, use_dependency, use_drop, use_memo, use_mut,
    use_provider, use_ref, use_scope,
};
pub use memo::{MemoKey, Memoize};
pub use pointer::{pointer_moved, Notice, PointerEvent};
pub use runtime::{Phase, Runtime, Update, UpdateModel, Updater};
pub use scope::{Hook, ScopeData, ScopeModel, Shape, Slot};
