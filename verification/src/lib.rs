//! # radicle-context-cob
//!
//! A collaborative object type for storing AI session context: observation
//! records from development sessions — what was tried, what was learned,
//! what constraints exist, and what went wrong.
//!
//! The library holds the state of a context, the actions that change it,
//! the rules on who may apply them, and the text renderings of a context.

pub mod actions;
pub mod cob;
pub mod ids;
pub mod laws;
pub mod order;
pub mod render;
pub mod sorted_set;
pub mod state;

pub use actions::{Action, Embed};
pub use cob::{Authorization, Doc, Error, Op, OpView};
pub use ids::{ActorId, Author, ContextId, ObjectId, PublicKey, Timestamp};
pub use sorted_set::SortedSet;
pub use state::{CodeLearning, Context, LearningsSummary, VerificationResult};

use vstd::prelude::*;

verus! {

/// Type name of a context collaborative object.
pub const TYPENAME: &'static str = "me.hdh.context";

} // verus!
