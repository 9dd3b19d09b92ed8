//! Repository state synchronisation and branch-ownership caching for a fleet
//! of local checkouts.
//!
//! The library holds the rules; reading repositories, the clock and the
//! environment, and writing to disk, is the caller's part. The caller hands
//! in what it read as plain values and gets plain values back.
//!
//! * [`identity`]: the alias table that maps the spellings of an author to
//!   one canonical name.
//! * [`walker`]: commits per canonical author over what a walk visited.
//! * [`ownership`]: the owner label of a branch.
//! * [`engine`]: which cached branches a pass computes anew, and how the
//!   results are folded into the cached state.
//! * [`pass`]: one pass over one repository, from the cached state to the
//!   saved one.
//! * [`repair`]: which damaged files of a repository are to be deleted.
//! * [`cache`]: the cached states, one per repository name.
//! * [`state`], [`survey`], [`authors`], [`status`]: the data of a
//!   repository and what is derived from it for display.
//! * [`config`], [`tags`], [`tasks`], [`script`], [`vars`], [`remote`]: the
//!   project's configuration and the tasks that run in its repositories.
//! * [`text`], [`textmap`], [`order`], [`recency`], [`timefmt`],
//!   [`icons`]: texts, ordered maps, stable ordering and console output.

pub mod authors;
pub mod cache;
pub mod config;
pub mod engine;
pub mod icons;
pub mod identity;
pub mod order;
pub mod ownership;
pub mod pass;
pub mod recency;
pub mod remote;
pub mod repair;
pub mod script;
pub mod state;
pub mod status;
pub mod survey;
pub mod tags;
pub mod tasks;
pub mod text;
pub mod textmap;
pub mod timefmt;
pub mod vars;
pub mod walker;
