//! The logic of a git remote helper for `igit://` remotes.
//!
//! A remote names a repository that is kept on a canister. The helper resolves the name,
//! brings a local copy up to date, lets git serve it, and uploads what was pushed. Two
//! programs share this library: the helper that git runs, and the bridge that synchronizes
//! packs.
//!
//! Everything that talks to the outside is a state machine here: [`session`] for the helper,
//! [`upload`], [`materialize`] and [`browse`] for the bridge, [`snapshot`] for what it knows of
//! the repository beforehand, and [`agent`] for setting up the agent that calls the
//! canister. A machine takes an event and gives the next action; the programs perform the
//! actions.
//!
//! What holds of every run is stated in laws of their own. [`push_laws`] and [`pull_laws`]
//! follow a push and a pull from the first action to the last, with a canister and a git that
//! answer; [`pack_laws`], [`browse_laws`] and [`publish_laws`] do so for the parts of a push,
//! and [`session_laws`] for the helper. [`upload_laws`], [`materialize_laws`] and
//! [`failure_laws`] say what holds whatever is answered. [`reading_laws`], [`document_laws`] and
//! [`command_laws`] are about what is read and what is told, in the words of [`wording`].
//!
//! The formats that travel are read and written in [`refs`], [`objects`], [`pack`],
//! [`download`], [`candid`], [`json`] and [`transport`]. Exported keys are loaded in [`key`],
//! and [`candid_scan`] tells apart the texts that the parser of Candid cannot be given.
pub mod action;
pub mod agent;
pub mod browse;
pub mod browse_laws;
pub mod candid;
pub mod candid_scan;
pub mod chunk;
pub mod command_laws;
pub mod document_laws;
pub mod download;
pub mod failure_laws;
pub mod helper;
pub mod idl;
pub mod json;
pub mod key;
pub mod materialize;
pub mod materialize_laws;
pub mod objects;
pub mod operation;
pub mod operation_laws;
pub mod order;
pub mod pack;
pub mod pack_laws;
pub mod pack_upload;
pub mod publish;
pub mod publish_laws;
pub mod pull_laws;
pub mod push_laws;
pub mod reading_laws;
pub mod refs;
pub mod remote;
pub mod session;
pub mod session_laws;
pub mod snapshot;
pub mod talk;
pub mod text;
pub mod transport;
pub mod upload;
pub mod upload_laws;
pub mod wording;
