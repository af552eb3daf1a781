//! Verified core of a desktop browser for Apache ZooKeeper: the znode tree
//! model, paths, search and the walks of a subtree, permissions, the
//! session state machine that turns user actions and server replies into
//! state changes and requests, and the ordering of saved connections and
//! folders.

pub mod lang;
pub mod text;
pub mod matching;
pub mod order;
pub mod znode;
pub mod tree;
pub mod search;
pub mod subtree;
pub mod profiles;
pub mod timefmt;
pub mod session;
pub mod config;
