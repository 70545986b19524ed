//! Backend logic of a markdown editor.
//!
//! The core is the sidebar's file browser: `scan` turns what was read of a
//! directory tree into the pruned, ordered and bounded tree that is shown,
//! and `watch` keeps the registry of live filesystem watchers, one per
//! watched root. Beside them stand the small rules of the other commands:
//! which release counts as an update (`version`), which addresses may be
//! opened (`links`) and how large a file may be read (`files`).
//!
//! Nothing here touches the disk or the network: a caller reads, hands plain
//! values in, and acts on what comes back.

pub mod files;
pub mod links;
pub mod order;
pub mod scan;
pub mod snapshot;
pub mod text;
pub mod tree;
pub mod version;
pub mod watch;
