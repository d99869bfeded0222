//! Verified core of a configuration-profile switcher.
//!
//! Named profiles are stored as files in a profile directory; a well-known
//! active-config path normally points at one of them as a symlink. This
//! library models that filesystem state with plain values and decides, from
//! the model, which profile is active and how each operation changes the
//! state. All I/O stays outside the library: a front end reads the directory
//! and the active path into a [`model::Store`], runs the operation here, and
//! applies the returned outcome to the real filesystem.

pub mod editor;
pub mod fingerprint;
pub mod laws;
pub mod model;
pub mod ops;
pub mod order;
pub mod paths;
