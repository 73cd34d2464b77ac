//! Shared Linux DRM plumbing: what a `/proc` fdinfo text says, how a walk's
//! clients are attributed to cards, when a walk is due, and what the sysfs
//! attributes mean.
pub mod fdinfo;
pub mod gts;
pub mod partition;
pub mod scanner;
pub mod sweep;
pub mod sysfs;
