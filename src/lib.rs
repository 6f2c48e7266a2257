//! Finding the running editor server whose working directory holds a file.
//!
//! The pipeline is: build a socket glob pattern from the configuration
//! ([`locate`]), probe every candidate socket for its working directory
//! ([`probe`]), and pick the first instance whose directory contains the
//! target path ([`select`]). Filesystem access and process launching are done
//! by the caller; this crate decides everything that can be decided from the
//! values those steps hand back.
pub mod path;
pub mod locate;
pub mod probe;
pub mod select;
