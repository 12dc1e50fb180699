//! Sink resolver for a small audio-routing helper.
//!
//! The library parses the line-oriented sink listing that a desktop audio
//! server's control tool prints, maps a logical device class (headphones or
//! speakers) to the numeric identifier of the best-matching sink, and
//! validates volume requests. All of it is pure: the process invocations that
//! produce the listing and apply the chosen sink live outside the library.

pub mod device;
pub mod record;
pub mod resolver;
pub mod text;
pub mod volume;
