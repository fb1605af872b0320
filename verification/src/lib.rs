//! A verified HTTP request routing core: path patterns with named
//! captures, ordered guard predicates over request metadata, typed
//! binding of path captures and query fields, and a router that
//! resolves an incoming request to exactly one registered route or to
//! a documented failure outcome.

pub mod binder;
pub mod chars;
pub mod guard;
pub mod pattern;
pub mod persons;
pub mod request;
pub mod router;
pub mod split;

pub use chars::eq_ignore_ascii_case;
pub use split::split_path;
