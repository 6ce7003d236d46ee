//! Discovery of a Codex installation: where its data lies and where its executable is.
//!
//! The library decides; it never touches the machine. A search ([`home`], [`binary`])
//! takes the environment ([`host`]) and what has been observed so far
//! ([`observation`]), and returns its outcome or what must be observed next. What a
//! directory holds is found out by a walk ([`inspection`]) that asks in the same way.

pub mod binary;
pub mod bytes;
pub mod home;
pub mod host;
pub mod inspection;
pub mod observation;
pub mod path;
pub mod record;
pub mod redaction;
pub mod status;
pub mod text;
pub mod validation;
pub mod walk;
