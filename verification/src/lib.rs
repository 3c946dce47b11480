//! A verified claim registry for "novels": each opaque byte-string title is
//! mapped to the account that owns it and the sequence number recorded when
//! it was created or last updated. The four operations — create, read,
//! update, remove — are gated on existence and ownership, and every accepted
//! operation appends exactly one notification event to the registry's log.

pub mod laws;
pub mod registry;
