//! Endpoints of topics with keys.

pub mod datawriter;
