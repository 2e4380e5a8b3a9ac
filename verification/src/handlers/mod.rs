//! What the request handlers decide, apart from the transport that carries
//! requests and answers.

pub mod health;
pub mod orders;
