//! Credentials under the `AcAuth` authorization scheme: reading them from an
//! authorization header value, writing them back, and deciding whether a
//! request that carries them may go on to the next handler.
pub mod credential;
pub mod gate;
