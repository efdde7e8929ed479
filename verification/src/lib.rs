//! Faces for the teetotum firmware and the index that lists them, with their logic verified.
mod outside;
pub mod text;
pub mod tags;
pub mod origin;
pub mod faces;
pub mod entry;
pub mod check;
pub mod laws;
