//! Encoder for the two run-length sprite formats of a legacy simulation game,
//! with the byte layout of every command, frame and chunk payload stated as a
//! mathematical function of the pixels and proved of the executable code.

pub mod bytes;
pub mod container;
pub mod description;
pub mod error;
pub mod iff;
pub mod mask;
pub mod objd;
pub mod pixels;
pub mod spr1;
pub mod spr1_laws;
pub mod spr;
pub mod spr2;
pub mod spr2_laws;
pub mod sprite;
