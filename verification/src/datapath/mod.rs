//! The packet path of a node: what becomes of each frame that enters it.

pub mod checksum_laws;
pub mod forward;
pub mod frame_laws;
pub mod laws;
pub mod packet;
pub mod path_laws;
