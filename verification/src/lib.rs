//! Building blocks of a small terminal user-interface toolkit: geometry that
//! resolves absolute and percentage positions, colours and their ANSI escape
//! sequences, a frame buffer of character cells, the composition of a frame
//! into the text that is written to the terminal, and the placement of
//! labels, rectangles and images onto the frame buffer.

pub mod geometry;
pub mod color;
pub mod framebuffer;
pub mod frame;
pub mod place;
pub mod picture;
pub mod events;
