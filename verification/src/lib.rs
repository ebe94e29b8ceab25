//! A small terminal software rasterizer: pixel buffers, a half-block frame
//! encoder, triangle clipping against a plane, and a Wavefront OBJ reader.

pub mod basis;
pub mod frame;
pub mod obj;
pub mod pixel;
pub mod screen;
pub mod text;
pub mod triangle;

pub use basis::Basis;
pub use obj::{LoadError, ObjLoader, ObjText, VertexText};
pub use pixel::Pixel;
pub use screen::Screen;
pub use text::IntErrorKind;
pub use triangle::{clip_plan, Corner, Triangle};
