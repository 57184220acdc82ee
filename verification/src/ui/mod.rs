//! What the render loop asks of the library: whether a frame has to be drawn at
//! all, which font atlases have to be refreshed, and what a request of the
//! interface for local work means.

pub mod cjk_host;
pub mod font_gpu;
pub mod frame_skip;
pub mod laws;
