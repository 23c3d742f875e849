pub mod pixel;
pub mod raster;
pub mod scale;
pub mod mask;
pub mod text;
pub mod codec;
pub mod compose;
pub mod state;
