pub mod aligned_layout;
pub mod bpp1;
pub mod cell_text;
pub mod codegen;
pub mod debug;
pub mod font;
pub mod font_macros;
pub mod font_names;
pub mod geometry;
pub mod layout;
pub mod literal;
pub mod macro_input;
pub mod raster;
pub mod render;
pub mod rust_text;
pub mod source;
pub mod style;
pub mod text;
