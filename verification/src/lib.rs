pub mod text;
pub mod image_cache;
pub mod image_params;
pub mod config;
pub mod types;
pub mod gallery;
pub mod exif;
pub mod server;
pub mod imaging;
pub mod mosaic;
pub mod display;
