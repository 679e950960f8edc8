pub mod text;
pub mod text_laws;
pub mod number;
pub mod config;
pub mod config_laws;
pub mod wkt;
pub mod wkt_laws;
pub mod raster;
pub mod raster_laws;

pub use config::Config;
