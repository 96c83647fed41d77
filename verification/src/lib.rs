//! Verified core of the pixel-art application: colour encoding, query-string
//! parsing, frame planning and pixel rasterisation, with the data models that
//! the web server stores and serves.

pub mod strings;
pub mod utils;
pub mod color_subs;
pub mod query_params;
pub mod search_query;
pub mod errors;
pub mod models;
pub mod video_models;
pub mod video;
pub mod canvas;
pub mod render;
pub mod encode;
pub mod db;
