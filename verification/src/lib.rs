//! Building blocks of a headless browser: subtitle tracks, content security,
//! browsing contexts, media and GPU start-up, and page storage.

pub mod browser;
pub mod dom;
pub mod js;
pub mod media;
pub mod net;
pub mod render_gpu;
pub mod scan;
pub mod storage;
pub mod text;
