//! Export of rendered terminal documents to HTML, SVG and OpenDocument
//! presentations, with URL safety checks for links and images.

pub mod text;
pub mod model;
pub mod url_safety;
pub mod svg;
pub mod html;
pub mod slides;
pub mod odp;
