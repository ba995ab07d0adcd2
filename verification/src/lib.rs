pub mod anchors;
pub mod book;
pub mod container;
pub mod content;
pub mod explorer;
pub mod flatten;
pub mod htmltotext;
pub mod loader;
pub mod opf;
pub mod resolve;
pub mod text;
pub mod toc;
