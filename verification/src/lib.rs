//! The logic behind two editor views: a PDF viewer and a commit history view.

pub mod cache;
pub mod commit_toolbar;
pub mod commit_view;
pub mod dictionaries;
pub mod diff_loader;
pub mod document;
pub mod historical;
pub mod interaction;
pub mod links;
pub mod number;
pub mod open_commit;
pub mod parameters;
pub mod pdf;
pub mod pdf_viewer;
pub mod raster;
pub mod renderer;
pub mod repository;
pub mod sample;
pub mod stash;
pub mod text;
pub mod tokens;
