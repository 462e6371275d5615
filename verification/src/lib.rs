pub mod actions;
pub mod apps;
pub mod bookmarks;
pub mod crumbs;
pub mod devices;
pub mod entry;
pub mod geometry;
pub mod history;
pub mod listing;
pub mod names;
pub mod order;
pub mod paths;
pub mod selection;
pub mod size;
pub mod sorting;
pub mod summary;
pub mod tab;
pub mod text;
pub mod uri;
pub mod xdg;
