//! Backups of browser bookmark stores: the canonical bookmark tree, the two
//! tree builders (JSON documents and relational rows), the HTML renderer, and
//! the bookkeeping of backup files (naming, listing, retention, restore).

pub mod tree;
pub mod html;
pub mod text;
pub mod json;
pub mod rows;
pub mod naming;
pub mod backup;
pub mod store;
pub mod restore;
pub mod export;
pub mod screen;
pub mod autostart;
pub mod locations;
