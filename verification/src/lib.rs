//! The persistence core of a desktop note pad: a content-addressed image
//! store, archive backups with retention, and the checks around them.

pub mod archive;
pub mod backup;
pub mod blob;
pub mod digest;
pub mod error;
pub mod fonts;
pub mod listing;
pub mod migrate;
pub mod path_check;
pub mod paths;
pub mod retention;
pub mod settings;
pub mod text;
pub mod timestamp;
pub mod version;
pub mod window;
