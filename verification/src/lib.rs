pub mod text;
pub mod jobs;
pub mod output;
pub mod options;
pub mod metadata;
pub mod binaries;
pub mod updater;
