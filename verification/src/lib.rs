//! Version metadata for Taskline script files: the version value, the
//! two-line metadata header, and the rewriting of a script's content and
//! file name when its version is bumped.

pub mod bump;
pub mod constants;
pub mod decimal;
pub mod init;
pub mod metadata;
pub mod order;
pub mod text;
pub mod version;
