pub mod backend;
pub mod format;
pub mod model;
pub mod paths;
pub mod storage;
pub mod text;
