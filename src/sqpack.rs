pub mod path;
pub mod index;
pub mod dat;
pub mod archive;
