pub mod header;
pub mod page;
pub mod sheet;
pub mod iterator;
