pub mod create_index;
pub mod load_driver;
