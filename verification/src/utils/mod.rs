pub mod errors;
pub mod name_map;
pub mod text;
