pub mod range;
pub mod arr_meta;
pub mod arr_meta_2d;
pub mod series;
