pub mod arr_meta;
pub mod read_ext;
pub mod slice;
pub mod num;
pub mod csv_records;
pub mod devc;
pub mod smv;
pub mod simulation;
pub mod slice_frame;
pub mod slice_frame_err;
pub mod out;
pub mod util;
pub mod s3d;
