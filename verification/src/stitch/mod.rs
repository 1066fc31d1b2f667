//! Stitching the records of many runs into tables in which a row follows one
//! figure of one key over the runs. The runs stay in their order; a run that
//! could not be loaded keeps its place and leaves its cell of every row empty.

pub mod call_chain_reporter;
pub mod csv;
pub mod key_rows;
pub mod method_stats_reporter;
pub mod series;
pub mod stats_rec_reporter;
pub mod stitch_tables;
pub mod stitched;
pub mod table;
