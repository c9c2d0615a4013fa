pub mod batch;
pub mod extract;
pub mod pipeline;

pub use extract::extract_and_append;
