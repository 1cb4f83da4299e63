//! Concrete games that the harness can run.

pub mod offiziersskat;
pub mod rock_paper_scissors;
