pub mod text;
pub mod errors;
pub mod args;
pub mod video;
pub mod transcripts;
pub mod listing;
pub mod output;
pub mod fetch;
pub mod clipboard;
pub mod run;
