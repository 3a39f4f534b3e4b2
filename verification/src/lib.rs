pub mod ai;
pub mod allocation;
pub mod analysis;
pub mod api;
pub mod args;
pub mod audio;
pub mod batches;
pub mod conversion;
pub mod deletion;
pub mod dialogue;
pub mod extractor;
pub mod files;
pub mod ids;
pub mod lrc;
pub mod markup;
pub mod messages;
pub mod number;
pub mod order;
pub mod path;
pub mod patterns;
pub mod process;
pub mod requests;
pub mod search;
pub mod settings;
pub mod tasks;
pub mod text;
pub mod titles;
pub mod utils;
