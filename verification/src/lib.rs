pub mod client;
pub mod command;
pub mod complete;
pub mod foreign;
pub mod handlers;
pub mod laws;
pub mod metrics;
pub mod mpsc;
pub mod number;
pub mod preprocess;
pub mod run;
pub mod server;
pub mod state;
pub mod target;
pub mod text;
pub mod word;
