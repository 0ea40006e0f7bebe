pub mod cli;
pub mod config;
pub mod init;
pub mod input;
pub mod kdf;
pub mod seed;
pub mod server;
pub mod text;
pub mod trusted;
pub mod winacl;
