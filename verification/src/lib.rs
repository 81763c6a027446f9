//! A virtual IPP printer that performs manual duplex printing on a real one: the
//! odd pages first, then, once the stack is flipped, the even pages in reverse
//! order. This library holds all that is decided and computed on the way; the
//! connections, files and other programs are the caller's.
//!
//! - [`text`]: texts, and the numbers in them
//! - [`ipp`]: IPP messages, and their bytes; [`wire`]: that the bytes carry them
//! - [`uri`]: the address of a printer
//! - [`http`]: heads and bodies; [`exchange`]: whole requests and responses
//! - [`jobs`]: jobs and their states; [`table`]: all of them, by their ids
//! - [`server`]: what is answered to clients
//! - [`printer`]: the attributes that the virtual printer shows
//! - [`pages`]: documents, and the commands that split them
//! - [`remote`]: what is said to the real printer about a job
//! - [`worker`]: a job on its way; [`duplex`]: what it amounts to on paper
//! - [`dialog`]: the dialog that asks for the flip
//! - [`config`]: the daemon's command line; [`setup`]: the interactive setup

pub mod config;
pub mod dialog;
pub mod duplex;
pub mod exchange;
pub mod http;
pub mod ipp;
pub mod jobs;
pub mod pages;
pub mod printer;
pub mod remote;
pub mod server;
pub mod setup;
pub mod table;
pub mod text;
pub mod uri;
pub mod wire;
pub mod worker;
