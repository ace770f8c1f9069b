//! Answers questions about Jira issues with the help of a chat service.
//!
//! The library decides and computes; requests are sent elsewhere. It builds what each request
//! carries, reads what each reply says, and tells what comes next:
//!
//! * [`options`] what a run does, by its options;
//! * [`models`] which models there are, and which is used;
//! * [`jql`] how a query is generated from a question;
//! * [`fetch`] how issues and their comments are fetched, page by page;
//! * [`server`] what whole fetches come to;
//! * [`batches`] how issues are split into batches, and what is asked about each;
//! * [`chat`] what a chat request sends, and when it is sent again;
//! * [`answer`] how the answers about batches become one.
//!
//! [`json`] holds JSON values and their model, [`wire`] reads and writes them, [`http`] has
//! statuses and headers, [`text`] words and numerals, and [`error`] what can go wrong.
pub mod answer;
pub mod batches;
pub mod chat;
pub mod error;
pub mod fetch;
pub mod http;
pub mod jql;
pub mod json;
pub mod models;
pub mod options;
pub mod server;
pub mod text;
pub mod wire;
