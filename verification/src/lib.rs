//! A personal double-entry ledger.

pub mod account_id;
pub mod account_map;
pub mod audit;
pub mod audit_laws;
pub mod book;
pub mod book_laws;
pub mod chars;
pub mod cli;
pub mod command_laws;
pub mod commands;
pub mod decimal;
pub mod entry_laws;
pub mod error_laws;
pub mod fiscal;
pub mod fiscal_laws;
pub mod model;
pub mod money;
pub mod posting;
pub mod reconstruct;
pub mod report_laws;
pub mod shell;
pub mod storage;
pub mod storage_laws;
pub mod summary;
pub mod sums;
pub mod text;
pub mod text_laws;
pub mod time;
pub mod transaction_id;
pub mod tui;
pub mod tui_app;
pub mod tui_key_laws;
pub mod tui_laws;
pub mod tui_view;
