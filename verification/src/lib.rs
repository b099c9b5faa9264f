//! Compact plain-text previews of chat messages.

pub mod text;
pub mod attachment;
pub mod preview;
pub mod webview;
pub mod cli;
