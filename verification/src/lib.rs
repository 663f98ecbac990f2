//! Bridges a scoreboard controller's serial line protocol to a keyed
//! real-time update stream: assembling EOT-terminated lines from bytes,
//! parsing each line into six scoreboard fields, and mapping a parsed
//! record to the fixed sequence of keyed updates to publish.
pub mod dispatch;
pub mod parser;
pub mod reader;
