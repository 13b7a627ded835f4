pub mod billing;
pub mod clock;
pub mod codex_config;
pub mod compact_sse;
pub mod compact_synthesis;
pub mod finalize;
pub mod json;
pub mod report_context;
pub mod text;
pub mod time_pricing;
pub mod wire;
