pub mod vt;
pub mod app;
pub mod keys;
pub mod render;
pub mod llm;
