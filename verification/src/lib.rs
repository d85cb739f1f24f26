pub mod wire;
pub mod proto;
pub mod json;
pub mod constants;
pub mod codex;
pub mod relay;
pub mod cli;
pub mod frida;
pub mod hook;
