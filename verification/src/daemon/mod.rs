pub mod cursor;
pub mod entitlement;
pub mod wire;
pub mod policy;
pub mod tool_render;
pub mod turn;
pub mod auth;
pub mod client;
pub mod config;
pub mod fin_context;
pub mod workpaper;
pub mod fetch_tools;
pub mod exec;
pub mod fs_tools;
pub mod tools;
pub mod audit;
pub mod approvals;
