pub mod app;
pub mod bridge;
pub mod editing;
pub mod events;
pub mod http;
pub mod popups;
pub mod proxy;
pub mod repeater;
pub mod text;
