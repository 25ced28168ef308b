pub mod app_state;
pub mod config;
pub mod endpoint;
pub mod peer_client;
pub mod peer_server;
pub mod redis_factory;
pub mod restaurant_config;
pub mod text;
pub mod tracker_proxy;
pub mod web_server;
