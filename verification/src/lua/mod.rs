pub mod discord;
pub mod influxdb;
pub mod timescaledb;
pub mod notify;
pub mod http;
pub mod redis;
