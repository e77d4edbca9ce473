pub mod address;
pub mod advert;
pub mod config;
pub mod config_text;
pub mod controller;
pub mod errors;
pub mod service_ctl;
