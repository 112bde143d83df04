pub mod text;
pub mod config;
pub mod logo;
pub mod info;
pub mod hardware;
pub mod software;
pub mod features;
pub mod drawn;
