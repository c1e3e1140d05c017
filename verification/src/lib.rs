pub mod adb;
pub mod adb_client;
pub mod cli;
pub mod command_path;
pub mod connect_steps;
pub mod desktop;
pub mod dnssd;
pub mod emulator;
pub mod laws;
pub mod menu_bar;
pub mod pairing;
pub mod pairing_flow;
pub mod pairing_steps;
pub mod qr;
pub mod scrcpy;
pub mod text;
pub mod ui;
pub mod wifi;
