//! Logic of a BLE GATT command-line tool: address and handle parsing, the
//! ATT handle table, gatttool-compatible output, the interactive command
//! shell, and the packets it exchanges with the Bluetooth controller.

pub mod text;
pub mod handle_table;
pub mod output;
pub mod error;
pub mod cli;
pub mod connection;
pub mod gatt;
pub mod interactive;
pub mod bdaddr;
pub mod style;
pub mod tables;
pub mod scan;
pub mod monitor;
pub mod table_lines;
