//! Verified core of a Linux system inspector: parsing of `/proc` and `/sys`
//! text and building of the `key=value` report lines.
pub mod text;
pub mod num;
pub mod report;
pub mod pci;
pub mod storage;
pub mod order;
pub mod dirs;
pub mod cpu;
pub mod temps;
pub mod fans;
pub mod usb;
pub mod process;
pub mod all;
