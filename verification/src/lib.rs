//! BMPWatch: RFC 7854 BMP framing, `.bmpd` container decoding, stream
//! diagnostics and the pure models behind the live dashboard.

pub mod asnames;
pub mod bgp;
pub mod browser;
pub mod cli;
pub mod dashboard;
pub mod doctor;
pub mod error;
pub mod input;
pub mod inspect;
pub mod event;
pub mod flaps;
pub mod kafka;
pub mod lint;
pub mod names;
pub mod obmp_reader;
pub mod obmp_writer;
pub mod panels;
pub mod peering;
pub mod prefix;
pub mod raw_bmp;
pub mod report;
pub mod rolling;
pub mod rpki;
pub mod state;
pub mod text;
pub mod textparse;
pub mod topics;
