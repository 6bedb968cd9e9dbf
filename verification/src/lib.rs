//! Market-data analysis over FWOB tick and bar files.
pub mod adjust;
pub mod adjust_laws;
pub mod aggregate;
pub mod aggregate_laws;
pub mod average;
pub mod bar_laws;
pub mod bounds;
pub mod calc;
pub mod calc_laws;
pub mod calendar_laws;
pub mod call_laws;
pub mod civil;
pub mod command_laws;
pub mod commands;
pub mod date_laws;
pub mod download;
pub mod feed;
pub mod feed_laws;
pub mod fill_laws;
pub mod frame_laws;
pub mod frames;
pub mod fwob_options;
pub mod grouping;
pub mod ibkr;
pub mod inspect;
pub mod inspect_laws;
pub mod interval;
pub mod json;
pub mod ls;
pub mod mcp;
pub mod model;
pub mod option_laws;
pub mod output;
pub mod output_laws;
pub mod plan_laws;
pub mod plot;
pub mod provider;
pub mod render;
pub mod report;
pub mod request_laws;
pub mod resample;
pub mod resample_laws;
pub mod session;
pub mod settings;
pub mod sidecar;
pub mod stat;
pub mod stat_laws;
pub mod summary;
pub mod symbol;
pub mod table_laws;
pub mod text;
pub mod tokens;

pub use symbol::normalize_symbol;
