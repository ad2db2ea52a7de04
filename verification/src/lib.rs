//! Verified request-path logic of a time-series database.
//!
//! - [`prewhere`]: reading filter columns first to read fewer rows of the rest,
//!   with [`tag_decode`] for tags that are only in the primary key, and
//!   [`config`], [`filter`] and [`read_format`] for what a scan is given;
//! - [`admin`]: the router of the admin service and its replies;
//! - [`prom_remote_write`]: decompressing and decoding remote write requests;
//! - [`trace_partition`]: how tables of traces are partitioned and indexed.
//!
//! What the library uses of other crates stands in [`columnar`] (Arrow),
//! [`row_selection`] and [`projection`] (Parquet) and [`http`] (HTTP replies,
//! query strings), and at the top of [`prom_remote_write`] (Snappy, Zstandard).

pub mod admin;
pub mod columnar;
pub mod config;
pub mod filter;
pub mod http;
pub mod prewhere;
pub mod projection;
pub mod prom_remote_write;
pub mod read_format;
pub mod row_selection;
pub mod search;
pub mod string_map;
pub mod tag_decode;
pub mod trace_partition;
