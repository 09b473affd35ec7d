//! Core of a FITS image viewer.

pub mod analysis;
pub mod arith;
pub mod bignum;
pub mod catalog;
pub mod color;
pub mod color_laws;
pub mod command;
pub mod decimal;
pub mod digit_laws;
pub mod digits;
pub mod draw;
pub mod edits;
pub mod exact;
pub mod export;
pub mod files;
pub mod filter_laws;
pub mod filters;
pub mod fits;
pub mod frame;
pub mod hdu;
pub mod image;
pub mod ipc;
pub mod laws;
pub mod layout_laws;
pub mod line_laws;
pub mod marker;
pub mod mean_laws;
pub mod measure_laws;
pub mod mosaic;
pub mod net;
pub mod num;
pub mod online;
pub mod overlay;
pub mod panels;
pub mod picture_laws;
pub mod pixel_laws;
pub mod place_laws;
pub mod plot;
pub mod plot_laws;
pub mod pointer;
pub mod prefs;
pub mod props;
pub mod query;
pub mod rank_laws;
pub mod region_laws;
pub mod report;
pub mod rounding;
pub mod run;
pub mod session;
pub mod show;
pub mod sky;
pub mod sky_laws;
pub mod sorting;
pub mod text;
pub mod tile;
pub mod tiling_laws;
pub mod ui;
pub mod view_laws;
pub mod wcs_laws;
