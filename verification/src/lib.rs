//! Obscura's camera logic.

pub mod app;
pub mod camera;
pub mod controls;
pub mod device;
pub mod dng;
pub mod modes;
pub mod number;
pub mod perf;
pub mod photo;
pub mod pipewire;
pub mod portal;
pub mod preview;
pub mod rounding;
pub mod settings;
pub mod text;
pub mod video;
pub mod viewfinder;
pub mod worker;
