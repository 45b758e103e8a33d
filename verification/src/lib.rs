//! Firmware and server logic for the Seeed Studio XIAO 7.5" ePaper panel
//! (800x480, UC8179 controller): the panel's 1-bit framebuffer and driver
//! protocol, and the dashboard the server draws for it.

pub mod framebuffer;
pub mod uc8179;
pub mod canvas;
pub mod pet;
pub mod dashboard;
pub mod calendar;
pub mod raster;
pub mod demo;
