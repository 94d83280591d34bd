//! A grid-map ray caster: a top-down view of a tile map and a projected view of
//! its walls, drawn into one buffer of packed colors, with rays marched in fixed
//! steps from the observer.

pub mod color;
pub mod framebuffer;
pub mod tilemap;
pub mod raster;
pub mod raymarch;
pub mod observer;
pub mod render;
pub mod ppm;
