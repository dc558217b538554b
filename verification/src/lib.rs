//! Decision logic of a small real-time renderer, verified.
//!
//! A renderer built on a low-level graphics API spends most of its code on
//! API calls, but a few places genuinely decide something: which physical
//! device and queue families to use, how to configure the swapchain, which
//! memory type backs an allocation, how shader bindings merge into
//! descriptor set layouts, how a heightmap grid becomes an index buffer.
//! This crate holds those decisions as verified functions over plain
//! values; the driver queries and GPU submissions that surround them stay
//! with the caller.

pub mod physical_device;
pub mod swapchain;
pub mod memory;
pub mod terrain;
pub mod shader;
