//! Finds the stale container images of a host and accounts for the space
//! that removing them frees.
//!
//! A run resolves the retention window ([`date`]), parts the inventory into
//! images to keep and images to remove ([`images`]), reads their sizes
//! ([`size`]) and drives the removal one image at a time ([`deletion`]).
//! The library decides and keeps the books; listing the images and removing
//! one are left to whoever calls it.

pub mod calendar;
pub mod date;
pub mod deletion;
pub mod images;
pub mod size;
pub mod text;
pub mod timestamps;
