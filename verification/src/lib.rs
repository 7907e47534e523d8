//! A Bitcoin price oracle's store, interface and synchronisation, without their I/O.
//!
//! Every part says what to read, write or fetch and is told what came of it; the program around
//! the library does the work. Prices are carried as the bit patterns of floating-point numbers.

pub mod api;
pub mod calendar;
pub mod lookup;
pub mod record;
pub mod storage;
pub mod sync;
pub mod text;
