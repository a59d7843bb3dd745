//! What the operations are for, stated over what goes in and what comes out.
pub mod course;
pub mod devices;
pub mod environment;
pub mod formats;
pub mod specs;
pub mod views;
