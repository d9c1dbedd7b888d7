//! Glucose chart library: reconciles sensor samples into a clean timeline,
//! segments it into status ranges, projects it onto a canvas and places
//! decorative stickers without collisions.
pub mod chart;
pub mod clock;
pub mod components;
pub mod labels;
pub mod naming;
pub mod nightscout;
pub mod projection;
pub mod reconcile;
pub mod segments;
pub mod stickers;
pub mod text;
pub mod types;
