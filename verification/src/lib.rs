//! Planning the rendering of a timed scene: which elements are on screen in
//! each video frame, which frames can reuse the picture before them, and how
//! audio clips add up on one timeline.

pub mod activity;
pub mod audio;
pub mod cache;
pub mod encoder;
pub mod mixer;
pub mod processor;
pub mod scene;
pub mod text;
pub mod time;
