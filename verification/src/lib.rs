//! A terminal video trimmer: the verified core of its timeline editing,
//! playback stepping, frame layout and export planning.
pub mod text;
pub mod base64;
pub mod audio;
pub mod model;
pub mod view;
pub mod update;
pub mod laws;
pub mod probe;
pub mod export;
pub mod frames;
pub mod kitty;
pub mod screen;
