//! The decisions behind a tray application that streams a PC's audio to an AirPlay 2 speaker.
//!
//! - [`single`]: single-precision numbers, by their bit patterns.
//! - [`pcm`]: captured bytes to 16-bit frames.
//! - [`volume`]: slider, volume and the text that keeps it.
//! - [`decimal`], [`hotkey`]: the toggle hotkey and the text that keeps it.
//! - [`device`]: which of the devices found are offered, and in which order.
//! - [`session`]: the order in which a stream is brought up and taken down.
//! - [`control`]: the thread that owns the running session.
//! - [`tray`], [`icon`]: menu, ticks, icon and what clicks do.
//! - [`window`]: the settings window.
//!
//! Every function states what it returns or changes; functions named `law_...` state what holds of
//! several of them together. The network, the audio device, files and the window system are left
//! to the application.
pub mod control;
pub mod decimal;
pub mod device;
pub mod hotkey;
pub mod icon;
pub mod pcm;
pub mod session;
pub mod single;
pub mod tray;
pub mod volume;
pub mod window;
