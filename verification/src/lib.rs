//! Focus-or-start window management for KDE Plasma: the request language that
//! is sent to the resident KWin script, the geometry mini-language, window
//! rules and the HOCON configuration reader.

pub mod cmd;
pub mod config;
pub mod geometry;
pub mod hocon;
pub mod matching;
pub mod model;
pub mod session;
pub mod text;

pub use geometry::{Geometry, GeometryError, Length, Maximize};
pub use model::{wire_desktop, Action, Pattern, Search};
