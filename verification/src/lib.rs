//! Download naming, link routing and notification bookkeeping for a desktop
//! client of the eblo.id site.

pub mod text;
pub mod header;
pub mod links;
pub mod routing;
pub mod naming;
pub mod downloads;
pub mod settings;
pub mod window;
pub mod monitor;
pub mod system;
pub mod clock;
