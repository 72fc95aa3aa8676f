//! A Befunge-93/97/98 execution engine: funge-space, instruction pointers with
//! their stack of stacks, the instruction decoder, the per-tick scheduler and a
//! bounded undo history.
//!
//! The engine performs no input or output itself. Instructions that need the
//! host (a line of input, a file, a subprocess) name a request; the host
//! answers it and steps again.

pub mod blocks;
pub mod cell;
pub mod chance;
pub mod command;
pub mod convert;
pub mod debug;
pub mod decoder;
pub mod engine;
pub mod error;
pub mod files;
pub mod geometry;
pub mod history;
pub mod host;
pub mod info;
pub mod io;
pub mod ip;
pub mod laws;
pub mod lineage;
pub mod ops;
pub mod rules;
pub mod semantics;
pub mod space;
pub mod stack;
pub mod sysinfo;
pub mod text;
pub mod view;
pub mod world;

pub use convert::{cast_int, chr, ord, Int};
pub use debug::FungeDebug;
pub use engine::{Funge, Halt, Run, Width};
pub use error::FungeError;
pub use geometry::{Pos, Rect};
pub use history::{FungeDelta, FungeHist};
pub use host::{Moment, Reply, Request};
pub use io::IO;
pub use ip::IP;
pub use space::FungeSpace;
pub use text::join;
