//! A layered virtual filesystem: a single logical namespace assembled
//! from multiple backends, each attached at a mount path. Callers query
//! the unified namespace (`exists`, `read_dir`, `open`) without knowing
//! which backend answers; later mounts shadow earlier ones for
//! single-valued queries, while listing queries merge all layers.

pub mod error;
pub mod fs;
pub mod handlers;
pub mod path;

pub use fs::CellFs;
