//! A typed marshaling layer for a stack-based scripting runtime.
//!
//! All data crosses the host boundary through an implicit value stack owned
//! by a runtime handle.  This crate provides the handle, the generic
//! push/read conversion protocol for scalars, strings, sequences, maps and
//! records, single-pass table cursors, and the protected-call protocol with
//! its error taxonomy.

pub mod api;
pub mod convert;
pub mod host;
pub mod iter;
pub mod map;
pub mod state;
pub mod value;

pub use api::Lua;
pub use api::LuaModule;
pub use api::New;
pub use convert::LuaFn;
pub use convert::LuaPush;
pub use convert::LuaTo;
pub use convert::LuaVal;
pub use host::Host;
pub use iter::LuaArrayIterator;
pub use iter::LuaTableIterator;
pub use map::KvMap;
pub use map::LuaKey;
pub use state::State;
pub use state::StateView;
pub use value::LuaErr;
pub use value::LuaType;
pub use value::SVal;
pub use value::Value;
