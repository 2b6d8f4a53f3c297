//! A namespace-based RPC method registry and dispatch-table builder.
//!
//! Independently implemented sets of RPC handlers, grouped by namespace
//! (`eth`, `alchemy`), are aggregated into a single dispatch table that a
//! server can use to route incoming calls by method name.  The merge is
//! collision-checking: if two namespaces define the same method name, the
//! build fails loudly instead of silently dropping a handler.

pub mod laws;
pub mod method_table;
pub mod registry;

pub use method_table::MethodTable;
pub use registry::DispatchTable;
pub use registry::KakarotRpcModule;
pub use registry::KakarotRpcModuleBuilder;
pub use registry::NamespaceCollisionError;
