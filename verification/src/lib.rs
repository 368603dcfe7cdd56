//! An asynchronous virtual file system engine: logical paths are resolved
//! through a table of mounts to pluggable storage devices, each mount gated by
//! a permission mask, and every operation runs as a work item drawn from a
//! bounded pool and drained from a FIFO queue.

pub mod context;
pub mod device;
pub mod engine;
pub mod mount;
pub mod permissions;
pub mod result_code;
pub mod work;

pub use context::LaminaFS;
pub use context::WorkItem;
pub use device::DeviceInterface;
pub use device::MemDevice;
pub use mount::Mount;
pub use permissions::MountPermissions;
pub use result_code::ResultCode;
pub use work::Operation;
