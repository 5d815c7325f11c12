//! A NUMA-first runtime toolkit: CPU sets and node masks, topology,
//! pinning decisions, memory placement policies, work-stealing scheduling,
//! per-node sharding, I/O device locality, and locality statistics.
pub mod affinity;
pub mod bench;
pub mod bits;
pub mod capability;
pub mod cpulist;
pub mod discovery;
pub mod error;
pub mod io;
pub mod laws;
pub mod mem;
pub mod mode;
pub mod perf;
pub mod sched;
pub mod screens;
pub mod sharded;
pub mod text;
pub mod topo;
pub mod types;

pub use crate::capability::Capabilities;
pub use crate::error::NumaError;
pub use crate::io::{DeviceLocality, DeviceMap, DeviceType};
pub use crate::mem::{HugePageMode, MemPolicy, NumaRegion, Prefault};
pub use crate::mode::{EnforcementLevel, HardMode};
pub use crate::perf::{LocalityHealth, LocalityReport, LocalityStats, NodeStats, StatsCollector};
pub use crate::sched::{NumaExecutorBuilder, StealPolicy};
pub use crate::sharded::{NumaSharded, ShardedCounter};
pub use crate::topo::{NumaNode, Topology};
pub use crate::types::{CpuSet, NodeId, NodeMask};
