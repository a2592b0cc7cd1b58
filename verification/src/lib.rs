//! SOC-D kernel logic: network codecs and tables, the scheduler, the RAM
//! file system, containers, the versioned DAG and the P2P tables, each
//! stated over a mathematical model and proved by Verus.
#![allow(unused_imports)]

pub mod util;
pub mod net;
pub mod ethernet;
pub mod tmpfs;
pub mod scheduler;
pub mod virt;
pub mod shell;
pub mod elf_loader;
pub mod process;
pub mod dag;
pub mod crypto;
pub mod arm;
pub mod peer;
pub mod routing;
pub mod gossip;
pub mod node;
pub mod dag_sig;
pub mod keyed;
pub mod xdev;
pub mod monitor;
pub mod edge;
pub mod discovery;
pub mod p2p_crypto;
pub mod transport;
pub mod registry;
pub mod testsuite;
pub mod ia;
pub mod console;
pub mod dashboard;
pub mod snapshot;
pub mod virtio;
pub mod virtio_real;
pub mod virtio_blk;
pub mod cognitive;
pub mod mdns_roundtrip;
