//! Scheduling, file-descriptor, memory-mapping and synchronisation logic of a
//! small teaching kernel, stated as contracts together with their proofs.
pub mod fs;
pub mod memory;
pub mod process;
pub mod slots;
pub mod sync;
pub mod task_manager;
