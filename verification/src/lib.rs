//! Object-lifetime and memory-management core of a microkernel.
//!
//! The centerpiece is a reference-counted slab arena (the [`registry::Registry`])
//! that allocates every kernel-managed object inside a dedicated, lazily grown
//! region of the address space, plus a doubly-linked list overlay
//! ([`list::ListRegistry`]) built from two such arenas.  Around the arena stand
//! the pieces it lives with: the critical-section spinlock ([`sync`]), the
//! interrupt-state capability ([`arch`]), the address-space layout descriptors
//! ([`layout`], [`address_space`]), the physical-address translator
//! ([`translate`]), the boot-protocol data types ([`boot_protocol`]) and the
//! kernel id codec ([`id`]).
//!
//! Collaborators that are per-architecture plumbing (page tables, the page-frame
//! allocator's internal free list, interrupt hardware) are modeled at their
//! interface boundary as plain-value types in [`mem`] and [`arch`]; the arena
//! logic itself is fully verified against those models.

pub mod address_space;
pub mod arch;
pub mod boot_protocol;
pub mod id;
pub mod layout;
pub mod list;
pub mod mem;
pub mod registry;
pub mod sync;
pub mod translate;
