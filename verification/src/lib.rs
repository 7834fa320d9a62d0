//! The decision-making core of a UEFI boot loader for x86_64, with the text
//! renderer and the descriptor-table entries of the kernel it starts.
//!
//! The library never touches hardware. It works on plain values: a memory map
//! as the firmware reports it, the program headers of a kernel image, physical
//! and virtual addresses as `u64`. Where the boot sequence has to change page
//! tables or physical memory, the library returns the list of operations to
//! perform, and proves what that list achieves.
//!
//! The boot sequence, and where its parts are decided:
//!
//! 1. [`frame_allocator`] hands out the frames of conventional memory and
//!    remembers how far it got; [`memory_map`] says what the firmware's map
//!    looks like to the kernel afterwards.
//! 2. [`paging`] takes the frames of the two top-level page tables.
//! 3. [`loader`] plans the mapping of the kernel's segments ([`segment`]),
//!    and [`level_four`] keeps the top-level slots that they reach into.
//! 4. [`layout`] places the stack, the framebuffer, the direct map of
//!    physical memory and the boot information in slots of their own.
//! 5. [`handoff`] makes the memory map and the [`boot_information`], and
//!    decides the values of the registers at the jump.
//!
//! [`mapping`] holds the operations that the plans are made of, and
//! [`machine`] a model of what they do, on which the plans are proved.
//! [`address`] has the arithmetic of addresses, and [`firmware`] what is made
//! of the firmware's answers.
//!
//! [`colour`], [`framebuffer`], [`renderer`] and [`logger`] put text on the
//! screen; [`gdt`] has the entries of the kernel's descriptor table.

pub mod address;
pub mod boot_information;
pub mod colour;
pub mod firmware;
pub mod frame_allocator;
pub mod framebuffer;
pub mod gdt;
pub mod handoff;
pub mod layout;
pub mod level_four;
pub mod loader;
pub mod logger;
pub mod machine;
pub mod mapping;
pub mod memory_map;
pub mod paging;
pub mod renderer;
pub mod segment;
