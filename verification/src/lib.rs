//! Verified core of a driver for Intel 8254x ("e1000") Gigabit Ethernet
//! controllers.
//!
//! The core never touches hardware. Every operation is a small state
//! machine: it names the accesses that the platform has to perform
//! ([`platform::Command`], [`platform::Query`]), takes what the device
//! answered as an argument, and decides what happens next. The platform
//! glue runs the loop: it performs the pending query, hands the answer to
//! the next step, and carries out the commands that the step returns.
//!
//! Each operation comes in two layers. The model says, as a function of
//! plain values, what a step decides; the executable step is proved to
//! decide exactly that. On top of the models stand the laws: what a whole
//! read, write or construction does when the device behaves in a given
//! way.
//!
//! - [`regs`]: register map, flag bits, ring geometry.
//! - [`layout`], [`desc`]: descriptors and their packed layout in memory.
//! - [`bar`]: the register gateway over memory-mapped or port I/O.
//! - [`platform`]: the vocabulary between core and platform.
//! - [`eeprom`]: the EEPROM read protocol and the station address.
//! - [`ring`]: the programming sequence of both rings.
//! - [`model`], [`bringup`]: the card as contracts speak of it, and its
//!   construction.
//! - [`nic`]: the card and the steps of its operations.
//! - [`rx`], [`tx`], [`loopback`]: the receive and transmit paths and
//!   their laws.
//! - [`driver`]: the driver binding.

pub mod regs;
pub mod layout;
pub mod desc;
pub mod bar;
pub mod platform;
pub mod eeprom;
pub mod ring;
pub mod model;
pub mod bringup;
pub mod nic;
pub mod rx;
pub mod tx;
pub mod loopback;
pub mod driver;
