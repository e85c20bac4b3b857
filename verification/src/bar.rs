//! The register gateway: 32-bit register reads and writes over BAR0, by
//! memory-mapped I/O or by port I/O.

use vstd::prelude::*;

verus! {

/// Size in bytes of the register window that a 16-bit register offset and a
/// 32-bit access can reach.
pub const REGISTER_WINDOW: u64 = 0x1_0004;

/// Distance from the index port to the data port of an I/O-mapped BAR.
pub const IO_DATA_PORT: u16 = 4;

/// One primitive access to the device. Each is a single volatile 32-bit
/// load or store, or a single port instruction: the platform must not fuse,
/// reorder or drop them.
#[derive(Clone, Copy, Debug, PartialEq, Eq)]
pub enum BusAccess {
    /// Load 32 bits from the physical address `addr`.
    MmioRead { addr: u64 },
    /// Store `value` at the physical address `addr`.
    MmioWrite { addr: u64, value: u32 },
    /// Read 32 bits from I/O port `port`.
    PortIn { port: u16 },
    /// Write `value` to I/O port `port`.
    PortOut { port: u16, value: u32 },
}

/// The accesses that one register operation takes, in order.
#[derive(Clone, Copy, Debug, PartialEq, Eq)]
pub struct RegisterAccess {
    /// For port I/O, the write that selects the register; it comes first.
    pub select: Option<BusAccess>,
    /// The access that carries the datum.
    pub data: BusAccess,
}

/// How BAR0 maps the device's registers.
#[derive(Clone, Copy, Debug, PartialEq, Eq)]
pub enum BarKind {
    /// The registers are mapped into physical memory.
    Memory,
    /// The registers are reached through an index port and a data port.
    Port,
}

/// BAR0 of a device: the mapping style and the base address.
#[derive(Clone, Copy, Debug, PartialEq, Eq)]
pub struct Bar {
    kind: BarKind,
    base: u64,
}

impl Bar {
    /// The mapping style.
    pub closed spec fn spec_kind(self) -> BarKind {
        self.kind
    }

    /// The physical base address, or the number of the index port.
    pub closed spec fn spec_base(self) -> u64 {
        self.base
    }

    /// Whether a register window at `base` lies inside the address space of
    /// its mapping style.
    pub open spec fn fits(kind: BarKind, base: u64) -> bool {
        match kind {
            BarKind::Memory => base + REGISTER_WINDOW <= u64::MAX,
            BarKind::Port => base + IO_DATA_PORT <= u16::MAX,
        }
    }

    #[verifier::type_invariant]
    spec fn inv(self) -> bool {
        Bar::fits(self.kind, self.base)
    }

    /// What the type guarantees of every `Bar` that code can hold.
    pub open spec fn wf(self) -> bool {
        Bar::fits(self.spec_kind(), self.spec_base())
    }

    /// A memory-mapped BAR at physical address `base`. `None` when the
    /// register window would wrap around the end of the address space.
    pub fn memory(base: u64) -> (bar: Option<Bar>)
        ensures
            bar is Some <==> Bar::fits(BarKind::Memory, base),
            bar matches Some(b) ==> b.spec_kind() == BarKind::Memory && b.spec_base() == base,
    {
        if base <= u64::MAX - REGISTER_WINDOW {
            Some(Bar { kind: BarKind::Memory, base })
        } else {
            None
        }
    }

    /// An I/O-mapped BAR whose index port is `base`. `None` when the data
    /// port would lie beyond the port space.
    pub fn port(base: u16) -> (bar: Option<Bar>)
        ensures
            bar is Some <==> Bar::fits(BarKind::Port, base as u64),
            bar matches Some(b) ==> b.spec_kind() == BarKind::Port && b.spec_base() == base,
    {
        if base <= u16::MAX - IO_DATA_PORT {
            Some(Bar { kind: BarKind::Port, base: base as u64 })
        } else {
            None
        }
    }

    /// The mapping style.
    pub fn kind(&self) -> (k: BarKind)
        ensures
            k == self.spec_kind(),
    {
        self.kind
    }

    /// The physical base address, or the number of the index port.
    pub fn base(&self) -> (b: u64)
        ensures
            b == self.spec_base(),
            self.wf(),
    {
        proof {
            use_type_invariant(self);
        }
        self.base
    }

    /// The accesses that read the register at `offset`.
    pub open spec fn read_accesses(self, offset: u16) -> RegisterAccess {
        match self.spec_kind() {
            BarKind::Memory => RegisterAccess {
                select: None,
                data: BusAccess::MmioRead { addr: (self.spec_base() + offset) as u64 },
            },
            BarKind::Port => RegisterAccess {
                select: Some(
                    BusAccess::PortOut { port: self.spec_base() as u16, value: offset as u32 },
                ),
                data: BusAccess::PortIn { port: (self.spec_base() + IO_DATA_PORT) as u16 },
            },
        }
    }

    /// The accesses that write `value` to the register at `offset`.
    pub open spec fn write_accesses(self, offset: u16, value: u32) -> RegisterAccess {
        match self.spec_kind() {
            BarKind::Memory => RegisterAccess {
                select: None,
                data: BusAccess::MmioWrite { addr: (self.spec_base() + offset) as u64, value },
            },
            BarKind::Port => RegisterAccess {
                select: Some(
                    BusAccess::PortOut { port: self.spec_base() as u16, value: offset as u32 },
                ),
                data: BusAccess::PortOut {
                    port: (self.spec_base() + IO_DATA_PORT) as u16,
                    value,
                },
            },
        }
    }

    /// Plans a 32-bit read of the register at `offset`. The value that the
    /// `data` access returns is the register's value.
    pub fn read_u32(&self, offset: u16) -> (plan: RegisterAccess)
        ensures
            plan == self.read_accesses(offset),
    {
        proof {
            use_type_invariant(self);
        }
        match self.kind {
            BarKind::Memory => RegisterAccess {
                select: None,
                data: BusAccess::MmioRead { addr: self.base + offset as u64 },
            },
            BarKind::Port => {
                let index: u16 = self.base as u16;
                RegisterAccess {
                    select: Some(BusAccess::PortOut { port: index, value: offset as u32 }),
                    data: BusAccess::PortIn { port: index + IO_DATA_PORT },
                }
            },
        }
    }

    /// Plans a 32-bit write of `value` to the register at `offset`.
    pub fn write_u32(&self, offset: u16, value: u32) -> (plan: RegisterAccess)
        ensures
            plan == self.write_accesses(offset, value),
    {
        proof {
            use_type_invariant(self);
        }
        match self.kind {
            BarKind::Memory => RegisterAccess {
                select: None,
                data: BusAccess::MmioWrite { addr: self.base + offset as u64, value },
            },
            BarKind::Port => {
                let index: u16 = self.base as u16;
                RegisterAccess {
                    select: Some(BusAccess::PortOut { port: index, value: offset as u32 }),
                    data: BusAccess::PortOut { port: index + IO_DATA_PORT, value },
                }
            },
        }
    }
}

} // verus!
