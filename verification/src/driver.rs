//! The driver binding: which devices the driver takes, and what it does
//! when one is plugged in or pulled out.

use vstd::prelude::*;
use crate::bringup::{probe, Construction};
use crate::model::{NicError, NicModel, PciDevice};
use crate::nic::{Disable, NIC};
use crate::platform::{Command, Next, Query, Step};

verus! {

/// Vendor identifier of Intel.
pub const VENDOR_INTEL: u16 = 0x8086;

/// Device identifier of the emulated 82540EM.
pub const DEVICE_EMU: u16 = 0x100e;

/// Whether the driver takes devices with these identifiers.
pub open spec fn supported(vendor_id: u16, device_id: u16) -> bool {
    vendor_id == VENDOR_INTEL && device_id == DEVICE_EMU
}

/// What the driver does about a device that was plugged in.
pub enum PlugAction {
    /// Not one of ours: nothing happens.
    Ignore,
    /// Construct a card; the construction is to be run to its end and its
    /// result handed to `on_constructed`.
    Construct(Construction),
    /// The device is one of ours but cannot be driven: log the error and
    /// leave the device alone.
    Report(NicError),
}

/// What the driver does with the result of a construction.
pub enum Attachment {
    /// Attach the card to the network stack.
    Attach(NIC),
    /// Log the error and leave the device alone.
    Report(NicError),
}

/// What `on_plug` decides for `dev`.
pub open spec fn plug_decision(dev: PciDevice, action: PlugAction) -> bool {
    if !supported(dev.vendor_id, dev.device_id) {
        action is Ignore
    } else {
        match probe(dev) {
            Ok(model) => action matches PlugAction::Construct(c) && c@ == model,
            Err(e) => action == PlugAction::Report(e),
        }
    }
}

/// The driver for e1000 network cards.
pub struct E1000Driver {}

impl E1000Driver {
    /// Creates the driver and lets it look at every device that is already
    /// present: the result holds, for each of `present` in turn, what
    /// `on_plug` decides for it.
    pub fn new(present: &[PciDevice]) -> (r: (E1000Driver, Vec<PlugAction>))
        ensures
            r.1@.len() == present@.len(),
            forall|i: int| 0 <= i < present@.len() ==> plug_decision(present@[i], #[trigger] r.1@[i]),
    {
        let driver = E1000Driver {};
        let mut actions: Vec<PlugAction> = Vec::new();
        let mut i: usize = 0;
        while i < present.len()
            invariant
                i <= present@.len(),
                actions@.len() == i,
                forall|j: int| 0 <= j < i ==> plug_decision(present@[j], #[trigger] actions@[j]),
            decreases present@.len() - i,
        {
            let action = driver.on_plug(&present[i]);
            actions.push(action);
            i = i + 1;
        }
        (driver, actions)
    }

    /// The name under which the driver registers.
    pub fn get_name(&self) -> (name: &'static str)
        ensures
            name@ == "e1000"@,
    {
        "e1000"
    }

    /// Decides what to do about the device `dev` that was plugged in.
    ///
    /// A device of another vendor or of an unknown model is ignored. For
    /// one of ours a construction begins, unless the device lacks what a
    /// construction needs: then the error is reported.
    pub fn on_plug(&self, dev: &PciDevice) -> (action: PlugAction)
        ensures
            plug_decision(*dev, action),
    {
        if dev.vendor_id != VENDOR_INTEL {
            return PlugAction::Ignore;
        }
        if dev.device_id == DEVICE_EMU {
            match NIC::new(dev) {
                Ok(construction) => PlugAction::Construct(construction),
                Err(e) => PlugAction::Report(e),
            }
        } else {
            PlugAction::Ignore
        }
    }

    /// Decides what to do with the result of a construction: a card is
    /// attached to the network stack, an error is reported.
    pub fn on_constructed(&self, result: Result<NIC, NicError>) -> (a: Attachment)
        ensures
            match result {
                Ok(nic) => a matches Attachment::Attach(n) && n@ == nic@,
                Err(e) => a == Attachment::Report(e),
            },
    {
        match result {
            Ok(nic) => Attachment::Attach(nic),
            Err(e) => Attachment::Report(e),
        }
    }

    /// Begins taking down the card `nic` whose device was pulled out. The
    /// card must have been detached from the network stack.
    pub fn on_unplug(&self, nic: NIC) -> (u: Unplug)
        ensures
            u@ == (UnplugModel { nic: nic@, stage: Disable::Rctl }),
    {
        let stage = nic.disable();
        Unplug { nic, stage }
    }
}

/// Taking down a card, as contracts speak of it.
pub struct UnplugModel {
    /// The card that is taken down.
    pub nic: NicModel,
    /// How far switching off the engines has come.
    pub stage: Disable,
}

impl UnplugModel {
    /// The register read whose answer the next step takes.
    pub open spec fn awaits(self) -> Query {
        self.stage.awaits()
    }

    /// The commands that a step makes when the pending read answered
    /// `word`: the control word with the enable bit cleared, and, once
    /// both engines are off, the release of the card's memory.
    pub open spec fn commands_on(self, word: u32) -> Seq<Command> {
        match self.stage {
            Disable::Rctl => self.stage.commands_on(word),
            Disable::Tctl => self.stage.commands_on(word) + self.nic.memory.release_commands(),
        }
    }

    /// Where taking down the card stands after a step.
    pub open spec fn next_on(self) -> Next<UnplugModel, ()> {
        match self.stage {
            Disable::Rctl => Next::Continue(UnplugModel { stage: Disable::Tctl, ..self }),
            Disable::Tctl => Next::Done(()),
        }
    }
}

/// Taking down a card, in progress.
pub struct Unplug {
    nic: NIC,
    stage: Disable,
}

impl View for Unplug {
    type V = UnplugModel;

    closed spec fn view(&self) -> UnplugModel {
        UnplugModel { nic: self.nic@, stage: self.stage }
    }
}

/// Whether `next`, as a step of taking down a card returned it, is what
/// the model says.
pub open spec fn unplug_agrees(next: Next<Unplug, ()>, model: Next<UnplugModel, ()>) -> bool {
    match (next, model) {
        (Next::Continue(a), Next::Continue(b)) => a@ == b,
        (Next::Done(_), Next::Done(_)) => true,
        _ => false,
    }
}

impl Unplug {
    /// The register read to perform next.
    pub fn pending(&self) -> (q: Query)
        ensures
            q == self@.awaits(),
    {
        self.stage.pending()
    }

    /// The card that is taken down.
    pub fn nic(&self) -> (nic: &NIC)
        ensures
            nic@ == self@.nic,
    {
        &self.nic
    }

    /// Takes the value `word` that the pending register read returned.
    pub fn step(self, word: u32) -> (s: Step<Unplug, ()>)
        ensures
            s.commands@ == self@.commands_on(word),
            unplug_agrees(s.next, self@.next_on()),
    {
        let Unplug { nic, stage } = self;
        let inner = stage.step(word);
        let mut commands = inner.commands;
        match inner.next {
            Next::Continue(stage) => Step { commands, next: Next::Continue(Unplug { nic, stage }) },
            Next::Done(_) => {
                let mut frees = nic.release();
                commands.append(&mut frees);
                Step { commands, next: Next::Done(()) }
            },
        }
    }
}

} // verus!
