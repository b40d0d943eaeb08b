//! Hardware behind the board support traits.
//!
//! A platform hands over an output line and a serial wire. Each keeps its
//! own record of the calls made on it, and the contracts of [`Line`] and
//! [`Wire`] define that record: one entry for each call, in order.
//! [`TracedPin`] and [`TracedBus`] put a line and a wire behind [`Pin`] and
//! [`Spibus`]; what they report of the chip-select line and of the bus is
//! read off the records of the line and the wire they hold.

use vstd::prelude::*;
use crate::bsp::{asserted, Exchange, Pin, Spibus};

verus! {

/// A digital output as the platform provides it.
pub trait Line {
    /// Every level the line has been driven to, oldest first.
    ///
    /// A verified implementation says here where it keeps that record. One
    /// written outside the verifier cannot, and is left with this empty
    /// stand-in; its author answers for the contracts below.
    open spec fn driven(&self) -> Seq<bool> {
        Seq::empty()
    }

    /// Drives the line high.
    fn set_high(&mut self)
        ensures
            final(self).driven() == old(self).driven().push(true),
    ;

    /// Drives the line low.
    fn set_low(&mut self)
        ensures
            final(self).driven() == old(self).driven().push(false),
    ;
}

/// A full-duplex serial wire as the platform provides it.
pub trait Wire {
    /// Every exchange made on the wire, oldest first: the byte clocked out
    /// and the byte clocked in.
    ///
    /// A verified implementation says here where it keeps that record. One
    /// written outside the verifier cannot, and is left with this empty
    /// stand-in; its author answers for the contract below.
    open spec fn exchanged(&self) -> Seq<(u8, u8)> {
        Seq::empty()
    }

    /// Clocks `out` onto the wire and returns the byte clocked in meanwhile.
    fn exchange(&mut self, out: u8) -> (back: u8)
        ensures
            final(self).exchanged() == old(self).exchanged().push((out, back)),
    ;
}

/// The record of a wire as a bus log: exchange `i` counts as selected where
/// `selection` says so, and as unselected where `selection` is silent.
pub open spec fn logged(record: Seq<(u8, u8)>, selection: Seq<bool>) -> Seq<Exchange> {
    Seq::new(
        record.len(),
        |i: int|
            Exchange {
                sent: record[i].0,
                received: record[i].1,
                selected: i < selection.len() && selection[i],
            },
    )
}

/// The part of a wire's record from exchange number `since` on.
pub open spec fn taken_from(record: Seq<(u8, u8)>, since: nat) -> Seq<(u8, u8)> {
    if since <= record.len() {
        record.skip(since as int)
    } else {
        Seq::empty()
    }
}

/// An output line as a pin: asserting the pin drives the line high.
pub struct TracedPin<L: Line> {
    line: L,
}

impl<L: Line> TracedPin<L> {
    /// The line behind this pin.
    pub closed spec fn line(&self) -> L {
        self.line
    }

    /// Takes over `line` with the record it comes with.
    pub fn new(line: L) -> (pin: Self)
        ensures
            pin.line() == line,
            pin.history() == line.driven(),
    {
        TracedPin { line }
    }

    /// Gives the line back.
    pub fn release(self) -> (line: L)
        ensures
            line == self.line(),
    {
        self.line
    }
}

impl<L: Line> Pin for TracedPin<L> {
    /// The levels that the line behind the pin has been driven to.
    open spec fn history(&self) -> Seq<bool> {
        self.line().driven()
    }

    fn set_asserted(&mut self, on: bool)
        ensures
            final(self).line().driven() == old(self).line().driven().push(on),
    {
        if on {
            self.line.set_high();
        } else {
            self.line.set_low();
        }
    }
}

/// A serial wire with its chip-select line.
pub struct TracedBus<W: Wire, L: Line> {
    wire: W,
    select: TracedPin<L>,
    since: Ghost<nat>,
    selection: Ghost<Seq<bool>>,
}

impl<W: Wire, L: Line> TracedBus<W, L> {
    /// The wire behind this bus.
    pub closed spec fn wire(&self) -> W {
        self.wire
    }

    /// Where on the record of its wire the log of the bus begins: at the
    /// number of exchanges the wire had made when the bus took it over.
    pub closed spec fn since(&self) -> nat {
        self.since@
    }

    /// For each exchange that went through this bus, whether the chip-select
    /// line was asserted at the time.
    pub closed spec fn selection(&self) -> Seq<bool> {
        self.selection@
    }

    /// Joins `wire` and its chip-select `line` into a bus on which nothing
    /// has happened yet: what the wire exchanged before is not the bus's.
    pub fn new(wire: W, line: L) -> (bus: Self)
        ensures
            bus.wire() == wire,
            bus.since() == wire.exchanged().len(),
            bus.selection() == Seq::<bool>::empty(),
            bus.cs().line() == line,
            bus.cs().history() == line.driven(),
            bus.log() == Seq::<Exchange>::empty(),
    {
        let ghost since = wire.exchanged().len();
        TracedBus {
            wire,
            select: TracedPin::new(line),
            since: Ghost(since),
            selection: Ghost(Seq::empty()),
        }
    }

    /// Takes the bus apart again.
    pub fn release(self) -> (parts: (W, L))
        ensures
            parts.0 == self.wire(),
            parts.1 == self.cs().line(),
    {
        (self.wire, self.select.release())
    }
}

impl<W: Wire, L: Line> Spibus<TracedPin<L>> for TracedBus<W, L> {
    closed spec fn cs(&self) -> TracedPin<L> {
        self.select
    }

    /// What the wire behind the bus has exchanged since the bus took it
    /// over, each exchange with the state of the chip-select line at its
    /// time.
    open spec fn log(&self) -> Seq<Exchange> {
        logged(taken_from(self.wire().exchanged(), self.since()), self.selection())
    }

    fn transfer(&mut self, input: u8) -> (output: u8)
        ensures
            final(self).wire().exchanged() == old(self).wire().exchanged().push((input, output)),
    {
        let ghost before = self.log();
        let ghost record = self.wire.exchanged();
        let output = self.wire.exchange(input);
        proof {
            // A log that begins beyond the record begins at its end.
            if self.since@ > record.len() {
                self.since@ = record.len();
            }
            // Exchanges on which the selection was silent are unselected,
            // and stay so once it has grown past them.
            self.selection@ = Seq::new(before.len(), |i: int| before[i].selected).push(
                asserted(self.select.history()),
            );
            assert(self.log() =~= before.push(
                Exchange {
                    sent: input,
                    received: output,
                    selected: asserted(self.select.history()),
                },
            ));
        }
        output
    }

    fn cs_pin(&mut self) -> (pin: &mut TracedPin<L>)
        ensures
            final(self).wire() == old(self).wire(),
            final(self).since() == old(self).since(),
            final(self).selection() == old(self).selection(),
    {
        &mut self.select
    }
}

} // verus!
