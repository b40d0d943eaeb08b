//! Board support traits: a chip-select line and a byte-wide serial bus.
//!
//! Both traits carry a ghost record of what has happened on the wire, so that
//! the contracts of the bulk operations can say which bytes went out, in
//! which order, and how the chip-select line moved around them.

use vstd::prelude::*;

verus! {

/// One byte clocked out and the byte clocked in at the same time.
pub struct Exchange {
    /// The byte driven onto the bus.
    pub sent: u8,
    /// The byte read back while `sent` went out.
    pub received: u8,
    /// Whether the chip-select line was asserted during the exchange.
    pub selected: bool,
}

/// Why a bulk operation gave up.
#[derive(Debug, Clone, Copy, PartialEq, Eq, Structural)]
pub enum BusError {
    /// The receive buffer is too small for the bytes that were sent.
    ReceiveBufferTooSmall,
}

/// The level a line rests at after being driven through `history`.
/// A line that was never driven counts as deasserted.
pub open spec fn asserted(history: Seq<bool>) -> bool {
    history.len() > 0 && history.last()
}

/// `after` is `before` followed by exactly one assertion and one deassertion.
pub open spec fn bracketed(before: Seq<bool>, after: Seq<bool>) -> bool {
    after == before.push(true).push(false)
}

/// How many times `history` drives the line to `level`.
pub open spec fn times_driven(history: Seq<bool>, level: bool) -> nat
    decreases history.len(),
{
    if history.len() == 0 {
        0
    } else {
        times_driven(history.drop_last(), level) + if history.last() == level {
            1nat
        } else {
            0nat
        }
    }
}

/// The exchanges that `after` holds beyond those of `before`.
pub open spec fn appended(before: Seq<Exchange>, after: Seq<Exchange>) -> Seq<Exchange>
    recommends
        before.is_prefix_of(after),
{
    after.skip(before.len() as int)
}

/// The bytes driven onto the bus, in order.
pub open spec fn sent_bytes(log: Seq<Exchange>) -> Seq<u8> {
    Seq::new(log.len(), |i: int| log[i].sent)
}

/// The bytes read back from the bus, in order.
pub open spec fn received_bytes(log: Seq<Exchange>) -> Seq<u8> {
    Seq::new(log.len(), |i: int| log[i].received)
}

/// Every exchange of `log` happened with the chip-select line asserted.
pub open spec fn all_selected(log: Seq<Exchange>) -> bool {
    forall|i: int| 0 <= i < log.len() ==> (#[trigger] log[i]).selected
}

/// `n` filler bytes, as sent while only the reply matters.
pub open spec fn filler(n: nat) -> Seq<u8> {
    Seq::new(n, |i: int| 0u8)
}

/// How many bytes of a `len`-byte buffer `transact` exchanges when its output
/// may hold `capacity` bytes: all of them if they fit, otherwise one more than
/// fits, the one whose reply finds no room.
pub open spec fn transacted(len: nat, capacity: nat) -> nat {
    if len <= capacity {
        len
    } else {
        capacity + 1
    }
}

/// A single digital output line.
pub trait Pin {
    /// Every level the line has been driven to, oldest first.
    spec fn history(&self) -> Seq<bool>;

    /// Drives the line high when `on` is true, low otherwise.
    fn set_asserted(&mut self, on: bool)
        ensures
            final(self).history() == old(self).history().push(on),
    ;
}

/// A serial bus that exchanges one byte at a time and owns its chip-select line.
pub trait Spibus<PinType> where PinType: Pin {
    /// The chip-select line as it stands.
    spec fn cs(&self) -> PinType;

    /// Every exchange made on the bus, oldest first.
    spec fn log(&self) -> Seq<Exchange>;

    /// Sends `input` and returns the byte received in its place. The
    /// chip-select line is left alone.
    fn transfer(&mut self, input: u8) -> (output: u8)
        ensures
            final(self).cs() == old(self).cs(),
            final(self).log() == old(self).log().push(
                (Exchange {
                    sent: input,
                    received: output,
                    selected: asserted(old(self).cs().history()),
                }),
            ),
    ;

    /// Lends out the chip-select line. Whatever the borrower does to the
    /// line is what the bus then holds; the bus itself stays idle.
    fn cs_pin(&mut self) -> (pin: &mut PinType)
        ensures
            *pin == old(self).cs(),
            final(self).cs() == *final(pin),
            final(self).log() == old(self).log(),
    ;

    /// Sends `buffer` in order within one chip-select bracket, ignoring
    /// what comes back.
    fn tx(&mut self, buffer: &[u8])
        ensures
            bracketed(old(self).cs().history(), final(self).cs().history()),
            old(self).log().is_prefix_of(final(self).log()),
            all_selected(appended(old(self).log(), final(self).log())),
            sent_bytes(appended(old(self).log(), final(self).log())) == buffer@,
    {
        let ghost before = self.log();
        self.cs_pin().set_asserted(true);
        let mut i: usize = 0;
        while i < buffer.len()
            invariant
                i <= buffer@.len(),
                self.cs().history() == old(self).cs().history().push(true),
                before.is_prefix_of(self.log()),
                self.log().len() == before.len() + i,
                all_selected(appended(before, self.log())),
                sent_bytes(appended(before, self.log())) == buffer@.take(i as int),
            decreases buffer@.len() - i,
        {
            let ghost so_far = self.log();
            self.transfer(buffer[i]);
            proof {
                lemma_appended_push(before, so_far, self.log());
            }
            i += 1;
        }
        self.cs_pin().set_asserted(false);
    }

    /// Fills `buffer` in order with the bytes received while sending one
    /// filler byte for each, within one chip-select bracket.
    fn rx(&mut self, buffer: &mut [u8])
        ensures
            bracketed(old(self).cs().history(), final(self).cs().history()),
            old(self).log().is_prefix_of(final(self).log()),
            all_selected(appended(old(self).log(), final(self).log())),
            sent_bytes(appended(old(self).log(), final(self).log())) == filler(old(buffer)@.len()),
            final(buffer)@ == received_bytes(appended(old(self).log(), final(self).log())),
    {
        let ghost before = self.log();
        self.cs_pin().set_asserted(true);
        let mut i: usize = 0;
        while i < buffer.len()
            invariant
                i <= buffer@.len(),
                buffer@.len() == old(buffer)@.len(),
                self.cs().history() == old(self).cs().history().push(true),
                before.is_prefix_of(self.log()),
                self.log().len() == before.len() + i,
                all_selected(appended(before, self.log())),
                sent_bytes(appended(before, self.log())) == filler(i as nat),
                buffer@.take(i as int) == received_bytes(appended(before, self.log())),
            decreases buffer@.len() - i,
        {
            let ghost so_far = self.log();
            let ghost filled = buffer@;
            buffer[i] = self.transfer(0);
            proof {
                lemma_appended_push(before, so_far, self.log());
                assert(buffer@.take(i + 1) == filled.take(i as int).push(buffer@[i as int]));
            }
            i += 1;
        }
        self.cs_pin().set_asserted(false);
    }

    /// Sends `buffer` in order within one chip-select bracket and returns the
    /// bytes received, one for each byte sent, provided that `capacity` bytes
    /// of output are enough to hold them. Where they are not, the exchange
    /// stops at the first reply that finds no room, the chip-select line is
    /// released, and the sizing error is returned.
    fn transact(&mut self, buffer: &[u8], capacity: usize) -> (result: Result<Vec<u8>, BusError>)
        ensures
            bracketed(old(self).cs().history(), final(self).cs().history()),
            old(self).log().is_prefix_of(final(self).log()),
            all_selected(appended(old(self).log(), final(self).log())),
            sent_bytes(appended(old(self).log(), final(self).log())) == buffer@.take(
                transacted(buffer@.len(), capacity as nat) as int,
            ),
            match result {
                Ok(recv) => buffer@.len() <= capacity && recv@ == received_bytes(
                    appended(old(self).log(), final(self).log()),
                ),
                Err(e) => buffer@.len() > capacity && e == BusError::ReceiveBufferTooSmall,
            },
    {
        let ghost before = self.log();
        // Never reserve more than the replies can fill.
        let room: usize = if capacity < buffer.len() {
            capacity
        } else {
            buffer.len()
        };
        let mut recv: Vec<u8> = Vec::with_capacity(room);
        let mut overflow = false;
        self.cs_pin().set_asserted(true);
        let mut i: usize = 0;
        while i < buffer.len()
            invariant_except_break
                !overflow,
                i <= capacity,
                recv@ == received_bytes(appended(before, self.log())),
            invariant
                i <= buffer@.len(),
                self.cs().history() == old(self).cs().history().push(true),
                before.is_prefix_of(self.log()),
                self.log().len() == before.len() + i,
                all_selected(appended(before, self.log())),
                sent_bytes(appended(before, self.log())) == buffer@.take(i as int),
            ensures
                overflow ==> buffer@.len() > capacity && i == capacity + 1,
                !overflow ==> i == buffer@.len() && i <= capacity && recv@ == received_bytes(
                    appended(before, self.log()),
                ),
            decreases buffer@.len() - i,
        {
            let ghost so_far = self.log();
            let byte = self.transfer(buffer[i]);
            proof {
                lemma_appended_push(before, so_far, self.log());
            }
            i += 1;
            if recv.len() >= capacity {
                overflow = true;
                break ;
            }
            recv.push(byte);
        }
        self.cs_pin().set_asserted(false);
        if overflow {
            Err(BusError::ReceiveBufferTooSmall)
        } else {
            Ok(recv)
        }
    }
}

/// Pushing one exchange onto a log that extends `before` extends what was
/// appended to `before` by that exchange.
pub proof fn lemma_appended_push(before: Seq<Exchange>, mid: Seq<Exchange>, after: Seq<Exchange>)
    requires
        before.is_prefix_of(mid),
        after.len() == mid.len() + 1,
        mid.is_prefix_of(after),
    ensures
        before.is_prefix_of(after),
        appended(before, after) == appended(before, mid).push(after.last()),
        sent_bytes(appended(before, after)) == sent_bytes(appended(before, mid)).push(
            after.last().sent,
        ),
        received_bytes(appended(before, after)) == received_bytes(appended(before, mid)).push(
            after.last().received,
        ),
{
    assert(appended(before, after) =~= appended(before, mid).push(after.last()));
    assert(sent_bytes(appended(before, after)) =~= sent_bytes(appended(before, mid)).push(
        after.last().sent,
    ));
    assert(received_bytes(appended(before, after)) =~= received_bytes(
        appended(before, mid),
    ).push(after.last().received));
}

/// Across one bracket the chip-select line is asserted exactly once and
/// deasserted exactly once, in that order, and is left deasserted.
pub proof fn lemma_bracket_drives_once(before: Seq<bool>, after: Seq<bool>)
    requires
        bracketed(before, after),
    ensures
        before.is_prefix_of(after),
        after.len() == before.len() + 2,
        after[before.len() as int] && !after[(before.len() + 1) as int],
        times_driven(after, true) == times_driven(before, true) + 1,
        times_driven(after, false) == times_driven(before, false) + 1,
        !asserted(after),
{
    let held = before.push(true);
    assert(held.drop_last() == before);
    assert(after.drop_last() == held);
    assert(times_driven(held, true) == times_driven(before, true) + 1);
    assert(times_driven(held, false) == times_driven(before, false));
}

/// What was appended in two stretches is the first stretch followed by the
/// second.
pub proof fn lemma_appended_chain(before: Seq<Exchange>, mid: Seq<Exchange>, after: Seq<Exchange>)
    requires
        before.is_prefix_of(mid),
        mid.is_prefix_of(after),
    ensures
        before.is_prefix_of(after),
        appended(before, after) == appended(before, mid) + appended(mid, after),
{
    assert(appended(before, after) =~= appended(before, mid) + appended(mid, after));
}

} // verus!
