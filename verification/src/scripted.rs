//! A line and a wire without hardware: the line remembers what it was driven
//! to, the wire answers from a script and remembers every exchange.

use vstd::prelude::*;
use crate::wire::{Line, Wire};

verus! {

/// What a scripted wire answers once its script has run out.
pub const IDLE: u8 = 0xFF;

/// The reply to exchange number `at` on a wire that answers from `script`.
pub open spec fn scripted_reply(script: Seq<u8>, at: nat) -> u8 {
    if at < script.len() {
        script[at as int]
    } else {
        IDLE
    }
}

/// An output line that only remembers the levels it was driven to.
pub struct RecordingLine {
    levels: Vec<bool>,
}

impl RecordingLine {
    /// A line that has not been driven yet.
    pub fn new() -> (line: Self)
        ensures
            line.driven() == Seq::<bool>::empty(),
    {
        RecordingLine { levels: Vec::new() }
    }

    /// The levels the line was driven to, oldest first.
    pub fn levels(&self) -> (levels: &Vec<bool>)
        ensures
            levels@ == self.driven(),
    {
        &self.levels
    }
}

impl Line for RecordingLine {
    closed spec fn driven(&self) -> Seq<bool> {
        self.levels@
    }

    fn set_high(&mut self) {
        self.levels.push(true);
    }

    fn set_low(&mut self) {
        self.levels.push(false);
    }
}

/// What a wire that answers from `script` has exchanged once the bytes of
/// `outgoing` have been clocked out on it.
pub open spec fn replayed(outgoing: Seq<u8>, script: Seq<u8>) -> Seq<(u8, u8)> {
    Seq::new(outgoing.len(), |i: int| (outgoing[i], scripted_reply(script, i as nat)))
}

/// A serial wire that answers exchange after exchange from a script, then
/// with [`IDLE`], and remembers what was clocked out on it.
pub struct ScriptedWire {
    replies: Vec<u8>,
    sent: Vec<u8>,
}

impl ScriptedWire {
    /// The replies the wire was given.
    pub closed spec fn script(&self) -> Seq<u8> {
        self.replies@
    }

    /// The bytes clocked out so far, oldest first.
    pub closed spec fn outgoing(&self) -> Seq<u8> {
        self.sent@
    }

    /// A wire that will answer with `replies` and has exchanged nothing yet.
    pub fn new(replies: Vec<u8>) -> (wire: Self)
        ensures
            wire.script() == replies@,
            wire.outgoing() == Seq::<u8>::empty(),
            wire.exchanged() == Seq::<(u8, u8)>::empty(),
    {
        ScriptedWire { replies, sent: Vec::new() }
    }

    /// The bytes clocked out so far, oldest first.
    pub fn sent(&self) -> (sent: &Vec<u8>)
        ensures
            sent@ == self.outgoing(),
    {
        &self.sent
    }
}

impl Wire for ScriptedWire {
    /// Each byte clocked out, with the reply that the script had for it.
    open spec fn exchanged(&self) -> Seq<(u8, u8)> {
        replayed(self.outgoing(), self.script())
    }

    fn exchange(&mut self, out: u8) -> (back: u8)
        ensures
            back == scripted_reply(old(self).script(), old(self).outgoing().len()),
            final(self).script() == old(self).script(),
            final(self).outgoing() == old(self).outgoing().push(out),
    {
        let at = self.sent.len();
        let back = if at < self.replies.len() {
            self.replies[at]
        } else {
            IDLE
        };
        self.sent.push(out);
        back
    }
}

} // verus!
