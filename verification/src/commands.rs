//! Command frames and the decoding of their two-byte responses.

use vstd::prelude::*;
use crate::bsp::{
    all_selected, appended, asserted, bracketed, filler, lemma_appended_chain, received_bytes,
    sent_bytes, Pin, Spibus,
};
use crate::crc7::{checksum, crc7, lemma_checksum_range};

verus! {

/// Type code of the DMA write command.
pub const CMD_DMA_WRITE: u8 = 0xC1;

/// Type code of the DMA read command.
pub const CMD_DMA_READ: u8 = 0xC2;

/// Type code of the internal register write command.
pub const CMD_REGISTER_INTERNAL_WRITE: u8 = 0xC3;

/// Type code of the internal register read command.
pub const CMD_REGISTER_INTERNAL_READ: u8 = 0xC4;

/// Type code of the command that ends a transaction.
pub const CMD_TRANSACTION_TERMINATE: u8 = 0xC5;

/// Type code of the command that asks for the last data packet again.
pub const CMD_REPEAT_DATA_PACKET: u8 = 0xC6;

/// Type code of the extended DMA write command.
pub const CMD_DMA_EXTENDED_WRITE: u8 = 0xC7;

/// Type code of the extended DMA read command.
pub const CMD_DMA_EXTENDED_READ: u8 = 0xC8;

/// Type code of the single word write command.
pub const CMD_SINGLE_WORD_WRITE: u8 = 0xC9;

/// Type code of the single word read command.
pub const CMD_SINGLE_WORD_READ: u8 = 0xCA;

/// Type code of the soft reset command.
pub const CMD_SOFT_RESET: u8 = 0xCF;

/// Payload length of the shortest frames: a type code and three more bytes.
/// Single word read, internal register read, terminate, repeat and reset.
pub const LEN_COMMAND_A: u8 = 4;

/// Payload length of the DMA write and DMA read frames.
pub const LEN_COMMAND_B: u8 = 6;

/// Payload length of the internal register write and the extended DMA frames.
pub const LEN_COMMAND_C: u8 = 7;

/// Payload length of the single word write frame.
pub const LEN_COMMAND_D: u8 = 8;

/// What a response says of the command it answers.
#[derive(Debug, Clone, Copy, PartialEq, Eq, Structural)]
pub enum CommandError {
    /// The command was taken.
    ErrNone,
    /// The co-processor does not know the command.
    ErrUnsupportedCommand,
    /// The co-processor received data it did not expect.
    ErrUnexpectedData,
    /// The checksum of the command frame did not match.
    ErrCmdCrc7Error,
    /// The checksum of a data packet did not match.
    ErrDataCrc7Error,
    /// The co-processor failed internally.
    ErrInternalError,
    /// The response answers another command. Specific to this driver.
    ErrCommandMismatch,
    /// The response carries a code that stands for nothing; the code is kept.
    ErrUnknownCode(u8),
}

impl CommandError {
    /// Whether `value` is the code of one of the named outcomes.
    pub open spec fn is_defined(value: u8) -> bool {
        value <= 0x05 || value == 0xF0
    }

    /// The outcome that `value` stands for.
    pub open spec fn of_code(value: u8) -> CommandError {
        if value == 0x00 {
            CommandError::ErrNone
        } else if value == 0x01 {
            CommandError::ErrUnsupportedCommand
        } else if value == 0x02 {
            CommandError::ErrUnexpectedData
        } else if value == 0x03 {
            CommandError::ErrCmdCrc7Error
        } else if value == 0x04 {
            CommandError::ErrDataCrc7Error
        } else if value == 0x05 {
            CommandError::ErrInternalError
        } else if value == 0xF0 {
            CommandError::ErrCommandMismatch
        } else {
            CommandError::ErrUnknownCode(value)
        }
    }

    /// The code that stands for this outcome.
    pub open spec fn code_of(self) -> u8 {
        match self {
            CommandError::ErrNone => 0x00,
            CommandError::ErrUnsupportedCommand => 0x01,
            CommandError::ErrUnexpectedData => 0x02,
            CommandError::ErrCmdCrc7Error => 0x03,
            CommandError::ErrDataCrc7Error => 0x04,
            CommandError::ErrInternalError => 0x05,
            CommandError::ErrCommandMismatch => 0xF0,
            CommandError::ErrUnknownCode(value) => value,
        }
    }

    /// An unknown code is never one that has a name.
    pub open spec fn wf(self) -> bool {
        self matches CommandError::ErrUnknownCode(value) ==> !Self::is_defined(value)
    }

    /// Decodes `value`. A value that stands for nothing is handed back as
    /// [`CommandError::ErrUnknownCode`].
    pub fn from_u8(value: u8) -> (error: CommandError)
        ensures
            error == Self::of_code(value),
            error.wf(),
            error.code_of() == value,
            error is ErrUnknownCode <==> !Self::is_defined(value),
    {
        match value {
            0x00 => CommandError::ErrNone,
            0x01 => CommandError::ErrUnsupportedCommand,
            0x02 => CommandError::ErrUnexpectedData,
            0x03 => CommandError::ErrCmdCrc7Error,
            0x04 => CommandError::ErrDataCrc7Error,
            0x05 => CommandError::ErrInternalError,
            0xF0 => CommandError::ErrCommandMismatch,
            _ => CommandError::ErrUnknownCode(value),
        }
    }

    /// The code that stands for this outcome.
    pub fn code(&self) -> (value: u8)
        ensures
            value == self.code_of(),
    {
        match self {
            CommandError::ErrNone => 0x00,
            CommandError::ErrUnsupportedCommand => 0x01,
            CommandError::ErrUnexpectedData => 0x02,
            CommandError::ErrCmdCrc7Error => 0x03,
            CommandError::ErrDataCrc7Error => 0x04,
            CommandError::ErrInternalError => 0x05,
            CommandError::ErrCommandMismatch => 0xF0,
            CommandError::ErrUnknownCode(value) => *value,
        }
    }
}

/// Decoding the code of a well-formed outcome gives the outcome back.
pub proof fn lemma_code_round_trip(error: CommandError)
    requires
        error.wf(),
    ensures
        CommandError::of_code(error.code_of()) == error,
{
}

/// The operations that the co-processor understands.
#[derive(Debug, Clone, Copy, PartialEq, Eq, Structural)]
pub enum Command {
    DmaWrite,
    DmaRead,
    RegisterInternalWrite,
    RegisterInternalRead,
    TransactionTerminate,
    RepeatDataPacket,
    DmaExtendedWrite,
    DmaExtendedRead,
    SingleWordWrite,
    SingleWordRead,
    SoftReset,
}

/// The byte that closes a frame whose checksum is `crc`: the checksum in
/// bits 1 to 7 above a bit 0 that is always set.
pub open spec fn trailer_of(crc: u8) -> u8 {
    (crc << 1) | 0x01
}

/// What goes onto the bus for `payload`: the payload, followed by the
/// trailer of its checksum where checksums are enabled.
pub open spec fn frame_of(payload: Seq<u8>, crc: bool) -> Seq<u8> {
    if crc {
        payload.push(trailer_of(checksum(payload)))
    } else {
        payload
    }
}

/// What the two bytes of `reply` say to a command of type `type_code`:
/// a reply to another command is a mismatch whatever else it holds;
/// otherwise the low half of the second byte is the outcome.
pub open spec fn outcome_of(type_code: u8, reply: Seq<u8>) -> Result<bool, CommandError>
    recommends
        reply.len() == 2,
{
    if reply[0] != type_code {
        Err(CommandError::ErrCommandMismatch)
    } else if reply[1] & 0x0F == 0 {
        Ok(true)
    } else {
        Err(CommandError::of_code(reply[1] & 0x0F))
    }
}

/// No two commands share a type code.
pub proof fn lemma_type_codes_distinct(a: Command, b: Command)
    ensures
        a.type_code_of() == b.type_code_of() ==> a == b,
        0xC1 <= a.type_code_of() <= 0xCF,
{
}

/// Packs the checksum `crc` into the byte that closes a frame.
pub fn trailer(crc: u8) -> (byte: u8)
    ensures
        byte == trailer_of(crc),
{
    (crc << 1) | 0x01
}

/// In the trailer of a frame bit 0 is set and bits 1 to 7 are the checksum
/// of the payload.
pub proof fn lemma_trailer_holds_checksum(payload: Seq<u8>)
    ensures
        trailer_of(checksum(payload)) & 0x01 == 0x01,
        trailer_of(checksum(payload)) >> 1 == checksum(payload),
        frame_of(payload, true).len() == payload.len() + 1,
        frame_of(payload, true).last() == trailer_of(checksum(payload)),
        frame_of(payload, true).drop_last() == payload,
        frame_of(payload, false) == payload,
{
    let crc = checksum(payload);
    lemma_checksum_range(payload);
    assert(((crc << 1) | 0x01) & 0x01 == 0x01) by (bit_vector);
    assert(((crc << 1) | 0x01) >> 1 == crc) by (bit_vector)
        requires
            crc < 0x80,
    ;
    assert(payload.push(trailer_of(crc)).drop_last() == payload);
}

impl Command {
    /// The byte that opens every frame and every response of this command.
    pub open spec fn type_code_of(self) -> u8 {
        match self {
            Command::DmaWrite => CMD_DMA_WRITE,
            Command::DmaRead => CMD_DMA_READ,
            Command::RegisterInternalWrite => CMD_REGISTER_INTERNAL_WRITE,
            Command::RegisterInternalRead => CMD_REGISTER_INTERNAL_READ,
            Command::TransactionTerminate => CMD_TRANSACTION_TERMINATE,
            Command::RepeatDataPacket => CMD_REPEAT_DATA_PACKET,
            Command::DmaExtendedWrite => CMD_DMA_EXTENDED_WRITE,
            Command::DmaExtendedRead => CMD_DMA_EXTENDED_READ,
            Command::SingleWordWrite => CMD_SINGLE_WORD_WRITE,
            Command::SingleWordRead => CMD_SINGLE_WORD_READ,
            Command::SoftReset => CMD_SOFT_RESET,
        }
    }

    /// The number of payload bytes in a frame of this command.
    pub open spec fn length_of(self) -> nat {
        match self {
            Command::RegisterInternalRead
            | Command::TransactionTerminate
            | Command::RepeatDataPacket
            | Command::SingleWordRead
            | Command::SoftReset => LEN_COMMAND_A as nat,
            Command::DmaWrite | Command::DmaRead => LEN_COMMAND_B as nat,
            Command::RegisterInternalWrite
            | Command::DmaExtendedWrite
            | Command::DmaExtendedRead => LEN_COMMAND_C as nat,
            Command::SingleWordWrite => LEN_COMMAND_D as nat,
        }
    }

    /// The number of bytes that precede the response and mean nothing.
    pub open spec fn leading_bytes_of(self) -> nat {
        match self {
            Command::SoftReset | Command::TransactionTerminate | Command::RepeatDataPacket => 1,
            _ => 0,
        }
    }

    /// The byte that opens every frame and every response of this command.
    pub fn type_code(&self) -> (code: u8)
        ensures
            code == self.type_code_of(),
    {
        match self {
            Command::DmaWrite => CMD_DMA_WRITE,
            Command::DmaRead => CMD_DMA_READ,
            Command::RegisterInternalWrite => CMD_REGISTER_INTERNAL_WRITE,
            Command::RegisterInternalRead => CMD_REGISTER_INTERNAL_READ,
            Command::TransactionTerminate => CMD_TRANSACTION_TERMINATE,
            Command::RepeatDataPacket => CMD_REPEAT_DATA_PACKET,
            Command::DmaExtendedWrite => CMD_DMA_EXTENDED_WRITE,
            Command::DmaExtendedRead => CMD_DMA_EXTENDED_READ,
            Command::SingleWordWrite => CMD_SINGLE_WORD_WRITE,
            Command::SingleWordRead => CMD_SINGLE_WORD_READ,
            Command::SoftReset => CMD_SOFT_RESET,
        }
    }

    /// The command that `code` opens, if there is one.
    pub fn from_type_code(code: u8) -> (command: Option<Command>)
        ensures
            match command {
                Some(c) => c.type_code_of() == code,
                None => forall|c: Command| c.type_code_of() != code,
            },
    {
        match code {
            0xC1 => Some(Command::DmaWrite),
            0xC2 => Some(Command::DmaRead),
            0xC3 => Some(Command::RegisterInternalWrite),
            0xC4 => Some(Command::RegisterInternalRead),
            0xC5 => Some(Command::TransactionTerminate),
            0xC6 => Some(Command::RepeatDataPacket),
            0xC7 => Some(Command::DmaExtendedWrite),
            0xC8 => Some(Command::DmaExtendedRead),
            0xC9 => Some(Command::SingleWordWrite),
            0xCA => Some(Command::SingleWordRead),
            0xCF => Some(Command::SoftReset),
            _ => None,
        }
    }

    /// The number of payload bytes in a frame of this command.
    pub fn length(&self) -> (len: usize)
        ensures
            len == self.length_of(),
            len == 4 || len == 6 || len == 7 || len == 8,
    {
        match self {
            Command::RegisterInternalRead
            | Command::TransactionTerminate
            | Command::RepeatDataPacket
            | Command::SingleWordRead
            | Command::SoftReset => LEN_COMMAND_A as usize,
            Command::DmaWrite | Command::DmaRead => LEN_COMMAND_B as usize,
            Command::RegisterInternalWrite
            | Command::DmaExtendedWrite
            | Command::DmaExtendedRead => LEN_COMMAND_C as usize,
            Command::SingleWordWrite => LEN_COMMAND_D as usize,
        }
    }

    /// Whether one meaningless byte precedes the response.
    pub fn has_leading_byte(&self) -> (lead: bool)
        ensures
            lead <==> self.leading_bytes_of() == 1,
            !lead <==> self.leading_bytes_of() == 0,
    {
        match self {
            Command::SoftReset | Command::TransactionTerminate | Command::RepeatDataPacket => true,
            _ => false,
        }
    }

    /// Sends `data` as one frame of this command: the payload and, where
    /// `crc` is set, the trailer of its checksum, all within one
    /// chip-select bracket.
    pub fn write<PinType, Transport>(&self, spi: &mut Transport, data: &[u8], crc: bool) where
        PinType: Pin,
        Transport: Spibus<PinType>,
        requires
            data@.len() == self.length_of(),
        ensures
            bracketed(old(spi).cs().history(), final(spi).cs().history()),
            old(spi).log().is_prefix_of(final(spi).log()),
            all_selected(appended(old(spi).log(), final(spi).log())),
            sent_bytes(appended(old(spi).log(), final(spi).log())) == frame_of(data@, crc),
    {
        if crc {
            let mut frame: Vec<u8> = Vec::with_capacity(data.len() + 1);
            frame.extend_from_slice(data);
            frame.push(trailer(crc7(data)));
            spi.tx(frame.as_slice());
        } else {
            spi.tx(data);
        }
    }

    /// Reads the response to this command and says what it means. Where the
    /// command calls for it, one byte is read and dropped first, before the
    /// chip-select bracket in which the two bytes of the response arrive.
    pub fn response<PinType, Transport>(&self, spi: &mut Transport) -> (result: Result<
        bool,
        CommandError,
    >) where PinType: Pin, Transport: Spibus<PinType>
        ensures
            bracketed(old(spi).cs().history(), final(spi).cs().history()),
            old(spi).log().is_prefix_of(final(spi).log()),
            ({
                let heard = appended(old(spi).log(), final(spi).log());
                let lead = self.leading_bytes_of() as int;
                &&& sent_bytes(heard) == filler((lead + 2) as nat)
                &&& lead == 1 ==> heard[0].selected == asserted(old(spi).cs().history())
                &&& all_selected(heard.skip(lead))
                &&& result == outcome_of(self.type_code_of(), received_bytes(heard).skip(lead))
            }),
    {
        let ghost before = spi.log();
        if self.has_leading_byte() {
            // Read (and ignore) the leading byte.
            spi.transfer(0);
        }
        let ghost idle = spi.log();
        // The response is always 2 bytes.
        let mut resp: [u8; 2] = [0, 0];
        spi.rx(&mut resp);
        proof {
            let lead = self.leading_bytes_of() as int;
            let heard = appended(before, spi.log());
            let reply = appended(idle, spi.log());
            lemma_appended_chain(before, idle, spi.log());
            assert(appended(before, idle).len() == lead);
            assert(reply.len() == sent_bytes(reply).len());
            assert(heard.skip(lead) == reply);
            assert(received_bytes(heard).skip(lead) == received_bytes(reply));
            assert(resp@ == received_bytes(heard).skip(lead));
            assert(sent_bytes(heard) == filler((lead + 2) as nat)) by {
                assert forall|i: int| 0 <= i < heard.len() implies sent_bytes(heard)[i]
                    == 0u8 by {
                    if i >= lead {
                        assert(heard[i] == reply[i - lead]);
                        assert(sent_bytes(reply)[i - lead] == 0u8);
                    } else {
                        assert(heard[i] == idle.last());
                    }
                }
            }
        }
        self.classify(resp)
    }

    /// Says what the two bytes of `reply` mean as the response to this command.
    pub fn classify(&self, reply: [u8; 2]) -> (result: Result<bool, CommandError>)
        ensures
            result == outcome_of(self.type_code_of(), reply@),
            result matches Err(e) ==> e.wf() && e != CommandError::ErrNone,
    {
        // The first byte must match that of the command type code.
        if reply[0] != self.type_code() {
            return Err(CommandError::ErrCommandMismatch);
        }
        // Half of the second byte is the error code.
        let error = CommandError::from_u8(reply[1] & 0x0F);
        match error {
            CommandError::ErrNone => Ok(true),
            _ => Err(error),
        }
    }
}

} // verus!
