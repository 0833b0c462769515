//! The wire record: seven bytes that pack an action, a size, a position and a
//! colour.
//!
//! ```text
//! byte 0   aaaa hhhh     action tag, top four bits of the height
//! byte 1   hhhx xxxx     low three bits of the height, top five bits of x
//! byte 2   xxxx xxyy     low six bits of x, top two bits of y
//! byte 3   yyyy yyyy     low eight bits of y
//! byte 4-6 the three colour channels
//! ```

use crate::canvas::{HEIGHT, WIDTH};
use vstd::prelude::*;

verus! {

/// Length of one wire record in bytes.
pub const RECORD_LEN: usize = 7;

/// Largest height that the seven height bits of a record can carry.
pub const MAX_HEIGHT: u8 = 127;

/// The action tag of a record: the top four bits of byte 0.
pub open spec fn record_tag(bytes: Seq<u8>) -> u8 {
    bytes[0] / 16
}

/// The height of a record: the low four bits of byte 0, then the top three
/// bits of byte 1.
pub open spec fn record_height(bytes: Seq<u8>) -> int {
    (bytes[0] % 16) * 8 + bytes[1] / 32
}

/// The column of a record: the low five bits of byte 1, then the top six bits
/// of byte 2.
pub open spec fn record_x(bytes: Seq<u8>) -> int {
    (bytes[1] % 32) * 64 + bytes[2] / 4
}

/// The row of a record: the low two bits of byte 2, then byte 3.
pub open spec fn record_y(bytes: Seq<u8>) -> int {
    (bytes[2] % 4) * 256 + bytes[3]
}

/// What a command does to the canvas.
#[derive(Debug, Clone, Copy, PartialEq, Eq)]
pub enum Action {
    Erase,
    DrawCubeNormal,
    DrawCubeHollow,
    DrawCircleNormal,
    DrawCircleHollow,
    DrawTriangleNormal,
    DrawTriangleHollow,
    DrawHexagonNormal,
    DrawHexagonHollow,
}

impl Action {
    /// The number that stands for this action on the wire.
    pub open spec fn tag(self) -> u8 {
        match self {
            Action::Erase => 0u8,
            Action::DrawCubeNormal => 1u8,
            Action::DrawCubeHollow => 2u8,
            Action::DrawCircleNormal => 3u8,
            Action::DrawCircleHollow => 4u8,
            Action::DrawTriangleNormal => 5u8,
            Action::DrawTriangleHollow => 6u8,
            Action::DrawHexagonNormal => 7u8,
            Action::DrawHexagonHollow => 8u8,
        }
    }

    /// The action that `tag` stands for, if there is one.
    pub open spec fn from_tag(tag: u8) -> Option<Action> {
        if tag == 0 {
            Some(Action::Erase)
        } else if tag == 1 {
            Some(Action::DrawCubeNormal)
        } else if tag == 2 {
            Some(Action::DrawCubeHollow)
        } else if tag == 3 {
            Some(Action::DrawCircleNormal)
        } else if tag == 4 {
            Some(Action::DrawCircleHollow)
        } else if tag == 5 {
            Some(Action::DrawTriangleNormal)
        } else if tag == 6 {
            Some(Action::DrawTriangleHollow)
        } else if tag == 7 {
            Some(Action::DrawHexagonNormal)
        } else if tag == 8 {
            Some(Action::DrawHexagonHollow)
        } else {
            None
        }
    }

    fn to_wire(&self) -> (tag: u8)
        ensures
            tag == self.tag(),
            tag <= 8,
    {
        match self {
            Action::Erase => 0,
            Action::DrawCubeNormal => 1,
            Action::DrawCubeHollow => 2,
            Action::DrawCircleNormal => 3,
            Action::DrawCircleHollow => 4,
            Action::DrawTriangleNormal => 5,
            Action::DrawTriangleHollow => 6,
            Action::DrawHexagonNormal => 7,
            Action::DrawHexagonHollow => 8,
        }
    }

    fn of_wire(tag: u8) -> (action: Option<Action>)
        ensures
            action == Action::from_tag(tag),
    {
        if tag == 0 {
            Some(Action::Erase)
        } else if tag == 1 {
            Some(Action::DrawCubeNormal)
        } else if tag == 2 {
            Some(Action::DrawCubeHollow)
        } else if tag == 3 {
            Some(Action::DrawCircleNormal)
        } else if tag == 4 {
            Some(Action::DrawCircleHollow)
        } else if tag == 5 {
            Some(Action::DrawTriangleNormal)
        } else if tag == 6 {
            Some(Action::DrawTriangleHollow)
        } else if tag == 7 {
            Some(Action::DrawHexagonNormal)
        } else if tag == 8 {
            Some(Action::DrawHexagonHollow)
        } else {
            None
        }
    }
}

/// One decoded command.
#[derive(Debug, Clone, Copy, PartialEq, Eq)]
pub struct ClientMessage {
    pub action: Action,
    pub x: u16,
    pub y: u16,
    pub height: u8,
    pub color: [u8; 3],
}

impl ClientMessage {
    /// The invariant of a command: a size of at least one that fits the
    /// record, and a position on the canvas.  `decode` returns no other.
    pub open spec fn valid(&self) -> bool {
        &&& 1 <= self.height <= MAX_HEIGHT
        &&& self.x < WIDTH
        &&& self.y < HEIGHT
    }

    /// The command that a record stands for.  There is none where the record
    /// has not exactly `RECORD_LEN` bytes, where its tag names no action,
    /// where its height is zero, or where its position is off the canvas.
    pub open spec fn spec_decode(bytes: Seq<u8>) -> Option<ClientMessage> {
        if bytes.len() != RECORD_LEN {
            None
        } else {
            match Action::from_tag(record_tag(bytes)) {
                None => None,
                Some(action) => if record_height(bytes) == 0 || record_x(bytes) >= WIDTH || record_y(
                    bytes,
                ) >= HEIGHT {
                    None
                } else {
                    Some(
                        ClientMessage {
                            action,
                            x: record_x(bytes) as u16,
                            y: record_y(bytes) as u16,
                            height: record_height(bytes) as u8,
                            color: [bytes[4], bytes[5], bytes[6]],
                        },
                    )
                },
            }
        }
    }

    /// The record of a command.  Bits of `height`, `x` and `y` that the record
    /// has no room for are dropped; a valid command has none.
    pub open spec fn spec_encode(&self) -> Seq<u8> {
        seq![
            (self.action.tag() * 16 + (self.height / 8) % 16) as u8,
            ((self.height % 8) * 32 + (self.x / 64) % 32) as u8,
            ((self.x % 64) * 4 + (self.y / 256) % 4) as u8,
            (self.y % 256) as u8,
            self.color[0],
            self.color[1],
            self.color[2],
        ]
    }

    /// Whether the command meets its invariant.
    pub fn is_valid(&self) -> (ok: bool)
        ensures
            ok == self.valid(),
    {
        1 <= self.height && self.height <= MAX_HEIGHT && (self.x as usize) < WIDTH && (
        self.y as usize) < HEIGHT
    }

    /// Reads one record.
    pub fn decode(data: &[u8]) -> (decoded: Option<Self>)
        ensures
            decoded == Self::spec_decode(data@),
            decoded matches Some(message) ==> message.valid(),
    {
        if data.len() != RECORD_LEN {
            return None;
        }
        let b0: u8 = data[0];
        let b1: u8 = data[1];
        let b2: u8 = data[2];
        let b3: u8 = data[3];

        let action: Action = match Action::of_wire((b0 >> 4) & 0xF) {
            Some(action) => action,
            None => {
                assert((b0 >> 4) & 0xF == b0 / 16) by (bit_vector);
                return None;
            },
        };
        let height_high: u8 = b0 & 0xF;
        let height_low: u8 = (b1 >> 5) & 0x7;
        let height: u8 = (height_high << 3) | height_low;
        let x_high: u8 = b1 & 0x1F;
        let x_low: u8 = (b2 >> 2) & 0x3F;
        let x: u16 = ((x_high as u16) << 6) | (x_low as u16);
        let y_high: u8 = b2 & 0x3;
        let y: u16 = ((y_high as u16) << 8) | (b3 as u16);
        let color: [u8; 3] = [data[4], data[5], data[6]];

        proof {
            assert((b0 >> 4) & 0xF == b0 / 16) by (bit_vector);
            assert((((b0 & 0xF) << 3) | ((b1 >> 5) & 0x7)) == (b0 % 16) * 8 + b1 / 32) by (bit_vector);
            assert(((((b1 & 0x1F) as u16) << 6) | (((b2 >> 2) & 0x3F) as u16)) == (b1 % 32) * 64 + b2
                / 4) by (bit_vector);
            assert(((((b2 & 0x3) as u16) << 8) | (b3 as u16)) == (b2 % 4) * 256 + b3) by (bit_vector);
        }

        if height == 0 || x >= WIDTH as u16 || y >= HEIGHT as u16 {
            return None;
        }
        Some(ClientMessage { action, x, y, height, color })
    }

    /// Writes the record of this command.
    pub fn encode(&self) -> (record: [u8; 7])
        ensures
            record@ == self.spec_encode(),
    {
        let tag: u8 = self.action.to_wire();
        let height: u8 = self.height;
        let x: u16 = self.x;
        let y: u16 = self.y;
        let b0: u8 = (tag << 4) | ((height >> 3) & 0xF);
        let b1: u8 = ((height & 0x7) << 5) | (#[verifier::truncate] ((x >> 6) as u8) & 0x1F);
        let b2: u8 = #[verifier::truncate] ((((x & 0x3F) << 2) | ((y >> 8) & 0x3)) as u8);
        let b3: u8 = #[verifier::truncate] (y as u8);
        proof {
            assert(tag <= 8 ==> ((tag << 4) | ((height >> 3) & 0xF)) == tag * 16 + (height / 8) % 16)
                by (bit_vector);
            assert((((height & 0x7) << 5) | (((x >> 6) as u8) & 0x1F)) == (height % 8) * 32 + (x / 64)
                % 32) by (bit_vector);
            assert(((((x & 0x3F) << 2) | ((y >> 8) & 0x3)) as u8) == (x % 64) * 4 + (y / 256) % 4)
                by (bit_vector);
            assert((y as u8) == y % 256) by (bit_vector);
        }
        let record: [u8; 7] = [b0, b1, b2, b3, self.color[0], self.color[1], self.color[2]];
        assert(record@ =~= self.spec_encode());
        record
    }
}

/// Whether every command of the batch meets its invariant.
pub open spec fn all_valid(batch: Seq<ClientMessage>) -> bool {
    forall|i: int| 0 <= i < batch.len() ==> (#[trigger] batch[i]).valid()
}

/// Number of records that a message of `len` bytes is cut into.  The last
/// one is short where `len` is no multiple of `RECORD_LEN`.
pub open spec fn record_count(len: int) -> int {
    (len + RECORD_LEN - 1) / (RECORD_LEN as int)
}

/// Record `j` of a message.
pub open spec fn record(bytes: Seq<u8>, j: int) -> Seq<u8> {
    bytes.subrange(
        j * RECORD_LEN,
        if (j + 1) * RECORD_LEN <= bytes.len() {
            (j + 1) * RECORD_LEN
        } else {
            bytes.len() as int
        },
    )
}

/// The commands that the first `n` records of a message stand for, in order.
/// A record that stands for none is passed over.
pub open spec fn decode_first(bytes: Seq<u8>, n: nat) -> Seq<ClientMessage>
    decreases n,
{
    if n == 0 {
        Seq::empty()
    } else {
        let before = decode_first(bytes, (n - 1) as nat);
        match ClientMessage::spec_decode(record(bytes, n - 1)) {
            Some(message) => before.push(message),
            None => before,
        }
    }
}

/// The commands that a message stands for.
pub open spec fn decode_all(bytes: Seq<u8>) -> Seq<ClientMessage> {
    decode_first(bytes, record_count(bytes.len() as int) as nat)
}

/// The records of a batch, one after the other.
pub open spec fn encode_all(batch: Seq<ClientMessage>) -> Seq<u8>
    decreases batch.len(),
{
    if batch.len() == 0 {
        Seq::empty()
    } else {
        encode_all(batch.drop_last()) + batch.last().spec_encode()
    }
}

/// Every command that `decode_first` gives meets its invariant.
pub proof fn lemma_decoded_valid(bytes: Seq<u8>, n: nat)
    ensures
        all_valid(decode_first(bytes, n)),
    decreases n,
{
    if n > 0 {
        lemma_decoded_valid(bytes, (n - 1) as nat);
    }
}

/// Cuts a message into records and reads each.  A record that cannot be read
/// is dropped; the records after it are still read.
pub fn decode_batch(data: &[u8]) -> (batch: Vec<ClientMessage>)
    ensures
        batch@ == decode_all(data@),
        all_valid(batch@),
{
    let mut parsed: Vec<ClientMessage> = Vec::new();
    let mut start: usize = 0;
    let ghost mut done: nat = 0;
    while start < data.len()
        invariant
            start <= data.len(),
            start == done * RECORD_LEN || (start == data.len() && done == record_count(
                data.len() as int,
            )),
            done <= record_count(data.len() as int),
            parsed@ == decode_first(data@, done),
        decreases data.len() - start,
    {
        let end: usize = if data.len() - start >= RECORD_LEN {
            start + RECORD_LEN
        } else {
            data.len()
        };
        let piece: &[u8] = &data[start..end];
        assert(piece@ =~= record(data@, done as int));
        match ClientMessage::decode(piece) {
            Some(message) => {
                parsed.push(message);
            },
            None => {},
        }
        start = end;
        proof {
            done = done + 1;
        }
    }
    proof {
        lemma_decoded_valid(data@, done);
    }
    parsed
}

/// Writes the records of a batch, one after the other.
pub fn encode_batch(batch: &[ClientMessage]) -> (bytes: Vec<u8>)
    ensures
        bytes@ == encode_all(batch@),
{
    let mut encoded: Vec<u8> = Vec::new();
    let mut i: usize = 0;
    while i < batch.len()
        invariant
            i <= batch.len(),
            encoded@ == encode_all(batch@.take(i as int)),
        decreases batch.len() - i,
    {
        let record: [u8; 7] = batch[i].encode();
        let ghost before = encoded@;
        let mut j: usize = 0;
        while j < RECORD_LEN
            invariant
                j <= RECORD_LEN,
                encoded@ == before + record@.take(j as int),
            decreases RECORD_LEN - j,
        {
            encoded.push(record[j]);
            assert(record@.take(j + 1) =~= record@.take(j as int).push(record@[j as int]));
            j += 1;
        }
        proof {
            assert(record@.take(RECORD_LEN as int) =~= record@);
            assert(batch@.take(i + 1).drop_last() =~= batch@.take(i as int));
        }
        i += 1;
    }
    assert(batch@.take(i as int) =~= batch@);
    encoded
}

} // verus!
