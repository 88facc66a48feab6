//! NRPN commands and their byte patterns.

use vstd::prelude::*;
use crate::buffer::{buffer_advance, buffer_chunk, buffered};
use crate::utils::{join14, spec_join14, split14};

verus! {

/// Control Change on channel 0, the status of every byte triple of a command.
pub const CC: u8 = 0xB0;

/// The controller that selects the high seven bits of the parameter number.
pub const SELECT_MSB: u8 = 0x63;

/// The controller that selects the low seven bits of the parameter number.
pub const SELECT_LSB: u8 = 0x62;

/// The controller that carries the high seven bits of a value.
pub const DATA_COARSE: u8 = 0x06;

/// The controller that carries the low seven bits of a value.
pub const DATA_FINE: u8 = 0x26;

/// The controller that increments a parameter and, with the value `0x7F`,
/// asks for it.
pub const DATA_INCREMENT: u8 = 0x60;

/// The controller that decrements a parameter.
pub const DATA_DECREMENT: u8 = 0x61;

/// The length of an `Absolute` command.
pub const ABSOLUTE_LEN: usize = 12;

/// The length of every other command.
pub const SHORT_LEN: usize = 9;

/// A parameter number: `ID(msb, lsb)`, seven bits each.
#[derive(Debug, PartialEq, Eq, Clone, Copy, Structural)]
pub struct ID(pub u8, pub u8);

impl ID {
    /// Both halves are seven-bit numbers.
    pub open spec fn wf(self) -> bool {
        self.0 < 0x80 && self.1 < 0x80
    }

    /// The parameter number with the halves `msb` and `lsb`, or nothing
    /// where one of them is wider than seven bits.
    pub fn new(msb: u8, lsb: u8) -> (r: Option<ID>)
        ensures
            r == if msb < 0x80 && lsb < 0x80 {
                Some(ID(msb, lsb))
            } else {
                None
            },
    {
        if msb < 0x80 && lsb < 0x80 {
            Some(ID(msb, lsb))
        } else {
            None
        }
    }
}

/// A command on one parameter.
#[derive(Debug, PartialEq, Eq, Clone, Copy, Structural)]
pub enum Nrpn {
    /// Sets the parameter to a value, given by its coarse and fine halves.
    Absolute(ID, u8, u8),
    Increment(ID),
    Decrement(ID),
    /// Asks for the parameter's value.
    Get(ID),
}

/// What the head of a byte sequence holds.
#[derive(Debug, PartialEq, Eq, Clone, Copy, Structural)]
pub enum Parsed {
    /// A whole command, and how much of what was parsed it takes up: a
    /// number of bytes, or a number of events.
    Command(Nrpn, usize),
    /// The start of a command, which more bytes could complete.
    Incomplete,
    /// Bytes that no command starts with.
    NotNrpn,
}

/// Whether the byte at index `k` of `bytes` is one that a command can hold
/// there, given the bytes before it.
pub open spec fn fits(bytes: Seq<u8>, k: int) -> bool
    recommends
        0 <= k < bytes.len(),
{
    let b = bytes[k];
    if k == 0 || k == 3 || k == 6 {
        b == CC
    } else if k == 1 {
        b == SELECT_MSB
    } else if k == 4 {
        b == SELECT_LSB
    } else if k == 2 || k == 5 {
        b < 0x80
    } else if k == 7 {
        b == DATA_COARSE || b == DATA_INCREMENT || b == DATA_DECREMENT
    } else if k == 8 {
        if bytes[7] == DATA_COARSE {
            b < 0x80
        } else if bytes[7] == DATA_INCREMENT {
            b == 0x00 || b == 0x7F
        } else {
            b == 0x00
        }
    } else if k == 9 {
        bytes[7] == DATA_COARSE && b == CC
    } else if k == 10 {
        b == DATA_FINE
    } else if k == 11 {
        b < 0x80
    } else {
        false
    }
}

/// Whether the first `n` bytes of `bytes` are the start of a command.
pub open spec fn starts_command(bytes: Seq<u8>, n: int) -> bool {
    n <= bytes.len() && forall|k: int| 0 <= k < n ==> fits(bytes, k)
}

/// What the head of `bytes` holds. A command is recognised by its bytes
/// alone. Bytes that could still grow into a command are incomplete; all
/// others are no command.
pub open spec fn spec_parse(bytes: Seq<u8>) -> Parsed {
    let id = ID(bytes[2], bytes[5]);
    if starts_command(bytes, 12) {
        Parsed::Command(Nrpn::Absolute(id, bytes[8], bytes[11]), 12)
    } else if starts_command(bytes, 9) && bytes[7] != DATA_COARSE {
        if bytes[7] == DATA_DECREMENT {
            Parsed::Command(Nrpn::Decrement(id), 9)
        } else if bytes[8] == 0x00 {
            Parsed::Command(Nrpn::Increment(id), 9)
        } else {
            Parsed::Command(Nrpn::Get(id), 9)
        }
    } else if bytes.len() < 12 && starts_command(bytes, bytes.len() as int) {
        Parsed::Incomplete
    } else {
        Parsed::NotNrpn
    }
}

impl Nrpn {
    /// The parameter that the command addresses.
    pub open spec fn spec_id(self) -> ID {
        match self {
            Nrpn::Absolute(id, _, _) => id,
            Nrpn::Increment(id) => id,
            Nrpn::Decrement(id) => id,
            Nrpn::Get(id) => id,
        }
    }

    /// The parameter number and the value's halves are seven-bit numbers.
    pub open spec fn wf(self) -> bool {
        &&& self.spec_id().wf()
        &&& self matches Nrpn::Absolute(_, coarse, fine) ==> coarse < 0x80 && fine < 0x80
    }

    /// The command's byte pattern: the two selectors, then the command word.
    pub open spec fn spec_bytes(self) -> Seq<u8> {
        let ID(msb, lsb) = self.spec_id();
        let select = seq![CC, SELECT_MSB, msb, CC, SELECT_LSB, lsb];
        match self {
            Nrpn::Absolute(_, coarse, fine) => select + seq![
                CC,
                DATA_COARSE,
                coarse,
                CC,
                DATA_FINE,
                fine,
            ],
            Nrpn::Increment(_) => select + seq![CC, DATA_INCREMENT, 0x00],
            Nrpn::Decrement(_) => select + seq![CC, DATA_DECREMENT, 0x00],
            Nrpn::Get(_) => select + seq![CC, DATA_INCREMENT, 0x7F],
        }
    }

    /// Whether the command is well formed: see [`Nrpn::wf`].
    pub fn is_valid(&self) -> (r: bool)
        ensures
            r == self.wf(),
    {
        match self {
            Nrpn::Absolute(id, coarse, fine) => id.0 < 0x80 && id.1 < 0x80 && *coarse < 0x80
                && *fine < 0x80,
            Nrpn::Increment(id) => id.0 < 0x80 && id.1 < 0x80,
            Nrpn::Decrement(id) => id.0 < 0x80 && id.1 < 0x80,
            Nrpn::Get(id) => id.0 < 0x80 && id.1 < 0x80,
        }
    }

    /// The command's byte pattern.
    pub fn to_bytes(&self) -> (bytes: Vec<u8>)
        ensures
            bytes@ == self.spec_bytes(),
            bytes@.len() % 3 == 0,
    {
        let mut bytes: Vec<u8> = Vec::new();
        let id: ID = match self {
            Nrpn::Absolute(id, _, _) => *id,
            Nrpn::Increment(id) => *id,
            Nrpn::Decrement(id) => *id,
            Nrpn::Get(id) => *id,
        };
        bytes.push(CC);
        bytes.push(SELECT_MSB);
        bytes.push(id.0);
        bytes.push(CC);
        bytes.push(SELECT_LSB);
        bytes.push(id.1);
        bytes.push(CC);
        match self {
            Nrpn::Absolute(_, coarse, fine) => {
                bytes.push(DATA_COARSE);
                bytes.push(*coarse);
                bytes.push(CC);
                bytes.push(DATA_FINE);
                bytes.push(*fine);
            },
            Nrpn::Increment(_) => {
                bytes.push(DATA_INCREMENT);
                bytes.push(0x00);
            },
            Nrpn::Decrement(_) => {
                bytes.push(DATA_DECREMENT);
                bytes.push(0x00);
            },
            Nrpn::Get(_) => {
                bytes.push(DATA_INCREMENT);
                bytes.push(0x7F);
            },
        }
        assert(bytes@ =~= self.spec_bytes());
        bytes
    }

    /// Tells what the head of `bytes` holds: see [`spec_parse`].
    pub fn parse(bytes: &[u8]) -> (r: Parsed)
        ensures
            r == spec_parse(bytes@),
            r matches Parsed::Command(command, len) ==> command.wf() && len <= bytes@.len(),
    {
        proof {
            lemma_emit_parsed(bytes@);
        }
        let n: usize = bytes.len();
        let limit: usize = if n < ABSOLUTE_LEN {
            n
        } else {
            ABSOLUTE_LEN
        };
        let mut k: usize = 0;
        while k < limit && fits_at(bytes, k)
            invariant
                k <= limit <= 12,
                limit <= bytes.len(),
                n == bytes.len(),
                limit == if n < 12 {
                    n
                } else {
                    12
                },
                forall|j: int| 0 <= j < k ==> fits(bytes@, j),
                k > 9 ==> bytes@[7] == DATA_COARSE,
            decreases limit - k,
        {
            k += 1;
        }
        if k == ABSOLUTE_LEN {
            let id = ID(bytes[2], bytes[5]);
            return Parsed::Command(Nrpn::Absolute(id, bytes[8], bytes[11]), ABSOLUTE_LEN);
        }
        assert(!starts_command(bytes@, 12)) by {
            if n >= 12 {
                assert(!fits(bytes@, k as int));
            }
        }
        if k >= SHORT_LEN && bytes[7] != DATA_COARSE {
            let id = ID(bytes[2], bytes[5]);
            if bytes[7] == DATA_DECREMENT {
                return Parsed::Command(Nrpn::Decrement(id), SHORT_LEN);
            } else if bytes[8] == 0x00 {
                return Parsed::Command(Nrpn::Increment(id), SHORT_LEN);
            } else {
                return Parsed::Command(Nrpn::Get(id), SHORT_LEN);
            }
        }
        if k == n {
            return Parsed::Incomplete;
        }
        assert(!fits(bytes@, k as int));
        Parsed::NotNrpn
    }

    /// Tries to parse an NRPN message from the given buffer. If it succeeds,
    /// the buffer is advanced past the parsed bytes. If it fails and
    /// returns `None`, the buffer is unchanged.
    pub fn from_buf(buf: &mut bytes::BytesMut) -> (r: Option<Nrpn>)
        ensures
            match spec_parse(buffered(*old(buf))) {
                Parsed::Command(command, len) => r == Some(command) && command.wf() && buffered(
                    *final(buf),
                ) == buffered(*old(buf)).skip(len as int),
                _ => r is None && buffered(*final(buf)) == buffered(*old(buf)),
            },
    {
        let parsed = Nrpn::parse(buffer_chunk(buf));
        match parsed {
            Parsed::Command(command, len) => {
                buffer_advance(buf, len);
                Some(command)
            },
            _ => None,
        }
    }
}

/// Whether the byte at index `k` fits: see [`fits`].
fn fits_at(bytes: &[u8], k: usize) -> (r: bool)
    requires
        k < bytes.len(),
        k < 12,
        forall|j: int| 0 <= j < k ==> fits(bytes@, j),
    ensures
        r == fits(bytes@, k as int),
{
    let b: u8 = bytes[k];
    if k == 0 || k == 3 || k == 6 {
        b == CC
    } else if k == 1 {
        b == SELECT_MSB
    } else if k == 4 {
        b == SELECT_LSB
    } else if k == 2 || k == 5 {
        b < 0x80
    } else if k == 7 {
        b == DATA_COARSE || b == DATA_INCREMENT || b == DATA_DECREMENT
    } else if k == 8 {
        if bytes[7] == DATA_COARSE {
            b < 0x80
        } else if bytes[7] == DATA_INCREMENT {
            b == 0x00 || b == 0x7F
        } else {
            b == 0x00
        }
    } else if k == 9 {
        bytes[7] == DATA_COARSE && b == CC
    } else if k == 10 {
        b == DATA_FINE
    } else {
        b < 0x80
    }
}

/// Messages sent to and received from the console.
#[derive(Debug, PartialEq, Eq, Clone, Copy, Structural)]
pub enum Message {
    /// The level of a parameter, a fourteen-bit number.
    Level(ID, u16),
}

impl Message {
    /// The command that carries the message: a level travels as an
    /// `Absolute` whose coarse half is the level's high seven bits and whose
    /// fine half is its low seven bits.
    pub fn to_nrpn(&self) -> (nrpn: Nrpn)
        ensures
            *self matches Message::Level(id, val) && nrpn == Nrpn::Absolute(
                id,
                ((val / 128) % 128) as u8,
                (val % 128) as u8,
            ),
    {
        match self {
            Message::Level(id, val) => {
                let (val_lsb, val_msb) = split14(*val);
                Nrpn::Absolute(*id, val_msb, val_lsb)
            },
        }
    }

    /// The message that an `Absolute` command carries.
    pub fn from_nrpn(nrpn: Nrpn) -> (message: Message)
        requires
            nrpn is Absolute,
            nrpn.wf(),
        ensures
            nrpn matches Nrpn::Absolute(id, coarse, fine) && message == Message::Level(
                id,
                spec_join14(fine, coarse),
            ),
    {
        match nrpn {
            Nrpn::Absolute(id, coarse, fine) => Message::Level(id, join14(fine, coarse)),
            _ => Message::Level(ID(0, 0), 0),
        }
    }
}

/// Parsing what was emitted gives the command back: the byte pattern of a
/// well formed command, whatever follows it, parses as that command and
/// takes up exactly the pattern's bytes.
pub proof fn lemma_parse_emitted(command: Nrpn, rest: Seq<u8>)
    requires
        command.wf(),
    ensures
        spec_parse(command.spec_bytes() + rest) == Parsed::Command(
            command,
            command.spec_bytes().len() as usize,
        ),
{
    let bytes = command.spec_bytes() + rest;
    let n = command.spec_bytes().len() as int;
    assert forall|k: int| 0 <= k < n implies bytes[k] == command.spec_bytes()[k] by {}
    assert forall|k: int| 0 <= k < n implies fits(bytes, k) by {
        assert(bytes[k] == command.spec_bytes()[k]);
        if k >= 7 {
            assert(bytes[7] == command.spec_bytes()[7]);
        }
    }
    assert(starts_command(bytes, n));
    if !(command is Absolute) {
        assert(bytes[7] == command.spec_bytes()[7]);
        assert(bytes[8] == command.spec_bytes()[8]);
        if bytes.len() >= 12 {
            assert(!fits(bytes, 9));
        }
    } else {
        assert(bytes[8] == command.spec_bytes()[8]);
        assert(bytes[11] == command.spec_bytes()[11]);
    }
    assert(bytes[2] == command.spec_bytes()[2]);
    assert(bytes[5] == command.spec_bytes()[5]);
}

/// Emitting what was parsed gives the bytes back: where the head of `bytes`
/// parses as a command, the command is well formed and its byte pattern is
/// that head.
pub proof fn lemma_emit_parsed(bytes: Seq<u8>)
    ensures
        spec_parse(bytes) matches Parsed::Command(command, len) ==> command.wf() && len
            <= bytes.len() && command.spec_bytes() == bytes.subrange(0, len as int),
{
    if let Parsed::Command(command, len) = spec_parse(bytes) {
        assert(starts_command(bytes, len as int));
        assert forall|k: int| 0 <= k < len implies fits(bytes, k) by {}
        assert(fits(bytes, 0) && fits(bytes, 1) && fits(bytes, 2) && fits(bytes, 3) && fits(
            bytes,
            4,
        ) && fits(bytes, 5) && fits(bytes, 6) && fits(bytes, 7) && fits(bytes, 8));
        if len == 12 {
            assert(fits(bytes, 9) && fits(bytes, 10) && fits(bytes, 11));
        }
        assert(command.spec_bytes() =~= bytes.subrange(0, len as int));
    }
}

/// Used for updating the state of either a level or a pan.
#[derive(Debug, PartialEq, Eq, Clone, Copy, Structural)]
pub enum ValueState {
    /// Sets the parameter to a fourteen-bit value.
    Absolute(u16),
    Increment,
    Decrement,
    Get,
}

/// Used for updating the state of either a mute or an assignment.
#[derive(Debug, PartialEq, Eq, Clone, Copy, Structural)]
pub enum ButtonState {
    On,
    Off,
    Toggle,
    Get,
}

impl ValueState {
    /// The command that brings the parameter `id` into this state. A value
    /// travels as an `Absolute` whose coarse half is its high seven bits
    /// and whose fine half is its low seven bits; what lies above the
    /// fourteenth bit is dropped.
    pub open spec fn spec_to_nrpn(self, id: ID) -> Nrpn {
        match self {
            ValueState::Absolute(val) => Nrpn::Absolute(
                id,
                ((val / 128) % 128) as u8,
                (val % 128) as u8,
            ),
            ValueState::Increment => Nrpn::Increment(id),
            ValueState::Decrement => Nrpn::Decrement(id),
            ValueState::Get => Nrpn::Get(id),
        }
    }

    /// The command that brings the parameter `id` into this state.
    pub fn to_nrpn(&self, id: ID) -> (nrpn: Nrpn)
        ensures
            nrpn == self.spec_to_nrpn(id),
            nrpn.spec_id() == id,
            id.wf() ==> nrpn.wf(),
    {
        match self {
            ValueState::Absolute(val) => {
                let (val_lsb, val_msb) = split14(*val);
                Nrpn::Absolute(id, val_msb, val_lsb)
            },
            ValueState::Increment => Nrpn::Increment(id),
            ValueState::Decrement => Nrpn::Decrement(id),
            ValueState::Get => Nrpn::Get(id),
        }
    }

    /// The state that a command asks for.
    pub fn from_nrpn(nrpn: Nrpn) -> (state: ValueState)
        requires
            nrpn.wf(),
        ensures
            state == match nrpn {
                Nrpn::Absolute(_, coarse, fine) => ValueState::Absolute(spec_join14(fine, coarse)),
                Nrpn::Increment(_) => ValueState::Increment,
                Nrpn::Decrement(_) => ValueState::Decrement,
                Nrpn::Get(_) => ValueState::Get,
            },
            state matches ValueState::Absolute(val) ==> val < 0x4000,
            state.spec_to_nrpn(nrpn.spec_id()) == nrpn,
    {
        match nrpn {
            Nrpn::Absolute(_, coarse, fine) => ValueState::Absolute(join14(fine, coarse)),
            Nrpn::Increment(_) => ValueState::Increment,
            Nrpn::Decrement(_) => ValueState::Decrement,
            Nrpn::Get(_) => ValueState::Get,
        }
    }
}

impl ButtonState {
    /// The command that brings the parameter `id` into this state: on and
    /// off are the values 1 and 0, and a toggle is an increment.
    pub open spec fn spec_to_nrpn(self, id: ID) -> Nrpn {
        match self {
            ButtonState::On => Nrpn::Absolute(id, 0x00, 0x01),
            ButtonState::Off => Nrpn::Absolute(id, 0x00, 0x00),
            ButtonState::Toggle => Nrpn::Increment(id),
            ButtonState::Get => Nrpn::Get(id),
        }
    }

    /// The command that brings the parameter `id` into this state.
    pub fn to_nrpn(&self, id: ID) -> (nrpn: Nrpn)
        ensures
            nrpn == self.spec_to_nrpn(id),
            nrpn.spec_id() == id,
            id.wf() ==> nrpn.wf(),
    {
        match self {
            ButtonState::On => Nrpn::Absolute(id, 0x00, 0x01),
            ButtonState::Off => Nrpn::Absolute(id, 0x00, 0x00),
            ButtonState::Toggle => Nrpn::Increment(id),
            ButtonState::Get => Nrpn::Get(id),
        }
    }

    /// The state that a command asks for, if it asks for a button's state.
    pub fn from_nrpn(nrpn: Nrpn) -> (r: Option<ButtonState>)
        ensures
            r matches Some(state) ==> state.spec_to_nrpn(nrpn.spec_id()) == nrpn,
            r is None ==> forall|state: ButtonState|
                #[trigger] state.spec_to_nrpn(nrpn.spec_id()) != nrpn,
    {
        match nrpn {
            Nrpn::Absolute(_, coarse, fine) => {
                if coarse == 0x00 && fine == 0x01 {
                    Some(ButtonState::On)
                } else if coarse == 0x00 && fine == 0x00 {
                    Some(ButtonState::Off)
                } else {
                    None
                }
            },
            Nrpn::Increment(_) => Some(ButtonState::Toggle),
            Nrpn::Decrement(_) => None,
            Nrpn::Get(_) => Some(ButtonState::Get),
        }
    }
}

/// A value survives the way through its command: the halves that a
/// fourteen-bit value is sent as join to that value again.
pub proof fn lemma_value_round_trip(val: u16, id: ID)
    requires
        val < 0x4000,
    ensures
        ValueState::Absolute(val).spec_to_nrpn(id) matches Nrpn::Absolute(_, coarse, fine)
            && spec_join14(fine, coarse) == val,
        ValueState::Absolute(val).spec_to_nrpn(id).wf() <==> id.wf(),
{
}

} // verus!
