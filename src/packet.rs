use vstd::prelude::*;

verus! {

pub const MAX_PACKET_SIZE: usize = 256;

pub const HEADER_SIZE: usize = 4;

pub const FOOTER_SIZE: usize = 2;

/// Largest payload of a frame.
pub const MAX_PAYLOAD: usize = 250;

pub const START_BYTE_1: u8 = 0x55;

pub const START_BYTE_2: u8 = 0xAA;

pub const END_BYTE: u8 = 0x0A;

#[derive(Clone, Copy, PartialEq, Eq, Structural, Debug)]
pub enum ProtocolError {
    BufferOverflow,
    InvalidChecksum,
    InvalidPacket,
    InvalidCommand,
    Timeout,
    TransportError,
}

#[derive(Clone, Copy, PartialEq, Eq, Structural, Debug)]
pub enum Command {
    Ping,
    GetStatus,
    SetConfig,
    GetData,
    Reset,
    UpdateFirmware,
    Debug,
}

impl Command {
    pub open spec fn spec_code(self) -> u8 {
        match self {
            Command::Ping => 0x01,
            Command::GetStatus => 0x02,
            Command::SetConfig => 0x03,
            Command::GetData => 0x04,
            Command::Reset => 0x05,
            Command::UpdateFirmware => 0x06,
            Command::Debug => 0x07,
        }
    }

    /// The command byte of a frame.
    pub fn code(self) -> (r: u8)
        ensures
            r == self.spec_code(),
    {
        match self {
            Command::Ping => 0x01,
            Command::GetStatus => 0x02,
            Command::SetConfig => 0x03,
            Command::GetData => 0x04,
            Command::Reset => 0x05,
            Command::UpdateFirmware => 0x06,
            Command::Debug => 0x07,
        }
    }

    pub open spec fn spec_from_code(code: u8) -> Option<Command> {
        if code == 0x01 {
            Some(Command::Ping)
        } else if code == 0x02 {
            Some(Command::GetStatus)
        } else if code == 0x03 {
            Some(Command::SetConfig)
        } else if code == 0x04 {
            Some(Command::GetData)
        } else if code == 0x05 {
            Some(Command::Reset)
        } else if code == 0x06 {
            Some(Command::UpdateFirmware)
        } else if code == 0x07 {
            Some(Command::Debug)
        } else {
            None
        }
    }

    pub fn from_code(code: u8) -> (r: Option<Command>)
        ensures
            r == Command::spec_from_code(code),
    {
        match code {
            0x01 => Some(Command::Ping),
            0x02 => Some(Command::GetStatus),
            0x03 => Some(Command::SetConfig),
            0x04 => Some(Command::GetData),
            0x05 => Some(Command::Reset),
            0x06 => Some(Command::UpdateFirmware),
            0x07 => Some(Command::Debug),
            _ => None,
        }
    }
}

/// Sum of the bytes of `s`.
pub open spec fn byte_sum(s: Seq<u8>) -> nat
    decreases s.len(),
{
    if s.len() == 0 {
        0
    } else {
        byte_sum(s.drop_last()) + s.last() as nat
    }
}

/// One's complement of the byte sum of `s`, taken modulo 256.
pub open spec fn checksum_of(s: Seq<u8>) -> u8 {
    (255 - byte_sum(s) % 256) as u8
}

/// The frame that carries `payload` under command byte `code`: two start bytes, the
/// command, the payload length, the payload, the checksum of everything before it, and the
/// end byte.
pub open spec fn frame_of(code: u8, payload: Seq<u8>) -> Seq<u8> {
    let head = seq![START_BYTE_1, START_BYTE_2, code, payload.len() as u8] + payload;
    head + seq![checksum_of(head), END_BYTE]
}

/// What `parse` makes of the bytes `d`. A sound frame too long for the packet buffer (a
/// payload over 250 bytes) is refused as an invalid packet once its checksum has passed.
pub open spec fn parse_spec(d: Seq<u8>) -> Result<Command, ProtocolError> {
    if d.len() < HEADER_SIZE + FOOTER_SIZE {
        Err(ProtocolError::InvalidPacket)
    } else if d[0] != START_BYTE_1 || d[1] != START_BYTE_2 {
        Err(ProtocolError::InvalidPacket)
    } else if d.len() != HEADER_SIZE + d[3] + FOOTER_SIZE {
        Err(ProtocolError::InvalidPacket)
    } else if d[d.len() - 1] != END_BYTE {
        Err(ProtocolError::InvalidPacket)
    } else if d[d.len() - 2] != checksum_of(d.subrange(0, d.len() - 2)) {
        Err(ProtocolError::InvalidChecksum)
    } else if d.len() > MAX_PACKET_SIZE {
        Err(ProtocolError::InvalidPacket)
    } else {
        match Command::spec_from_code(d[2]) {
            Some(c) => Ok(c),
            None => Err(ProtocolError::InvalidCommand),
        }
    }
}

/// A frame that `parse` stores: one whose framing and checksum are sound, whatever its
/// command byte.
pub open spec fn is_stored_by_parse(d: Seq<u8>) -> bool {
    parse_spec(d) is Ok || parse_spec(d) == Err::<Command, ProtocolError>(ProtocolError::InvalidCommand)
}

/// The payload of a stored frame `f`; empty when `f` is too short to be a frame.
pub open spec fn payload_of(f: Seq<u8>) -> Seq<u8> {
    if f.len() < HEADER_SIZE + FOOTER_SIZE {
        Seq::empty()
    } else {
        f.subrange(HEADER_SIZE as int, f.len() - FOOTER_SIZE)
    }
}

proof fn lemma_not_bv(x: u8)
    ensures
        !x == 255 - x,
{
    assert(!x == 255u8 - x) by (bit_vector);
}

/// One's complement of the byte sum of `data`, modulo 256.
pub fn calculate_checksum(data: &[u8]) -> (r: u8)
    ensures
        r == checksum_of(data@),
{
    let mut sum: u8 = 0;
    let mut i: usize = 0;
    while i < data.len()
        invariant
            i <= data@.len(),
            sum == byte_sum(data@.subrange(0, i as int)) % 256,
        decreases data@.len() - i,
    {
        proof {
            let s = data@.subrange(0, i + 1);
            assert(s.drop_last() =~= data@.subrange(0, i as int));
        }
        sum = sum.wrapping_add(data[i]);
        i = i + 1;
    }
    proof {
        assert(data@.subrange(0, data@.len() as int) =~= data@);
        lemma_not_bv(sum);
    }
    !sum
}

/// A frame and the buffer it is built in or copied to.
pub struct Packet {
    buffer: Vec<u8>,
    length: usize,
}

impl Packet {
    pub closed spec fn wf(&self) -> bool {
        self.buffer@.len() == MAX_PACKET_SIZE && self.length <= MAX_PACKET_SIZE
    }

    /// The frame held.
    pub closed spec fn frame(&self) -> Seq<u8> {
        self.buffer@.subrange(0, self.length as int)
    }

    pub fn new() -> (r: Packet)
        ensures
            r.wf(),
            r.frame() == Seq::<u8>::empty(),
    {
        let r = Packet { buffer: vec![0u8; MAX_PACKET_SIZE], length: 0 };
        proof {
            assert(r.frame() =~= Seq::<u8>::empty());
        }
        r
    }

    /// Copies `data` into the packet buffer.
    fn store(&mut self, data: &[u8])
        requires
            old(self).wf(),
            data@.len() <= MAX_PACKET_SIZE,
        ensures
            final(self).wf(),
            final(self).frame() == data@,
    {
        let mut i: usize = 0;
        while i < data.len()
            invariant
                self.buffer@.len() == MAX_PACKET_SIZE,
                i <= data@.len() <= MAX_PACKET_SIZE,
                forall|j: int| 0 <= j < i ==> self.buffer@[j] == data@[j],
            decreases data@.len() - i,
        {
            self.buffer.set(i, data[i]);
            i = i + 1;
        }
        self.length = data.len();
        proof {
            assert(self.frame() =~= data@);
        }
    }

    /// Checks the framing, length, end byte and checksum of `data` and decodes its command.
    /// A frame that passes the checks is stored, even when its command byte is unknown.
    pub fn parse(&mut self, data: &[u8]) -> (r: Result<Command, ProtocolError>)
        requires
            old(self).wf(),
        ensures
            final(self).wf(),
            r == parse_spec(data@),
            is_stored_by_parse(data@) ==> final(self).frame() == data@,
            !is_stored_by_parse(data@) ==> *final(self) == *old(self),
    {
        if data.len() < HEADER_SIZE + FOOTER_SIZE {
            return Err(ProtocolError::InvalidPacket);
        }
        if data[0] != START_BYTE_1 || data[1] != START_BYTE_2 {
            return Err(ProtocolError::InvalidPacket);
        }
        let command = data[2];
        let length = data[3] as usize;
        if data.len() != HEADER_SIZE + length + FOOTER_SIZE {
            return Err(ProtocolError::InvalidPacket);
        }
        let checksum = data[HEADER_SIZE + length];
        let end_byte = data[HEADER_SIZE + length + 1];
        if end_byte != END_BYTE {
            return Err(ProtocolError::InvalidPacket);
        }
        let mut head: Vec<u8> = Vec::new();
        let mut i: usize = 0;
        while i < HEADER_SIZE + length
            invariant
                length < 256,
                HEADER_SIZE + length + FOOTER_SIZE == data@.len(),
                i <= HEADER_SIZE + length,
                head@ == data@.subrange(0, i as int),
            decreases HEADER_SIZE + length - i,
        {
            head.push(data[i]);
            i = i + 1;
            proof {
                assert(head@ =~= data@.subrange(0, i as int));
            }
        }
        let calc = calculate_checksum(head.as_slice());
        if checksum != calc {
            return Err(ProtocolError::InvalidChecksum);
        }
        if data.len() > MAX_PACKET_SIZE {
            return Err(ProtocolError::InvalidPacket);
        }
        self.store(data);
        match Command::from_code(command) {
            Some(c) => Ok(c),
            None => Err(ProtocolError::InvalidCommand),
        }
    }

    /// The payload of the frame held; empty when the packet holds no frame.
    pub fn get_data(&self) -> (r: Vec<u8>)
        requires
            self.wf(),
        ensures
            r@ == payload_of(self.frame()),
    {
        let mut out: Vec<u8> = Vec::new();
        if self.length < HEADER_SIZE + FOOTER_SIZE {
            proof {
                assert(out@ =~= payload_of(self.frame()));
            }
            return out;
        }
        let end = self.length - FOOTER_SIZE;
        let mut i: usize = HEADER_SIZE;
        while i < end
            invariant
                self.wf(),
                end == self.length - FOOTER_SIZE,
                HEADER_SIZE <= i <= end,
                out@ == self.buffer@.subrange(HEADER_SIZE as int, i as int),
            decreases end - i,
        {
            out.push(self.buffer[i]);
            i = i + 1;
            proof {
                assert(out@ =~= self.buffer@.subrange(HEADER_SIZE as int, i as int));
            }
        }
        proof {
            assert(out@ =~= payload_of(self.frame()));
        }
        out
    }

    /// Builds the frame that carries `data` under `command`, keeps it, and returns it. Fails
    /// with `BufferOverflow` when the payload exceeds `MAX_PAYLOAD` bytes.
    pub fn create(&mut self, command: Command, data: &[u8]) -> (r: Result<Vec<u8>, ProtocolError>)
        requires
            old(self).wf(),
        ensures
            final(self).wf(),
            data@.len() > MAX_PAYLOAD ==> r == Err::<Vec<u8>, ProtocolError>(ProtocolError::BufferOverflow)
                && final(self).frame() == old(self).frame(),
            data@.len() <= MAX_PAYLOAD ==> r is Ok && r->Ok_0@ == frame_of(command.spec_code(), data@)
                && final(self).frame() == frame_of(command.spec_code(), data@),
    {
        if data.len() > MAX_PAYLOAD {
            return Err(ProtocolError::BufferOverflow);
        }
        let frame = build_frame(command.code(), data);
        self.store(frame.as_slice());
        Ok(frame)
    }
}

/// The frame that carries `data` under command byte `code`.
pub fn build_frame(code: u8, data: &[u8]) -> (r: Vec<u8>)
    requires
        data@.len() <= MAX_PAYLOAD,
    ensures
        r@ == frame_of(code, data@),
        r@.len() == data@.len() + HEADER_SIZE + FOOTER_SIZE,
{
    let mut frame: Vec<u8> = Vec::new();
    frame.push(START_BYTE_1);
    frame.push(START_BYTE_2);
    frame.push(code);
    frame.push(data.len() as u8);
    let mut i: usize = 0;
    while i < data.len()
        invariant
            i <= data@.len() <= MAX_PAYLOAD,
            frame@ == seq![START_BYTE_1, START_BYTE_2, code, data@.len() as u8] + data@.subrange(0, i as int),
        decreases data@.len() - i,
    {
        frame.push(data[i]);
        i = i + 1;
        proof {
            assert(frame@ =~= seq![START_BYTE_1, START_BYTE_2, code, data@.len() as u8] + data@.subrange(0, i as int));
        }
    }
    proof {
        assert(data@.subrange(0, data@.len() as int) =~= data@);
    }
    let checksum = calculate_checksum(frame.as_slice());
    frame.push(checksum);
    frame.push(END_BYTE);
    proof {
        assert(frame@ =~= frame_of(code, data@));
    }
    frame
}

/// A frame built for a payload of at most `MAX_PAYLOAD` bytes parses back to its command,
/// and its payload is the one it was built from.
pub proof fn lemma_frame_round_trip(command: Command, payload: Seq<u8>)
    requires
        payload.len() <= MAX_PAYLOAD,
    ensures
        parse_spec(frame_of(command.spec_code(), payload)) == Ok::<Command, ProtocolError>(command),
        payload_of(frame_of(command.spec_code(), payload)) == payload,
{
    let head = seq![START_BYTE_1, START_BYTE_2, command.spec_code(), payload.len() as u8] + payload;
    let f = frame_of(command.spec_code(), payload);
    assert(f.subrange(0, f.len() - 2) =~= head);
    assert(f[3] == payload.len() as u8);
    assert(f.subrange(HEADER_SIZE as int, f.len() - FOOTER_SIZE) =~= payload);
}

} // verus!
