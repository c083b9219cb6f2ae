use vstd::prelude::*;
use crate::packet::{
    Command, ProtocolError, MAX_PACKET_SIZE, MAX_PAYLOAD, END_BYTE, checksum_of, frame_of,
    build_frame, calculate_checksum,
};
use crate::uart::{Uart, BUFFER_SIZE, take_upto};

verus! {

/// What `process` does from the partial line `line` with the received bytes `input`: its
/// result, the partial line left, and how many bytes it consumes. A line ends with the end
/// byte, which it keeps; a byte that arrives with the line buffer full is lost, and the line
/// is dropped.
pub open spec fn process_spec(line: Seq<u8>, input: Seq<u8>) -> (Result<Option<Seq<u8>>, ProtocolError>, Seq<u8>, nat)
    decreases input.len(),
{
    if input.len() == 0 {
        (Ok(None), line, 0)
    } else if line.len() >= MAX_PACKET_SIZE {
        (Err(ProtocolError::BufferOverflow), Seq::empty(), 1)
    } else if input[0] == END_BYTE {
        (Ok(Some(line.push(END_BYTE))), Seq::empty(), 1)
    } else {
        let rest = process_spec(line.push(input[0]), input.drop_first());
        (rest.0, rest.1, rest.2 + 1)
    }
}

proof fn lemma_process_consumes(line: Seq<u8>, input: Seq<u8>)
    ensures
        process_spec(line, input).2 <= input.len(),
        process_spec(line, input).1.len() <= MAX_PACKET_SIZE || process_spec(line, input).1 == line + input,
        line.len() <= MAX_PACKET_SIZE ==> process_spec(line, input).1.len() <= MAX_PACKET_SIZE,
    decreases input.len(),
{
    if input.len() > 0 && line.len() < MAX_PACKET_SIZE && input[0] != END_BYTE {
        lemma_process_consumes(line.push(input[0]), input.drop_first());
        assert(line.push(input[0]) + input.drop_first() =~= line + input);
    }
}

/// Framed command link over a serial port.
pub struct Protocol {
    uart: Uart,
    rx_buffer: Vec<u8>,
    rx_index: usize,
}

impl Protocol {
    pub closed spec fn wf(&self) -> bool {
        &&& self.uart.wf()
        &&& self.rx_buffer@.len() == MAX_PACKET_SIZE
        &&& self.rx_index <= MAX_PACKET_SIZE
    }

    /// The bytes of the line received so far.
    pub closed spec fn line(&self) -> Seq<u8> {
        self.rx_buffer@.subrange(0, self.rx_index as int)
    }

    pub closed spec fn port(&self) -> Uart {
        self.uart
    }

    pub fn new(uart: Uart) -> (r: Protocol)
        requires
            uart.wf(),
        ensures
            r.wf(),
            r.line() == Seq::<u8>::empty(),
            r.port() == uart,
    {
        let r = Protocol { uart, rx_buffer: vec![0u8; MAX_PACKET_SIZE], rx_index: 0 };
        proof {
            assert(r.line() =~= Seq::<u8>::empty());
        }
        r
    }

    /// Reads received bytes until a line ends with the end byte, and returns the line.
    /// Returns `None` once the received bytes run out with no complete line, keeping the
    /// partial line for the next call. Fails with `BufferOverflow`, dropping the partial
    /// line, when a byte arrives with the line buffer full.
    pub fn process(&mut self) -> (r: Result<Option<Vec<u8>>, ProtocolError>)
        requires
            old(self).wf(),
        ensures
            final(self).wf(),
            ({
                let out = process_spec(old(self).line(), old(self).port().pending_rx());
                &&& match out.0 {
                    Ok(None) => r == Ok::<Option<Vec<u8>>, ProtocolError>(None),
                    Ok(Some(f)) => r is Ok && r->Ok_0 is Some && r->Ok_0->Some_0@ == f,
                    Err(e) => r == Err::<Option<Vec<u8>>, ProtocolError>(e),
                }
                &&& final(self).line() == out.1
                &&& final(self).port().pending_rx() == old(self).port().pending_rx().subrange(
                    out.2 as int,
                    old(self).port().pending_rx().len() as int,
                )
            }),
            final(self).port().pending_tx() == old(self).port().pending_tx(),
            final(self).port().tx_interrupt_enabled() == old(self).port().tx_interrupt_enabled(),
    {
        let ghost out = process_spec(self.line(), self.uart.pending_rx());
        let ghost input = self.uart.pending_rx();
        proof {
            lemma_process_consumes(self.line(), self.uart.pending_rx());
        }
        let ghost mut consumed: int = 0;
        loop
            invariant
                self.wf(),
                out == process_spec(old(self).line(), old(self).port().pending_rx()),
                input == old(self).port().pending_rx(),
                process_spec(self.line(), self.uart.pending_rx()).0 == out.0,
                process_spec(self.line(), self.uart.pending_rx()).1 == out.1,
                0 <= consumed <= input.len(),
                process_spec(self.line(), self.uart.pending_rx()).2 + consumed == out.2,
                self.uart.pending_rx() == input.subrange(consumed, input.len() as int),
                self.uart.pending_tx() == old(self).uart.pending_tx(),
                self.uart.tx_interrupt_enabled() == old(self).uart.tx_interrupt_enabled(),
            decreases self.uart.pending_rx().len(),
        {
            let ghost line0 = self.line();
            let ghost rx0 = self.uart.pending_rx();
            match self.uart.read_byte() {
                None => {
                    return Ok(None);
                },
                Some(byte) => {
                    proof {
                        assert(self.uart.pending_rx() =~= input.subrange(consumed + 1, input.len() as int));
                        consumed = consumed + 1;
                    }
                    if self.rx_index >= MAX_PACKET_SIZE {
                        self.rx_index = 0;
                        proof {
                            assert(self.line() =~= Seq::<u8>::empty());
                        }
                        return Err(ProtocolError::BufferOverflow);
                    }
                    self.rx_buffer.set(self.rx_index, byte);
                    self.rx_index = self.rx_index + 1;
                    proof {
                        assert(self.line() =~= line0.push(byte));
                    }
                    if byte == END_BYTE {
                        let mut frame: Vec<u8> = Vec::new();
                        let mut i: usize = 0;
                        while i < self.rx_index
                            invariant
                                self.wf(),
                                i <= self.rx_index,
                                frame@ == self.line().subrange(0, i as int),
                            decreases self.rx_index - i,
                        {
                            frame.push(self.rx_buffer[i]);
                            i = i + 1;
                            proof {
                                assert(frame@ =~= self.line().subrange(0, i as int));
                            }
                        }
                        proof {
                            assert(frame@ =~= line0.push(END_BYTE));
                        }
                        self.rx_index = 0;
                        proof {
                            assert(self.line() =~= Seq::<u8>::empty());
                        }
                        return Ok(Some(frame));
                    }
                },
            }
        }
    }

    /// Sends `data` as a frame under `command`. Fails with `BufferOverflow`, sending
    /// nothing, when the payload exceeds `MAX_PAYLOAD` bytes. Bytes that do not fit in the
    /// transmit buffer are dropped.
    pub fn send_packet(&mut self, command: Command, data: &[u8]) -> (r: Result<(), ProtocolError>)
        requires
            old(self).wf(),
        ensures
            final(self).wf(),
            final(self).line() == old(self).line(),
            final(self).port().pending_rx() == old(self).port().pending_rx(),
            data@.len() > MAX_PAYLOAD ==> r == Err::<(), ProtocolError>(ProtocolError::BufferOverflow)
                && final(self).port() == old(self).port(),
            data@.len() <= MAX_PAYLOAD ==> r is Ok && final(self).port().pending_tx() == take_upto(
                old(self).port().pending_tx() + frame_of(command.spec_code(), data@),
                BUFFER_SIZE - 1,
            ),
    {
        if data.len() > MAX_PAYLOAD {
            return Err(ProtocolError::BufferOverflow);
        }
        let frame = build_frame(command.code(), data);
        self.uart.write_bytes(frame.as_slice());
        Ok(())
    }

    pub fn send_ping(&mut self) -> (r: Result<(), ProtocolError>)
        requires
            old(self).wf(),
        ensures
            final(self).wf(),
            r is Ok,
            final(self).port().pending_tx() == take_upto(
                old(self).port().pending_tx() + frame_of(Command::Ping.spec_code(), Seq::empty()),
                BUFFER_SIZE - 1,
            ),
            final(self).port().pending_rx() == old(self).port().pending_rx(),
    {
        let empty: Vec<u8> = Vec::new();
        proof {
            assert(empty@ =~= Seq::<u8>::empty());
        }
        self.send_packet(Command::Ping, empty.as_slice())
    }

    pub fn send_status(&mut self, status: u8) -> (r: Result<(), ProtocolError>)
        requires
            old(self).wf(),
        ensures
            final(self).wf(),
            r is Ok,
            final(self).port().pending_tx() == take_upto(
                old(self).port().pending_tx() + frame_of(Command::GetStatus.spec_code(), seq![status]),
                BUFFER_SIZE - 1,
            ),
            final(self).port().pending_rx() == old(self).port().pending_rx(),
    {
        let payload: Vec<u8> = vec![status];
        proof {
            assert(payload@ =~= seq![status]);
        }
        self.send_packet(Command::GetStatus, payload.as_slice())
    }

    pub fn send_data(&mut self, data: &[u8]) -> (r: Result<(), ProtocolError>)
        requires
            old(self).wf(),
        ensures
            final(self).wf(),
            data@.len() > MAX_PAYLOAD ==> r == Err::<(), ProtocolError>(ProtocolError::BufferOverflow)
                && final(self).port() == old(self).port(),
            data@.len() <= MAX_PAYLOAD ==> r is Ok && final(self).port().pending_tx() == take_upto(
                old(self).port().pending_tx() + frame_of(Command::GetData.spec_code(), data@),
                BUFFER_SIZE - 1,
            ),
            final(self).port().pending_rx() == old(self).port().pending_rx(),
    {
        self.send_packet(Command::GetData, data)
    }

    pub fn calculate_checksum(&self, data: &[u8]) -> (r: u8)
        ensures
            r == checksum_of(data@),
    {
        calculate_checksum(data)
    }

    pub fn verify_checksum(&self, data: &[u8], checksum: u8) -> (r: bool)
        ensures
            r == (checksum == checksum_of(data@)),
    {
        calculate_checksum(data) == checksum
    }

    /// Hands the protocol's port a byte from the receive interrupt; false when it was
    /// dropped.
    pub fn receive(&mut self, byte: u8) -> (r: bool)
        requires
            old(self).wf(),
        ensures
            final(self).wf(),
            r == (old(self).port().pending_rx().len() < BUFFER_SIZE - 1),
            final(self).port().pending_rx() == take_upto(old(self).port().pending_rx().push(byte), BUFFER_SIZE - 1),
            final(self).port().pending_tx() == old(self).port().pending_tx(),
            final(self).line() == old(self).line(),
    {
        self.uart.receive(byte)
    }

    /// The next byte the transmit interrupt sends, if any.
    pub fn next_tx_byte(&mut self) -> (r: Option<u8>)
        requires
            old(self).wf(),
        ensures
            final(self).wf(),
            old(self).port().pending_tx().len() == 0 ==> r is None,
            old(self).port().pending_tx().len() > 0 ==> r == Some(old(self).port().pending_tx()[0])
                && final(self).port().pending_tx() == old(self).port().pending_tx().drop_first(),
            final(self).port().pending_rx() == old(self).port().pending_rx(),
            final(self).line() == old(self).line(),
    {
        self.uart.next_tx_byte()
    }
}

} // verus!
