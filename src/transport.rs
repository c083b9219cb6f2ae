use vstd::prelude::*;
use crate::packet::ProtocolError;
use crate::uart::{Buffer, Uart, BUFFER_SIZE};

verus! {

pub const RX_BUFFER_SIZE: usize = 512;

pub const TX_BUFFER_SIZE: usize = 512;

/// Bytes that `flush_tx` moves from a transmit queue of `queued` bytes to a port whose
/// transmit buffer holds `in_port` bytes: as many as fit.
pub open spec fn flush_count(queued: int, in_port: int) -> int {
    if queued <= BUFFER_SIZE - 1 - in_port {
        queued
    } else {
        BUFFER_SIZE - 1 - in_port
    }
}

/// Byte stream over a serial port, with a receive and a transmit queue of its own.
pub struct Transport {
    uart: Uart,
    rx: Buffer,
    tx: Buffer,
}

impl Transport {
    pub closed spec fn wf(&self) -> bool {
        &&& self.uart.wf()
        &&& self.rx.wf()
        &&& self.tx.wf()
        &&& self.rx.capacity() == RX_BUFFER_SIZE - 1
        &&& self.tx.capacity() == TX_BUFFER_SIZE - 1
    }

    /// Received bytes not yet read, oldest first.
    pub closed spec fn rx_queue(&self) -> Seq<u8> {
        self.rx@
    }

    /// Bytes waiting to be handed to the port, oldest first.
    pub closed spec fn tx_queue(&self) -> Seq<u8> {
        self.tx@
    }

    pub closed spec fn port(&self) -> Uart {
        self.uart
    }

    /// Each queue holds at most one byte less than its slots.
    pub proof fn lemma_queue_bounds(&self)
        requires
            self.wf(),
        ensures
            self.rx_queue().len() <= RX_BUFFER_SIZE - 1,
            self.tx_queue().len() <= TX_BUFFER_SIZE - 1,
    {
        self.rx.lemma_len_bound();
        self.tx.lemma_len_bound();
    }

    pub fn new(uart: Uart) -> (r: Transport)
        requires
            uart.wf(),
        ensures
            r.wf(),
            r.rx_queue() == Seq::<u8>::empty(),
            r.tx_queue() == Seq::<u8>::empty(),
            r.port() == uart,
    {
        Transport { uart, rx: Buffer::with_slots(RX_BUFFER_SIZE), tx: Buffer::with_slots(TX_BUFFER_SIZE) }
    }

    /// Moves received bytes into `buffer`, as many as are queued and fit, and returns how
    /// many.
    pub fn read(&mut self, buffer: &mut [u8]) -> (r: Result<usize, ProtocolError>)
        requires
            old(self).wf(),
        ensures
            final(self).wf(),
            r is Ok,
            ({
                let n = r->Ok_0 as int;
                &&& n == if old(buffer)@.len() <= old(self).rx_queue().len() {
                    old(buffer)@.len() as int
                } else {
                    old(self).rx_queue().len() as int
                }
                &&& final(buffer)@ == old(self).rx_queue().subrange(0, n) + old(buffer)@.subrange(n, old(buffer)@.len() as int)
                &&& final(self).rx_queue() == old(self).rx_queue().subrange(n, old(self).rx_queue().len() as int)
            }),
            final(self).tx_queue() == old(self).tx_queue(),
            final(self).port() == old(self).port(),
    {
        let mut count: usize = 0;
        while count < buffer.len() && self.rx.len() > 0
            invariant
                self.wf(),
                count <= buffer@.len() == old(buffer)@.len(),
                count <= old(self).rx_queue().len(),
                self.rx_queue() == old(self).rx_queue().subrange(count as int, old(self).rx_queue().len() as int),
                buffer@ == old(self).rx_queue().subrange(0, count as int) + old(buffer)@.subrange(count as int, old(buffer)@.len() as int),
                self.tx_queue() == old(self).tx_queue(),
                self.port() == old(self).port(),
            decreases buffer@.len() - count,
        {
            let ghost q = self.rx@;
            match self.rx.read() {
                Some(b) => {
                    buffer[count] = b;
                    count = count + 1;
                    proof {
                        assert(self.rx_queue() =~= old(self).rx_queue().subrange(count as int, old(self).rx_queue().len() as int));
                        assert(buffer@ =~= old(self).rx_queue().subrange(0, count as int) + old(buffer)@.subrange(count as int, old(buffer)@.len() as int));
                    }
                },
                None => {},
            }
        }
        Ok(count)
    }

    /// Queues `data` for sending and then flushes what the port takes. Fails with
    /// `BufferOverflow` when the transmit queue fills up: the bytes that fitted stay
    /// queued, and nothing is flushed.
    pub fn write(&mut self, data: &[u8]) -> (r: Result<usize, ProtocolError>)
        requires
            old(self).wf(),
        ensures
            final(self).wf(),
            final(self).rx_queue() == old(self).rx_queue(),
            final(self).port().pending_rx() == old(self).port().pending_rx(),
            ({
                let room = TX_BUFFER_SIZE - 1 - old(self).tx_queue().len();
                let all = old(self).tx_queue() + data@;
                if data@.len() <= room {
                    let m = flush_count(all.len() as int, old(self).port().pending_tx().len() as int);
                    &&& r == Ok::<usize, ProtocolError>(data@.len() as usize)
                    &&& final(self).port().pending_tx() == old(self).port().pending_tx() + all.subrange(0, m)
                    &&& final(self).tx_queue() == all.subrange(m, all.len() as int)
                } else {
                    &&& r == Err::<usize, ProtocolError>(ProtocolError::BufferOverflow)
                    &&& final(self).tx_queue() == all.subrange(0, TX_BUFFER_SIZE - 1)
                    &&& final(self).port() == old(self).port()
                }
            }),
    {
        let mut count: usize = 0;
        proof {
            self.tx.lemma_len_bound();
            self.uart.lemma_len_bounds();
        }
        while count < data.len()
            invariant
                self.wf(),
                count <= data@.len(),
                self.tx_queue() == old(self).tx_queue() + data@.subrange(0, count as int),
                self.rx_queue() == old(self).rx_queue(),
                self.port() == old(self).port(),
            decreases data@.len() - count,
        {
            if !self.tx.write(data[count]) {
                proof {
                    self.tx.lemma_len_bound();
                    assert(self.tx_queue() =~= (old(self).tx_queue() + data@).subrange(0, TX_BUFFER_SIZE - 1));
                }
                return Err(ProtocolError::BufferOverflow);
            }
            count = count + 1;
            proof {
                assert(self.tx_queue() =~= old(self).tx_queue() + data@.subrange(0, count as int));
            }
        }
        proof {
            assert(data@.subrange(0, count as int) =~= data@);
            self.tx.lemma_len_bound();
        }
        match self.flush_tx() {
            Ok(()) => Ok(count),
            Err(e) => Err(e),
        }
    }

    /// Moves received bytes from the port to the receive queue, then flushes the transmit
    /// queue.
    pub fn process(&mut self) -> (r: Result<(), ProtocolError>)
        requires
            old(self).wf(),
        ensures
            final(self).wf(),
            ({
                let room = RX_BUFFER_SIZE - 1 - old(self).rx_queue().len();
                let input = old(self).port().pending_rx();
                if input.len() <= room {
                    let m = flush_count(old(self).tx_queue().len() as int, old(self).port().pending_tx().len() as int);
                    &&& r is Ok
                    &&& final(self).rx_queue() == old(self).rx_queue() + input
                    &&& final(self).port().pending_rx() == Seq::<u8>::empty()
                    &&& final(self).port().pending_tx() == old(self).port().pending_tx() + old(self).tx_queue().subrange(0, m)
                    &&& final(self).tx_queue() == old(self).tx_queue().subrange(m, old(self).tx_queue().len() as int)
                } else {
                    &&& r == Err::<(), ProtocolError>(ProtocolError::BufferOverflow)
                    &&& final(self).rx_queue() == old(self).rx_queue() + input.subrange(0, room)
                    &&& final(self).port().pending_rx() == input.subrange(room + 1, input.len() as int)
                    &&& final(self).tx_queue() == old(self).tx_queue()
                    &&& final(self).port().pending_tx() == old(self).port().pending_tx()
                }
            }),
    {
        match self.process_rx() {
            Ok(()) => {},
            Err(e) => {
                return Err(e);
            },
        }
        self.process_tx()
    }

    /// Moves received bytes from the port to the receive queue. Fails with
    /// `BufferOverflow` when the queue is full; the byte in hand is then lost.
    fn process_rx(&mut self) -> (r: Result<(), ProtocolError>)
        requires
            old(self).wf(),
        ensures
            final(self).wf(),
            final(self).tx_queue() == old(self).tx_queue(),
            final(self).port().pending_tx() == old(self).port().pending_tx(),
            ({
                let room = RX_BUFFER_SIZE - 1 - old(self).rx_queue().len();
                let input = old(self).port().pending_rx();
                if input.len() <= room {
                    &&& r is Ok
                    &&& final(self).rx_queue() == old(self).rx_queue() + input
                    &&& final(self).port().pending_rx() == Seq::<u8>::empty()
                } else {
                    &&& r == Err::<(), ProtocolError>(ProtocolError::BufferOverflow)
                    &&& final(self).rx_queue() == old(self).rx_queue() + input.subrange(0, room)
                    &&& final(self).port().pending_rx() == input.subrange(room + 1, input.len() as int)
                }
            }),
    {
        let ghost input = self.uart.pending_rx();
        let ghost mut k: int = 0;
        proof {
            self.rx.lemma_len_bound();
        }
        loop
            invariant
                self.wf(),
                input == old(self).port().pending_rx(),
                0 <= k <= input.len(),
                k <= RX_BUFFER_SIZE - 1 - old(self).rx_queue().len(),
                self.uart.pending_rx() == input.subrange(k, input.len() as int),
                self.rx_queue() == old(self).rx_queue() + input.subrange(0, k),
                self.tx_queue() == old(self).tx_queue(),
                self.uart.pending_tx() == old(self).uart.pending_tx(),
            decreases input.len() - k,
        {
            match self.uart.read_byte() {
                None => {
                    proof {
                        assert(input.subrange(0, k) =~= input);
                        assert(self.uart.pending_rx() =~= Seq::<u8>::empty());
                    }
                    return Ok(());
                },
                Some(byte) => {
                    proof {
                        assert(self.uart.pending_rx() =~= input.subrange(k + 1, input.len() as int));
                        assert(byte == input[k]);
                    }
                    if !self.rx.write(byte) {
                        return Err(ProtocolError::BufferOverflow);
                    }
                    proof {
                        k = k + 1;
                        assert(self.rx_queue() =~= old(self).rx_queue() + input.subrange(0, k));
                    }
                },
            }
        }
    }

    fn process_tx(&mut self) -> (r: Result<(), ProtocolError>)
        requires
            old(self).wf(),
        ensures
            final(self).wf(),
            r is Ok,
            ({
                let m = flush_count(old(self).tx_queue().len() as int, old(self).port().pending_tx().len() as int);
                &&& final(self).port().pending_tx() == old(self).port().pending_tx() + old(self).tx_queue().subrange(0, m)
                &&& final(self).tx_queue() == old(self).tx_queue().subrange(m, old(self).tx_queue().len() as int)
            }),
            final(self).rx_queue() == old(self).rx_queue(),
            final(self).port().pending_rx() == old(self).port().pending_rx(),
    {
        self.flush_tx()
    }

    /// Hands queued bytes to the port while its transmit buffer has room.
    fn flush_tx(&mut self) -> (r: Result<(), ProtocolError>)
        requires
            old(self).wf(),
        ensures
            final(self).wf(),
            r is Ok,
            ({
                let m = flush_count(old(self).tx_queue().len() as int, old(self).port().pending_tx().len() as int);
                &&& final(self).port().pending_tx() == old(self).port().pending_tx() + old(self).tx_queue().subrange(0, m)
                &&& final(self).tx_queue() == old(self).tx_queue().subrange(m, old(self).tx_queue().len() as int)
            }),
            final(self).rx_queue() == old(self).rx_queue(),
            final(self).port().pending_rx() == old(self).port().pending_rx(),
    {
        let ghost q = self.tx@;
        let ghost p = self.uart.pending_tx();
        let ghost mut k: int = 0;
        proof {
            self.uart.lemma_len_bounds();
        }
        while self.tx.len() > 0 && self.uart.is_tx_ready()
            invariant
                self.wf(),
                q == old(self).tx_queue(),
                p == old(self).port().pending_tx(),
                0 <= k <= flush_count(q.len() as int, p.len() as int),
                self.tx@ == q.subrange(k, q.len() as int),
                self.uart.pending_tx() == p + q.subrange(0, k),
                self.rx_queue() == old(self).rx_queue(),
                self.uart.pending_rx() == old(self).port().pending_rx(),
            decreases self.tx@.len(),
        {
            let b = match self.tx.read() {
                Some(b) => b,
                None => 0,
            };
            self.uart.write_byte(b);
            proof {
                assert(b == q[k]);
                assert(p + q.subrange(0, k + 1) =~= (p + q.subrange(0, k)).push(b));
                k = k + 1;
                assert(self.tx@ =~= q.subrange(k, q.len() as int));
            }
        }
        proof {
            self.uart.lemma_len_bounds();
            assert(k == flush_count(q.len() as int, p.len() as int));
        }
        Ok(())
    }

    /// Received bytes waiting to be read.
    pub fn bytes_available(&self) -> (r: usize)
        requires
            self.wf(),
        ensures
            r == self.rx_queue().len(),
            r < RX_BUFFER_SIZE,
    {
        proof {
            self.lemma_queue_bounds();
        }
        self.rx.len()
    }

    /// Bytes that can still be queued for sending.
    pub fn space_available(&self) -> (r: usize)
        requires
            self.wf(),
        ensures
            r == TX_BUFFER_SIZE - 1 - self.tx_queue().len(),
    {
        self.tx.space()
    }

    /// Hands the port a byte from the receive interrupt; false when it was dropped.
    pub fn receive(&mut self, byte: u8) -> (r: bool)
        requires
            old(self).wf(),
        ensures
            final(self).wf(),
            r == (old(self).port().pending_rx().len() < BUFFER_SIZE - 1),
            final(self).port().pending_rx() == crate::uart::take_upto(old(self).port().pending_rx().push(byte), BUFFER_SIZE - 1),
            final(self).port().pending_tx() == old(self).port().pending_tx(),
            final(self).rx_queue() == old(self).rx_queue(),
            final(self).tx_queue() == old(self).tx_queue(),
    {
        self.uart.receive(byte)
    }

    /// The next byte the transmit interrupt sends, if any.
    pub fn next_tx_byte(&mut self) -> (r: Option<u8>)
        requires
            old(self).wf(),
        ensures
            final(self).wf(),
            old(self).port().pending_tx().len() == 0 ==> r is None,
            old(self).port().pending_tx().len() > 0 ==> r == Some(old(self).port().pending_tx()[0])
                && final(self).port().pending_tx() == old(self).port().pending_tx().drop_first(),
            final(self).port().pending_rx() == old(self).port().pending_rx(),
            final(self).rx_queue() == old(self).rx_queue(),
            final(self).tx_queue() == old(self).tx_queue(),
    {
        self.uart.next_tx_byte()
    }
}

} // verus!
