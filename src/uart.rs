use vstd::prelude::*;
use vstd::string::StringSliceAdditionalSpecFns;

verus! {

/// Slots of a UART ring buffer; one is always left empty, so it holds one byte less.
pub const BUFFER_SIZE: usize = 32;

/// Largest number of slots a ring buffer may have.
pub const MAX_RING_SLOTS: usize = 4096;

/// Ring buffer of bytes between an interrupt handler and the main line. One slot is always
/// left empty, so a buffer of `n` slots holds at most `n - 1` bytes.
pub struct Buffer {
    data: Vec<u8>,
    write_idx: usize,
    read_idx: usize,
}

pub open spec fn ring_len(write_idx: int, read_idx: int, slots: int) -> int {
    if write_idx >= read_idx {
        write_idx - read_idx
    } else {
        write_idx + slots - read_idx
    }
}

proof fn lemma_wrap(x: int, n: int)
    requires
        0 < n,
        0 <= x < 2 * n,
    ensures
        x % n == if x < n {
            x
        } else {
            x - n
        },
{
    if x < n {
        vstd::arithmetic::div_mod::lemma_small_mod(x as nat, n as nat);
    } else {
        vstd::arithmetic::div_mod::lemma_small_mod((x - n) as nat, n as nat);
        vstd::arithmetic::div_mod::lemma_mod_add_multiples_vanish(x - n, n);
    }
}

impl View for Buffer {
    type V = Seq<u8>;

    /// The buffered bytes, oldest first.
    closed spec fn view(&self) -> Seq<u8> {
        Seq::new(
            ring_len(self.write_idx as int, self.read_idx as int, self.data@.len() as int) as nat,
            |k: int| self.data@[(self.read_idx + k) % (self.data@.len() as int)],
        )
    }
}

impl Buffer {
    pub closed spec fn wf(&self) -> bool {
        &&& 2 <= self.data@.len() <= MAX_RING_SLOTS
        &&& self.write_idx < self.data@.len()
        &&& self.read_idx < self.data@.len()
    }

    /// Most bytes the buffer holds.
    pub closed spec fn capacity(&self) -> nat {
        (self.data@.len() - 1) as nat
    }

    pub proof fn lemma_len_bound(&self)
        requires
            self.wf(),
        ensures
            self@.len() <= self.capacity(),
    {
    }

    /// An empty buffer of `BUFFER_SIZE` slots.
    pub fn new() -> (r: Buffer)
        ensures
            r.wf(),
            r@ == Seq::<u8>::empty(),
            r.capacity() == BUFFER_SIZE - 1,
    {
        Buffer::with_slots(BUFFER_SIZE)
    }

    /// An empty buffer of `slots` slots.
    pub fn with_slots(slots: usize) -> (r: Buffer)
        requires
            2 <= slots <= MAX_RING_SLOTS,
        ensures
            r.wf(),
            r@ == Seq::<u8>::empty(),
            r.capacity() == slots - 1,
    {
        let r = Buffer { data: vec![0u8; slots], write_idx: 0, read_idx: 0 };
        proof {
            assert(r@ =~= Seq::<u8>::empty());
        }
        r
    }

    pub fn len(&self) -> (r: usize)
        requires
            self.wf(),
        ensures
            r == self@.len(),
    {
        if self.write_idx >= self.read_idx {
            self.write_idx - self.read_idx
        } else {
            self.write_idx + self.data.len() - self.read_idx
        }
    }

    /// Room for more bytes.
    pub fn space(&self) -> (r: usize)
        requires
            self.wf(),
        ensures
            r == self.capacity() - self@.len(),
    {
        self.data.len() - 1 - self.len()
    }

    /// Appends `byte` unless the buffer is full.
    pub fn write(&mut self, byte: u8) -> (r: bool)
        requires
            old(self).wf(),
        ensures
            final(self).wf(),
            final(self).capacity() == old(self).capacity(),
            r == (old(self)@.len() < old(self).capacity()),
            r ==> final(self)@ == old(self)@.push(byte),
            !r ==> final(self)@ == old(self)@,
    {
        let next_write = (self.write_idx + 1) % self.data.len();
        proof {
            lemma_wrap(self.write_idx + 1, self.data@.len() as int);
        }
        if next_write != self.read_idx {
            let ghost before = self@;
            let ghost n = self.data@.len() as int;
            let ghost rd = self.read_idx as int;
            let ghost wr = self.write_idx as int;
            self.data.set(self.write_idx, byte);
            self.write_idx = next_write;
            proof {
                assert(self@.len() == before.len() + 1);
                assert forall|k: int| 0 <= k < self@.len() implies self@[k] == before.push(byte)[k] by {
                    lemma_wrap(rd + k, n);
                }
                assert(self@ =~= before.push(byte));
            }
            true
        } else {
            false
        }
    }

    /// Removes and returns the oldest byte.
    pub fn read(&mut self) -> (r: Option<u8>)
        requires
            old(self).wf(),
        ensures
            final(self).wf(),
            final(self).capacity() == old(self).capacity(),
            old(self)@.len() == 0 ==> r is None && final(self)@ == old(self)@,
            old(self)@.len() > 0 ==> r == Some(old(self)@[0]) && final(self)@ == old(self)@.drop_first(),
    {
        if self.read_idx != self.write_idx {
            let byte = self.data[self.read_idx];
            let ghost before = self@;
            let ghost n = self.data@.len() as int;
            let ghost rd = self.read_idx as int;
            proof {
                lemma_wrap(rd + 1, n);
                lemma_wrap(rd, n);
            }
            self.read_idx = (self.read_idx + 1) % self.data.len();
            proof {
                assert(self@.len() == before.len() - 1);
                assert forall|k: int| 0 <= k < self@.len() implies self@[k] == before.drop_first()[k] by {
                    lemma_wrap(rd + 1 + k, n);
                    lemma_wrap(self.read_idx + k, n);
                }
                assert(self@ =~= before.drop_first());
            }
            Some(byte)
        } else {
            None
        }
    }
}

/// A serial port seen from the main line: bytes to send wait in `tx` until the
/// transmit interrupt takes them, and received bytes wait in `rx` until read.
pub struct Uart {
    tx: Buffer,
    rx: Buffer,
    tx_interrupt: bool,
}

/// The first `n` bytes of `s`, or all of them when there are fewer.
pub open spec fn take_upto(s: Seq<u8>, n: int) -> Seq<u8> {
    if s.len() <= n {
        s
    } else {
        s.subrange(0, n)
    }
}

impl Uart {
    pub closed spec fn wf(&self) -> bool {
        &&& self.tx.wf()
        &&& self.rx.wf()
        &&& self.tx.capacity() == BUFFER_SIZE - 1
        &&& self.rx.capacity() == BUFFER_SIZE - 1
    }

    pub proof fn lemma_len_bounds(&self)
        requires
            self.wf(),
        ensures
            self.pending_tx().len() <= BUFFER_SIZE - 1,
            self.pending_rx().len() <= BUFFER_SIZE - 1,
    {
        self.tx.lemma_len_bound();
        self.rx.lemma_len_bound();
    }

    /// Bytes waiting to be sent, oldest first.
    pub closed spec fn pending_tx(&self) -> Seq<u8> {
        self.tx@
    }

    /// Bytes received and not yet read, oldest first.
    pub closed spec fn pending_rx(&self) -> Seq<u8> {
        self.rx@
    }

    /// Whether the transmit interrupt is wanted.
    pub closed spec fn tx_interrupt_enabled(&self) -> bool {
        self.tx_interrupt
    }

    pub fn new() -> (r: Uart)
        ensures
            r.wf(),
            r.pending_tx() == Seq::<u8>::empty(),
            r.pending_rx() == Seq::<u8>::empty(),
            !r.tx_interrupt_enabled(),
    {
        Uart { tx: Buffer::new(), rx: Buffer::new(), tx_interrupt: false }
    }

    /// Queues `byte` for sending and enables the transmit interrupt; the byte is dropped
    /// when the transmit buffer is full.
    pub fn write_byte(&mut self, byte: u8)
        requires
            old(self).wf(),
        ensures
            final(self).wf(),
            final(self).pending_tx() == take_upto(old(self).pending_tx().push(byte), BUFFER_SIZE - 1),
            final(self).pending_rx() == old(self).pending_rx(),
            final(self).tx_interrupt_enabled(),
    {
        self.tx.write(byte);
        self.tx_interrupt = true;
    }

    /// The oldest received byte, if any.
    pub fn read_byte(&mut self) -> (r: Option<u8>)
        requires
            old(self).wf(),
        ensures
            final(self).wf(),
            old(self).pending_rx().len() == 0 ==> r is None && final(self).pending_rx() == old(self).pending_rx(),
            old(self).pending_rx().len() > 0 ==> r == Some(old(self).pending_rx()[0]) && final(self).pending_rx()
                == old(self).pending_rx().drop_first(),
            final(self).pending_tx() == old(self).pending_tx(),
            final(self).tx_interrupt_enabled() == old(self).tx_interrupt_enabled(),
    {
        self.rx.read()
    }

    /// Queues `bytes` for sending; those that do not fit are dropped.
    pub fn write_bytes(&mut self, bytes: &[u8])
        requires
            old(self).wf(),
        ensures
            final(self).wf(),
            final(self).pending_tx() == take_upto(old(self).pending_tx() + bytes@, BUFFER_SIZE - 1),
            final(self).pending_rx() == old(self).pending_rx(),
            bytes@.len() > 0 ==> final(self).tx_interrupt_enabled(),
            bytes@.len() == 0 ==> final(self).tx_interrupt_enabled() == old(self).tx_interrupt_enabled(),
    {
        let mut i: usize = 0;
        while i < bytes.len()
            invariant
                self.wf(),
                i <= bytes@.len(),
                self.pending_tx() == take_upto(old(self).pending_tx() + bytes@.subrange(0, i as int), BUFFER_SIZE - 1),
                self.pending_rx() == old(self).pending_rx(),
                i > 0 ==> self.tx_interrupt_enabled(),
                i == 0 ==> self.tx_interrupt_enabled() == old(self).tx_interrupt_enabled(),
            decreases bytes@.len() - i,
        {
            self.write_byte(bytes[i]);
            i = i + 1;
            proof {
                assert(old(self).pending_tx() + bytes@.subrange(0, i as int) =~= (old(self).pending_tx() + bytes@.subrange(0, i - 1)).push(bytes@[i - 1]));
            }
        }
        proof {
            assert(bytes@.subrange(0, bytes@.len() as int) =~= bytes@);
        }
    }

    /// Queues the bytes of `s` for sending; those that do not fit are dropped.
    pub fn write_str(&mut self, s: &str)
        requires
            old(self).wf(),
        ensures
            final(self).wf(),
            final(self).pending_tx() == take_upto(old(self).pending_tx() + s.spec_bytes(), BUFFER_SIZE - 1),
            final(self).pending_rx() == old(self).pending_rx(),
    {
        self.write_bytes(s.as_bytes());
    }

    /// Room is left in the transmit buffer.
    pub fn is_tx_ready(&self) -> (r: bool)
        requires
            self.wf(),
        ensures
            r == (self.pending_tx().len() < BUFFER_SIZE - 1),
    {
        self.tx.len() < BUFFER_SIZE - 1
    }

    /// A received byte is waiting.
    pub fn is_rx_ready(&self) -> (r: bool)
        requires
            self.wf(),
        ensures
            r == (self.pending_rx().len() > 0),
    {
        self.rx.len() > 0
    }

    /// Stores a byte taken from the receive data register; it is dropped when the receive
    /// buffer is full.
    pub fn receive(&mut self, byte: u8) -> (r: bool)
        requires
            old(self).wf(),
        ensures
            final(self).wf(),
            r == (old(self).pending_rx().len() < BUFFER_SIZE - 1),
            final(self).pending_rx() == take_upto(old(self).pending_rx().push(byte), BUFFER_SIZE - 1),
            final(self).pending_tx() == old(self).pending_tx(),
            final(self).tx_interrupt_enabled() == old(self).tx_interrupt_enabled(),
    {
        self.rx.write(byte)
    }

    /// The next byte for the transmit data register; when none is left the transmit
    /// interrupt is disabled.
    pub fn next_tx_byte(&mut self) -> (r: Option<u8>)
        requires
            old(self).wf(),
        ensures
            final(self).wf(),
            old(self).pending_tx().len() == 0 ==> r is None && final(self).pending_tx() == old(self).pending_tx()
                && !final(self).tx_interrupt_enabled(),
            old(self).pending_tx().len() > 0 ==> r == Some(old(self).pending_tx()[0]) && final(self).pending_tx()
                == old(self).pending_tx().drop_first() && final(self).tx_interrupt_enabled()
                == old(self).tx_interrupt_enabled(),
            final(self).pending_rx() == old(self).pending_rx(),
    {
        let r = self.tx.read();
        if r.is_none() {
            self.tx_interrupt = false;
        }
        r
    }
}

} // verus!
