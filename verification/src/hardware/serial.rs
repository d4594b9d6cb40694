//! Serial ports.
use vstd::prelude::*;

verus! {

/// The chip takes so many bytes at once.
pub const FIFO_SIZE: usize = 16;
/// The size of the ring of bytes that wait to be sent.
pub const BUFFER_SIZE: usize = 256;
/// How often a busy port is asked before it is given up.
pub const SEND_POLLS: u32 = 100_000;

/// A byte written to a port of the machine.
#[derive(Clone, Copy, PartialEq, Eq, Structural, Debug)]
pub struct PortWrite {
    pub port: u16,
    pub value: u8,
}

/// The ports of a serial chip.
#[derive(Clone, Copy, PartialEq, Eq, Structural, Debug)]
pub struct SerialPort {
    /// Bytes to send, and bytes received.
    pub data: u16,
    pub interrupt_enable: u16,
    pub fifo_control: u16,
    pub line_control: u16,
    pub modem_control: u16,
    pub line_status: u16,
    pub modem_status: u16,
}

/// What a sender that waits for the chip does next.
#[derive(Clone, Copy, PartialEq, Eq, Structural, Debug)]
pub enum Poll {
    /// Send.
    Ready,
    /// Ask again.
    Again,
    /// Give up: the chip never becomes ready.
    GiveUp,
}

/// Bit 5 of the line status: all bytes were sent.
pub open spec fn transmit_empty(status: u8) -> bool {
    status / 32 % 2 == 1
}

/// Bit 0 of the line status: a byte has arrived.
pub open spec fn data_ready(status: u8) -> bool {
    status % 2 == 1
}

/// The writes that set a chip up.
pub open spec fn setup_writes(p: SerialPort) -> Seq<PortWrite> {
    seq![
        PortWrite { port: p.interrupt_enable, value: 0 },
        PortWrite { port: p.line_control, value: 0x80 },
        PortWrite { port: p.data, value: 0x01 },
        PortWrite { port: p.interrupt_enable, value: 0 },
        PortWrite { port: p.line_control, value: 0x03 },
        PortWrite { port: p.fifo_control, value: 0xc7 },
        PortWrite { port: p.modem_control, value: 0x08 },
        PortWrite { port: p.interrupt_enable, value: 1 },
    ]
}

impl SerialPort {
    /// The ports of the chip at a base port: seven in a row.
    pub open spec fn at(base_port: u16) -> SerialPort {
        SerialPort {
            data: base_port,
            interrupt_enable: (base_port + 1) as u16,
            fifo_control: (base_port + 2) as u16,
            line_control: (base_port + 3) as u16,
            modem_control: (base_port + 4) as u16,
            line_status: (base_port + 5) as u16,
            modem_status: (base_port + 6) as u16,
        }
    }

    /// The ports of the chip at a base port.
    pub fn new(base_port: u16) -> (r: Self)
        requires
            base_port + 6 <= u16::MAX,
        ensures
            r == Self::at(base_port),
    {
        SerialPort {
            data: base_port,
            interrupt_enable: base_port + 1,
            fifo_control: base_port + 2,
            line_control: base_port + 3,
            modem_control: base_port + 4,
            line_status: base_port + 5,
            modem_status: base_port + 6,
        }
    }

    /// What sets the chip up: 115200 baud, eight bits, no parity, one stop bit, buffers
    /// on and cleared, and an interrupt for each byte that arrives.
    pub fn init(&self) -> (r: Vec<PortWrite>)
        ensures
            r@ == setup_writes(*self),
    {
        let r: Vec<PortWrite> = vec![
            PortWrite { port: self.interrupt_enable, value: 0 },
            PortWrite { port: self.line_control, value: 0x80 },
            PortWrite { port: self.data, value: 0x01 },
            PortWrite { port: self.interrupt_enable, value: 0 },
            PortWrite { port: self.line_control, value: 0x03 },
            PortWrite { port: self.fifo_control, value: 0xc7 },
            PortWrite { port: self.modem_control, value: 0x08 },
            PortWrite { port: self.interrupt_enable, value: 1 },
        ];
        assert(r@ =~= setup_writes(*self));
        r
    }

    /// Send a byte once the chip is ready.
    pub fn send_byte(&self, byte: u8) -> (r: PortWrite)
        ensures
            r == (PortWrite { port: self.data, value: byte }),
    {
        PortWrite { port: self.data, value: byte }
    }
}

/// Whether the chip still sends.
pub fn is_transmitting(line_status: u8) -> (r: bool)
    ensures
        r == !transmit_empty(line_status),
{
    line_status / 32 % 2 == 0
}

/// Whether a byte has arrived.
pub fn has_data(line_status: u8) -> (r: bool)
    ensures
        r == data_ready(line_status),
{
    line_status % 2 == 1
}

/// A wait for the chip that does not last for ever.
pub struct SendWait {
    pub timeout: u32,
}

impl SendWait {
    pub open spec fn wf(&self) -> bool {
        1 <= self.timeout <= SEND_POLLS
    }

    pub fn new() -> (r: Self)
        ensures
            r.wf(),
            r.timeout == SEND_POLLS,
    {
        SendWait { timeout: SEND_POLLS }
    }

    /// What the line status says. The last poll of a busy chip gives up.
    pub fn poll(&mut self, line_status: u8) -> (r: Poll)
        requires
            old(self).wf(),
        ensures
            r == (if transmit_empty(line_status) {
                Poll::Ready
            } else if old(self).timeout == 1 {
                Poll::GiveUp
            } else {
                Poll::Again
            }),
            r == Poll::Again ==> final(self).wf() && final(self).timeout == old(self).timeout - 1,
    {
        if !is_transmitting(line_status) {
            return Poll::Ready;
        }
        self.timeout = self.timeout - 1;
        if self.timeout == 0 { Poll::GiveUp } else { Poll::Again }
    }
}

/// A port with a ring of bytes that wait to be sent.
pub struct BufferedSerialPort {
    pub port: SerialPort,
    pub buffer: Vec<u8>,
    pub read_idx: usize,
    pub write_idx: usize,
}

impl BufferedSerialPort {
    pub open spec fn wf(&self) -> bool {
        self.buffer@.len() == BUFFER_SIZE && self.read_idx < BUFFER_SIZE && self.write_idx
            < BUFFER_SIZE
    }

    /// How many bytes wait.
    pub open spec fn count(&self) -> int {
        if self.write_idx >= self.read_idx {
            self.write_idx - self.read_idx
        } else {
            self.write_idx + BUFFER_SIZE - self.read_idx
        }
    }

    pub open spec fn index(&self, i: int) -> int {
        if self.read_idx + i < BUFFER_SIZE {
            self.read_idx + i
        } else {
            self.read_idx + i - BUFFER_SIZE
        }
    }

    /// The bytes that wait, the oldest first.
    pub open spec fn waiting(&self) -> Seq<u8> {
        Seq::new(self.count() as nat, |i: int| self.buffer@[self.index(i)])
    }

    pub fn new(port: SerialPort) -> (r: Self)
        ensures
            r.wf(),
            r.port == port,
            r.waiting() == Seq::<u8>::empty(),
    {
        let r: BufferedSerialPort = BufferedSerialPort {
            port,
            buffer: vec![0u8; BUFFER_SIZE],
            read_idx: 0,
            write_idx: 0,
        };
        assert(r.waiting() =~= Seq::<u8>::empty());
        r
    }

    /// Take bytes from a position on, as many as there is room for: the ring holds one
    /// byte less than its size. Gives the position after them.
    pub fn push(&mut self, data: &[u8], from: usize) -> (r: usize)
        requires
            old(self).wf(),
            from <= data@.len(),
        ensures
            final(self).wf(),
            final(self).port == old(self).port,
            from <= r <= data@.len(),
            final(self).waiting() == old(self).waiting() + data@.subrange(from as int, r as int),
            r < data@.len() ==> final(self).waiting().len() == BUFFER_SIZE - 1,
    {
        let mut i: usize = from;
        let ghost before = self.waiting();
        assert(data@.subrange(from as int, from as int) =~= Seq::empty());
        assert(before + Seq::empty() =~= before);
        while i < data.len()
            invariant
                self.wf(),
                self.port == old(self).port,
                from <= i <= data@.len(),
                self.waiting() == before + data@.subrange(from as int, i as int),
                before == old(self).waiting(),
            decreases data@.len() - i,
        {
            let next: usize = if self.write_idx + 1 == BUFFER_SIZE { 0 } else { self.write_idx + 1 };
            if next == self.read_idx {
                assert(self.waiting().len() == BUFFER_SIZE - 1);
                return i;
            }
            let ghost mid = *self;
            let slot: usize = self.write_idx;
            self.buffer.set(slot, data[i]);
            self.write_idx = next;
            proof {
                assert forall|k: int| 0 <= k < mid.count() implies self.waiting()[k]
                    == mid.waiting()[k] by {
                    assert(self.index(k) == mid.index(k));
                    assert(mid.index(k) != slot);
                }
                assert(self.index(mid.count()) == slot);
                assert(self.waiting() =~= mid.waiting().push(data@[i as int]));
                assert(data@.subrange(from as int, i + 1) =~= data@.subrange(
                    from as int, i as int,
                ).push(data@[i as int]));
                assert(self.waiting() =~= before + data@.subrange(from as int, i + 1));
            }
            i += 1;
        }
        i
    }

    /// Take the bytes that the chip gets next: the oldest, as many as it takes at once.
    pub fn flush(&mut self) -> (r: Vec<u8>)
        requires
            old(self).wf(),
        ensures
            final(self).wf(),
            final(self).port == old(self).port,
            r@ + final(self).waiting() == old(self).waiting(),
            r@.len() == (if old(self).waiting().len() < FIFO_SIZE {
                old(self).waiting().len() as int
            } else {
                FIFO_SIZE as int
            }),
    {
        let mut out: Vec<u8> = Vec::new();
        let ghost before = self.waiting();
        assert(Seq::<u8>::empty() + before =~= before);
        while out.len() < FIFO_SIZE && self.read_idx != self.write_idx
            invariant
                self.wf(),
                self.port == old(self).port,
                before == old(self).waiting(),
                out@ + self.waiting() == before,
                out@.len() <= FIFO_SIZE,
            ensures
                out@.len() == FIFO_SIZE || self.waiting().len() == 0,
            decreases FIFO_SIZE - out@.len(),
        {
            let ghost mid = *self;
            let byte: u8 = self.buffer[self.read_idx];
            out.push(byte);
            self.read_idx = if self.read_idx + 1 == BUFFER_SIZE { 0 } else { self.read_idx + 1 };
            proof {
                assert(mid.index(0) == mid.read_idx);
                assert forall|k: int| 0 <= k < self.count() implies self.waiting()[k]
                    == mid.waiting()[k + 1] by {
                    assert(self.index(k) == mid.index(k + 1));
                }
                assert(mid.waiting() =~= seq![byte] + self.waiting());
                assert(out@ + self.waiting() =~= before);
            }
        }
        out
    }

    /// Whether to go on sending after a push up to `next` and a flush: where bytes remain
    /// and the ring has room again. What remains while the chip is stuck is dropped.
    pub fn goes_on(&self, data: &[u8], next: usize) -> (r: bool)
        requires
            self.wf(),
        ensures
            r == (next < data@.len() && self.waiting().len() < BUFFER_SIZE - 1),
    {
        let end: usize = if self.write_idx + 1 == BUFFER_SIZE { 0 } else { self.write_idx + 1 };
        next < data.len() && end != self.read_idx
    }

    /// The byte that has arrived, where the line status says that one has. `data` is
    /// what the data port holds.
    pub fn read_byte(&self, line_status: u8, data: u8) -> (r: Option<u8>)
        ensures
            r == (if data_ready(line_status) { Some(data) } else { None }),
    {
        if has_data(line_status) { Some(data) } else { None }
    }

    /// Whether there is nothing to send.
    pub fn is_empty(&self) -> (r: bool)
        requires
            self.wf(),
        ensures
            r == (self.waiting().len() == 0),
    {
        self.read_idx == self.write_idx
    }
}

/// Up to four ports by number.
pub struct ComPorts {
    pub ports: Vec<Option<BufferedSerialPort>>,
}

impl ComPorts {
    pub open spec fn wf(&self) -> bool {
        self.ports@.len() == 4 && forall|i: int|
            0 <= i < 4 ==> ((#[trigger] self.ports@[i]) matches Some(p) ==> p.wf())
    }

    pub fn new() -> (r: Self)
        ensures
            r.wf(),
            forall|i: int| 0 <= i < 4 ==> (#[trigger] r.ports@[i]) is None,
    {
        let mut ports: Vec<Option<BufferedSerialPort>> = Vec::new();
        ports.push(None);
        ports.push(None);
        ports.push(None);
        ports.push(None);
        ComPorts { ports }
    }

    /// Set up a port. Gives what is written to the machine for it.
    pub fn init_port(&mut self, index: usize, base_port: u16) -> (r: Vec<PortWrite>)
        requires
            old(self).wf(),
            index < 4,
            base_port + 6 <= u16::MAX,
        ensures
            final(self).wf(),
            final(self).ports@[index as int] matches Some(p) && p.port == SerialPort::at(base_port)
                && p.waiting() == Seq::<u8>::empty(),
            forall|i: int|
                0 <= i < 4 && i != index ==> #[trigger] final(self).ports@[i] == old(
                    self,
                ).ports@[i],
            r@ == setup_writes(SerialPort::at(base_port)),
    {
        let port: SerialPort = SerialPort::new(base_port);
        let writes: Vec<PortWrite> = port.init();
        self.ports.set(index, Some(BufferedSerialPort::new(port)));
        writes
    }

    /// Whether a port was set up.
    pub fn port_exists(&self, index: usize) -> (r: bool)
        ensures
            r == (index < self.ports@.len() && self.ports@[index as int] is Some),
    {
        index < self.ports.len() && self.ports[index].is_some()
    }
}

/// Bytes leave the ring in the order in which they came, and none is lost: after some
/// are pushed and a burst is taken, the burst is the beginning of what waited before and
/// what was pushed, and the rest still waits.
pub proof fn ring_keeps_order(
    before: BufferedSerialPort, pushed: BufferedSerialPort, flushed: BufferedSerialPort,
    data: Seq<u8>, burst: Seq<u8>,
)
    requires
        pushed.waiting() == before.waiting() + data,
        burst + flushed.waiting() == pushed.waiting(),
    ensures
        burst.len() + flushed.waiting().len() == before.waiting().len() + data.len(),
        burst == (before.waiting() + data).subrange(0, burst.len() as int),
        flushed.waiting() == (before.waiting() + data).skip(burst.len() as int),
{
    assert(burst =~= (burst + flushed.waiting()).subrange(0, burst.len() as int));
    assert(flushed.waiting() =~= (burst + flushed.waiting()).skip(burst.len() as int));
}

} // verus!
