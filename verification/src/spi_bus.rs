use vstd::prelude::*;
use crate::spi_dma::{
    cancel_steps_spec, wait_step_post, Chip, done_spec, WaitAction, WaitEvent, DmaError, DmaStep, DoneStatus, Error, SpiDma, MAX_DMA_SIZE,
};

verus! {

/// One piece of a buffer that a single DMA transfer moves: `len` bytes from `offset`.
#[derive(Clone, Copy, PartialEq, Eq, Structural, Debug)]
pub struct Chunk {
    /// Where the piece starts.
    pub offset: usize,
    /// How many bytes it holds.
    pub len: usize,
}

/// Whether `cs` cuts `total` bytes from `base` on into consecutive pieces of `size` bytes, the
/// last one holding what is left: the way `chunks(size)` walks a slice.
pub open spec fn is_chunking(cs: Seq<Chunk>, base: int, total: int, size: int) -> bool {
    &&& (total == 0 <==> cs.len() == 0)
    &&& forall|k: int| 0 <= k < cs.len() ==> 0 < #[trigger] cs[k].len <= size
    &&& forall|k: int| 0 <= k < cs.len() - 1 ==> #[trigger] cs[k].len == size
    &&& forall|k: int|
        0 <= k < cs.len() - 1 ==> #[trigger] cs[k + 1].offset == cs[k].offset + cs[k].len
    &&& cs.len() > 0 ==> cs[0].offset == base && cs.last().offset + cs.last().len == base + total
}

/// Cut `total` bytes from `base` on into pieces of `size` bytes, the last one holding what is
/// left.
pub fn chunks(base: usize, total: usize, size: usize) -> (cs: Vec<Chunk>)
    requires
        size > 0,
        base + total <= usize::MAX,
    ensures
        is_chunking(cs@, base as int, total as int, size as int),
{
    let mut cs: Vec<Chunk> = Vec::new();
    let mut done: usize = 0;
    while done < total
        invariant
            size > 0,
            base + total <= usize::MAX,
            done <= total,
            (done == 0 <==> cs@.len() == 0),
            forall|k: int| 0 <= k < cs@.len() ==> 0 < #[trigger] cs@[k].len <= size,
            forall|k: int| 0 <= k < cs@.len() - 1 ==> #[trigger] cs@[k].len == size,
            forall|k: int|
                0 <= k < cs@.len() - 1 ==> #[trigger] cs@[k + 1].offset == cs@[k].offset
                    + cs@[k].len,
            cs@.len() > 0 ==> cs@[0].offset == base && cs@.last().offset + cs@.last().len == base
                + done,
            cs@.len() > 0 && cs@.last().len < size ==> done == total,
        decreases total - done,
    {
        let left: usize = total - done;
        let len: usize = if left < size {
            left
        } else {
            size
        };
        let ghost prev = cs@;
        cs.push(Chunk { offset: base + done, len });
        done = done + len;
        proof {
            assert(cs@ == prev.push(Chunk { offset: (base + done - len) as usize, len }));
            assert forall|k: int| 0 <= k < cs@.len() - 1 implies #[trigger] cs@[k].len == size by {
                if k == prev.len() - 1 {
                    assert(prev.last().len == size);
                }
            }
            assert forall|k: int|
                0 <= k < cs@.len() - 1 implies #[trigger] cs@[k + 1].offset == cs@[k].offset
                + cs@[k].len by {
                if k == prev.len() - 1 {
                    assert(cs@[k] == prev.last());
                }
            }
        }
    }
    cs
}

/// What a full-duplex transfer does after the part that reads and writes together.
#[derive(Debug)]
pub enum Tail {
    /// Both sides were the same length.
    Nothing,
    /// The read side was longer: its rest is read alone, in these pieces.
    Read(Vec<Chunk>),
    /// The write side was longer: its rest is written alone, in these pieces.
    Write(Vec<Chunk>),
}

/// How a full-duplex transfer of a read and a write buffer is cut into DMA transfers.
#[derive(Debug)]
pub struct TransferPlan {
    /// The part both buffers share, in pieces that fit both DMA buffers.
    pub common: Vec<Chunk>,
    /// The rest of the longer buffer.
    pub tail: Tail,
}

/// A DMA-capable SPI bus: an SPI instance with a receive and a transmit DMA buffer of its own,
/// through which data is copied in pieces.
#[derive(Debug)]
pub struct SpiDmaBus {
    /// The SPI instance.
    pub spi_dma: SpiDma,
    /// The capacity of the receive DMA buffer.
    pub rx_capacity: usize,
    /// The capacity of the transmit DMA buffer.
    pub tx_capacity: usize,
}

impl SpiDmaBus {
    /// A bus over `spi_dma` with DMA buffers of the given capacities.
    pub fn new(spi_dma: SpiDma, rx_capacity: usize, tx_capacity: usize) -> (b: SpiDmaBus)
        ensures
            b.spi_dma == spi_dma,
            b.rx_capacity == rx_capacity,
            b.tx_capacity == tx_capacity,
    {
        SpiDmaBus { spi_dma, rx_capacity, tx_capacity }
    }

    /// One poll of the wait before splitting the bus back into its SPI instance and buffer
    /// capacities: once the hardware reports the transfer done, the parts come back with nothing
    /// in flight; until then the bus comes back unchanged, to be polled again.
    pub fn split(self, st: DoneStatus) -> (r: Result<(SpiDma, usize, usize), SpiDmaBus>)
        ensures
            done_spec(self.spi_dma, st) <==> r is Ok,
            r matches Ok((s, rx, tx)) ==> s == (SpiDma {
                chip: self.spi_dma.chip,
                tx_transfer_in_progress: false,
                rx_transfer_in_progress: false,
            }) && rx == self.rx_capacity && tx == self.tx_capacity,
            r matches Err(b) ==> b == self,
    {
        if !self.spi_dma.is_done(st) {
            return Err(self);
        }
        let mut spi_dma = self.spi_dma;
        spi_dma.rx_transfer_in_progress = false;
        spi_dma.tx_transfer_in_progress = false;
        Ok((spi_dma, self.rx_capacity, self.tx_capacity))
    }

    /// The pieces a read of `len` bytes is received in: the size of the receive buffer.
    pub fn read_chunks(&self, len: usize) -> (cs: Vec<Chunk>)
        requires
            self.rx_capacity > 0,
        ensures
            is_chunking(cs@, 0, len as int, self.rx_capacity as int),
    {
        chunks(0, len, self.rx_capacity)
    }

    /// The pieces a write of `len` bytes is sent in: the size of the transmit buffer.
    pub fn write_chunks(&self, len: usize) -> (cs: Vec<Chunk>)
        requires
            self.tx_capacity > 0,
        ensures
            is_chunking(cs@, 0, len as int, self.tx_capacity as int),
    {
        chunks(0, len, self.tx_capacity)
    }

    /// The pieces an in-place transfer of `len` bytes moves: the size of the smaller buffer.
    pub fn transfer_in_place_chunks(&self, len: usize) -> (cs: Vec<Chunk>)
        requires
            self.rx_capacity > 0,
            self.tx_capacity > 0,
        ensures
            is_chunking(
                cs@,
                0,
                len as int,
                if self.tx_capacity < self.rx_capacity {
                    self.tx_capacity as int
                } else {
                    self.rx_capacity as int
                },
            ),
    {
        let size: usize = if self.tx_capacity < self.rx_capacity {
            self.tx_capacity
        } else {
            self.rx_capacity
        };
        chunks(0, len, size)
    }

    /// The pieces an asynchronous in-place transfer of `len` bytes moves: as the blocking one, the
    /// size of the smaller buffer, so that every piece is read back in full.
    pub fn transfer_in_place_async_chunks(&self, len: usize) -> (cs: Vec<Chunk>)
        requires
            self.rx_capacity > 0,
            self.tx_capacity > 0,
        ensures
            is_chunking(
                cs@,
                0,
                len as int,
                if self.tx_capacity < self.rx_capacity {
                    self.tx_capacity as int
                } else {
                    self.rx_capacity as int
                },
            ),
    {
        self.transfer_in_place_chunks(len)
    }

    /// Cut a transfer that reads `read_len` bytes and writes `write_len` bytes: the part both
    /// share goes in pieces that fit both buffers; the rest of the longer side is then read or
    /// written alone, in pieces of its own buffer.
    pub fn transfer_plan(&self, read_len: usize, write_len: usize) -> (p: TransferPlan)
        requires
            self.rx_capacity > 0,
            self.tx_capacity > 0,
        ensures
            ({
                let common: usize = if read_len < write_len {
                    read_len
                } else {
                    write_len
                };
                let size: usize = if self.tx_capacity < self.rx_capacity {
                    self.tx_capacity
                } else {
                    self.rx_capacity
                };
                &&& is_chunking(p.common@, 0, common as int, size as int)
                &&& read_len > common ==> (p.tail matches Tail::Read(cs) && is_chunking(
                    cs@,
                    common as int,
                    read_len - common,
                    self.rx_capacity as int,
                ))
                &&& write_len > common ==> (p.tail matches Tail::Write(cs) && is_chunking(
                    cs@,
                    common as int,
                    write_len - common,
                    self.tx_capacity as int,
                ))
                &&& read_len == write_len ==> p.tail is Nothing
            }),
    {
        let common: usize = if read_len < write_len {
            read_len
        } else {
            write_len
        };
        let size: usize = if self.tx_capacity < self.rx_capacity {
            self.tx_capacity
        } else {
            self.rx_capacity
        };
        let common_chunks = chunks(0, common, size);
        let tail = if read_len > common {
            Tail::Read(chunks(common, read_len - common, self.rx_capacity))
        } else if write_len > common {
            Tail::Write(chunks(common, write_len - common, self.tx_capacity))
        } else {
            Tail::Nothing
        };
        TransferPlan { common: common_chunks, tail }
    }
}

/// Whether `len` bytes fit a DMA buffer of `capacity` bytes: a half-duplex transfer is one DMA
/// transfer, so a longer buffer is refused with an overflow.
pub fn check_fits(len: usize, capacity: usize) -> (r: Result<(), Error>)
    ensures
        len <= capacity <==> r is Ok,
        len > capacity ==> r == Err::<(), Error>(Error::DmaError(DmaError::Overflow)),
{
    if len > capacity {
        return Err(Error::DmaError(DmaError::Overflow));
    }
    Ok(())
}

/// Copy `len` bytes of `src` from `src_offset` on into `dst` from `dst_offset` on, leaving the
/// rest of `dst` alone: how a piece goes into the transmit buffer and out of the receive buffer.
pub fn copy_chunk(dst: &mut [u8], dst_offset: usize, src: &[u8], src_offset: usize, len: usize)
    requires
        dst_offset + len <= old(dst)@.len(),
        src_offset + len <= src@.len(),
    ensures
        final(dst)@ == old(dst)@.subrange(0, dst_offset as int) + src@.subrange(
            src_offset as int,
            src_offset + len,
        ) + old(dst)@.subrange(dst_offset + len, old(dst)@.len() as int),
{
    let src_len: usize = src.len();
    let dst_len: usize = dst.len();
    let mut i: usize = 0;
    while i < len
        invariant
            i <= len,
            src_len == src@.len(),
            dst_len == dst@.len(),
            dst_offset + len <= dst@.len(),
            src_offset + len <= src@.len(),
            dst@.len() == old(dst)@.len(),
            forall|j: int|
                0 <= j < dst@.len() ==> #[trigger] dst@[j] == if dst_offset <= j < dst_offset + i {
                    src@[src_offset + j - dst_offset]
                } else {
                    old(dst)@[j]
                },
        decreases len - i,
    {
        let b: u8 = src[src_offset + i];
        dst[dst_offset + i] = b;
        i = i + 1;
    }
    proof {
        assert(dst@ =~= old(dst)@.subrange(0, dst_offset as int) + src@.subrange(
            src_offset as int,
            src_offset + len,
        ) + old(dst)@.subrange(dst_offset + len, old(dst)@.len() as int));
    }
}

/// Whether the asynchronous write sends the caller's buffer in place (zero-copy) rather than
/// through the transmit buffer: the buffer must be in DRAM, where the DMA reaches it; on the
/// ESP32, whose SPI DMA wedges on a length that is not a multiple of four, its address and
/// length must also be multiples of four.
pub open spec fn zero_copy_spec(chip: Chip, in_dram: bool, addr: usize, len: usize) -> bool {
    in_dram && (chip != Chip::Esp32 || (addr % 4 == 0 && len % 4 == 0))
}

/// Whether the asynchronous write of `len` bytes at `addr` sends them in place; see
/// [`zero_copy_spec`].
pub fn zero_copy_eligible(chip: Chip, in_dram: bool, addr: usize, len: usize) -> (r: bool)
    ensures
        r == zero_copy_spec(chip, in_dram, addr, len),
        !in_dram ==> !r,
        in_dram && chip != Chip::Esp32 ==> r,
        chip == Chip::Esp32 ==> (r <==> in_dram && addr % 4 == 0 && len % 4 == 0),
{
    if !in_dram {
        return false;
    }
    if chip == Chip::Esp32 {
        addr % 4 == 0 && len % 4 == 0
    } else {
        true
    }
}

/// What the asynchronous write does next, after a zero-copy attempt at `offset` of `total`
/// bytes.
#[derive(Clone, Copy, PartialEq, Eq, Structural, Debug)]
pub enum ZeroCopyStep {
    /// Everything is sent.
    Finished,
    /// Send the next piece straight from the caller's buffer, from this offset.
    Continue(usize),
    /// The buffer cannot be sent in place from here: copy the rest, from this offset, through
    /// the transmit buffer.
    CopyFrom(usize),
}

/// The next step of the asynchronous write, when descriptors for the caller's buffer from
/// `offset` on were prepared for `prepared` bytes (and sent), or could not be (`None`).
pub fn zero_copy_next(offset: usize, total: usize, prepared: Option<usize>) -> (r: ZeroCopyStep)
    requires
        offset < total,
        prepared matches Some(n) ==> offset + n <= total,
    ensures
        prepared is None ==> r == ZeroCopyStep::CopyFrom(offset),
        prepared matches Some(n) ==> r == (if offset + n == total {
            ZeroCopyStep::Finished
        } else {
            ZeroCopyStep::Continue((offset + n) as usize)
        }),
{
    match prepared {
        None => ZeroCopyStep::CopyFrom(offset),
        Some(n) => {
            let next: usize = offset + n;
            if next == total {
                ZeroCopyStep::Finished
            } else {
                ZeroCopyStep::Continue(next)
            }
        },
    }
}

/// Stack descriptors of one zero-copy piece: enough to chain [`MAX_DMA_SIZE`] bytes in pieces
/// of 4092 bytes, two spare, and one for a padded tail.
pub const ZC_DESC_COUNT: usize = (MAX_DMA_SIZE + 4091) / 4092 + 3;

/// An SPI instance with a DMA transfer in flight, and the buffer it owns meanwhile.
pub struct SpiDmaTransfer<B> {
    spi_dma: SpiDma,
    dma_buf: B,
}

impl<B> SpiDmaTransfer<B> {
    /// The SPI instance.
    pub closed spec fn spi(&self) -> SpiDma {
        self.spi_dma
    }

    /// The buffer.
    pub closed spec fn buf(&self) -> B {
        self.dma_buf
    }

    /// A transfer in flight on `spi_dma`, owning `dma_buf`.
    pub fn new(spi_dma: SpiDma, dma_buf: B) -> (t: SpiDmaTransfer<B>)
        ensures
            t.spi() == spi_dma,
            t.buf() == dma_buf,
    {
        SpiDmaTransfer { spi_dma, dma_buf }
    }

    /// Give back the SPI instance as it is, in-flight flags untouched, and the buffer: for a
    /// transfer whose programming failed part-way, which is reported with both.
    pub fn abandon(self) -> (r: (SpiDma, B))
        ensures
            r.0 == self.spi(),
            r.1 == self.buf(),
    {
        (self.spi_dma, self.dma_buf)
    }

    /// One step of the asynchronous wait for the transfer, as [`SpiDma::wait_step`]; the buffer
    /// stays with the transfer.
    pub fn wait_step(&mut self, ev: WaitEvent) -> (a: WaitAction)
        ensures
            wait_step_post(old(self).spi(), ev, a, final(self).spi()),
            final(self).buf() == old(self).buf(),
    {
        self.spi_dma.wait_step(ev)
    }

    /// The buffer the transfer owns.
    pub fn buffer(&self) -> (b: &B)
        ensures
            *b == self.buf(),
    {
        &self.dma_buf
    }

    /// Whether the transfer has finished: the SPI peripheral is idle and both DMA halves in flight
    /// are done.
    pub fn is_done(&self, st: DoneStatus) -> (r: bool)
        ensures
            r == done_spec(self.spi(), st),
    {
        self.spi_dma.is_done(st)
    }

    /// One poll of the wait for the transfer: once the hardware reports it done, the SPI
    /// instance and the buffer come back with nothing in flight; until then the transfer comes
    /// back unchanged, to be polled again.
    pub fn wait(self, st: DoneStatus) -> (r: Result<(SpiDma, B), SpiDmaTransfer<B>>)
        ensures
            done_spec(self.spi(), st) <==> r is Ok,
            r matches Ok((s, b)) ==> s == (SpiDma {
                chip: self.spi().chip,
                tx_transfer_in_progress: false,
                rx_transfer_in_progress: false,
            }) && b == self.buf(),
            r matches Err(t) ==> t == self,
    {
        if !self.spi_dma.is_done(st) {
            return Err(self);
        }
        let mut spi_dma = self.spi_dma;
        spi_dma.rx_transfer_in_progress = false;
        spi_dma.tx_transfer_in_progress = false;
        Ok((spi_dma, self.dma_buf))
    }

    /// Cancel the transfer if it has not finished; returns the steps that do so.
    pub fn cancel(&mut self, st: DoneStatus) -> (steps: Vec<DmaStep>)
        ensures
            final(self).buf() == old(self).buf(),
            final(self).spi().chip == old(self).spi().chip,
            done_spec(old(self).spi(), st) ==> steps@ == Seq::<
                DmaStep,
            >::empty() && final(self).spi() == old(self).spi(),
            !done_spec(old(self).spi(), st) ==> steps@
                == cancel_steps_spec(
                old(self).spi().tx_transfer_in_progress,
                old(self).spi().rx_transfer_in_progress,
            ) && final(self).spi().idle(),
    {
        if !self.spi_dma.is_done(st) {
            self.spi_dma.cancel_transfer()
        } else {
            Vec::new()
        }
    }
}

} // verus!

verus! {

/// What a DMA read, write or transfer of an SPI instance gives back: the transfer in flight with
/// the steps that start it, or the error with the instance and the buffer.
pub open spec fn started<B>(
    r: Result<(SpiDmaTransfer<B>, Vec<DmaStep>), (Error, SpiDma, B)>,
    setup: Result<(), Error>,
    spi: SpiDma,
    buffer: B,
    full_duplex: bool,
    rx: usize,
    tx: usize,
) -> bool {
    &&& setup matches Err(e) ==> (r matches Err((e2, s, b)) && e2 == e && s.chip == spi.chip
        && s.idle() && b == buffer)
    &&& setup is Ok && (rx > MAX_DMA_SIZE || tx > MAX_DMA_SIZE) ==> (r matches Err((e2, s, b))
        && e2 == Error::MaxDmaTransferSizeExceeded && s.chip == spi.chip && s.idle() && b == buffer)
    &&& setup is Ok && rx <= MAX_DMA_SIZE && tx <= MAX_DMA_SIZE ==> (r matches Ok((t, steps))
        && t.buf() == buffer && t.spi().chip == spi.chip && t.spi().rx_transfer_in_progress == (rx
        > 0) && t.spi().tx_transfer_in_progress == (tx > 0) && steps@
        == crate::spi_dma::start_steps_spec(spi.chip, full_duplex, rx, tx))
}

impl SpiDma {
    fn start_with<B>(
        self,
        setup: Result<(), Error>,
        full_duplex: bool,
        bytes_to_read: usize,
        bytes_to_write: usize,
        buffer: B,
    ) -> (r: Result<(SpiDmaTransfer<B>, Vec<DmaStep>), (Error, SpiDma, B)>)
        ensures
            started(r, setup, self, buffer, full_duplex, bytes_to_read, bytes_to_write),
    {
        let mut spi = self;
        spi.rx_transfer_in_progress = false;
        spi.tx_transfer_in_progress = false;
        if let Err(e) = setup {
            return Err((e, spi, buffer));
        }
        match spi.start_transfer_dma(full_duplex, bytes_to_read, bytes_to_write) {
            Ok(steps) => Ok((SpiDmaTransfer::new(spi, buffer), steps)),
            Err(e) => Err((e, spi, buffer)),
        }
    }

    /// A DMA write of `bytes_to_write` bytes from `buffer`, once the wait for idle has ended and
    /// the full-duplex set-up has been tried (`setup`): the transfer owns the instance and the
    /// buffer until it is waited for.
    pub fn write<B>(self, setup: Result<(), Error>, bytes_to_write: usize, buffer: B) -> (r: Result<
        (SpiDmaTransfer<B>, Vec<DmaStep>),
        (Error, SpiDma, B),
    >)
        ensures
            started(r, setup, self, buffer, true, 0, bytes_to_write),
    {
        self.start_with(setup, true, 0, bytes_to_write, buffer)
    }

    /// A DMA read of `bytes_to_read` bytes into `buffer`, as [`SpiDma::write`].
    pub fn read<B>(self, setup: Result<(), Error>, bytes_to_read: usize, buffer: B) -> (r: Result<
        (SpiDmaTransfer<B>, Vec<DmaStep>),
        (Error, SpiDma, B),
    >)
        ensures
            started(r, setup, self, buffer, true, bytes_to_read, 0),
    {
        self.start_with(setup, true, bytes_to_read, 0, buffer)
    }

    /// A DMA transfer reading `bytes_to_read` bytes and writing `bytes_to_write` bytes at once, as
    /// [`SpiDma::write`]; the transfer owns both buffers.
    pub fn transfer<RX, TX>(
        self,
        setup: Result<(), Error>,
        bytes_to_read: usize,
        rx_buffer: RX,
        bytes_to_write: usize,
        tx_buffer: TX,
    ) -> (r: Result<(SpiDmaTransfer<(RX, TX)>, Vec<DmaStep>), (Error, SpiDma, (RX, TX))>)
        ensures
            started(r, setup, self, (rx_buffer, tx_buffer), true, bytes_to_read, bytes_to_write),
    {
        self.start_with(setup, true, bytes_to_read, bytes_to_write, (rx_buffer, tx_buffer))
    }

    /// A half-duplex DMA read of `bytes_to_read` bytes, once the wait for idle has ended and its
    /// set-up (see [`crate::spi_dma::half_duplex_read_setup`]) has been tried.
    pub fn half_duplex_read<B>(self, setup: Result<(), Error>, bytes_to_read: usize, buffer: B) -> (r: Result<
        (SpiDmaTransfer<B>, Vec<DmaStep>),
        (Error, SpiDma, B),
    >)
        ensures
            started(r, setup, self, buffer, false, bytes_to_read, 0),
    {
        self.start_with(setup, false, bytes_to_read, 0, buffer)
    }

    /// A half-duplex DMA write of `bytes_to_write` bytes, once the wait for idle has ended and its
    /// set-up (see [`crate::spi_dma::half_duplex_write_plan`]) has been tried.
    pub fn half_duplex_write<B>(self, setup: Result<(), Error>, bytes_to_write: usize, buffer: B) -> (r: Result<
        (SpiDmaTransfer<B>, Vec<DmaStep>),
        (Error, SpiDma, B),
    >)
        ensures
            started(r, setup, self, buffer, false, 0, bytes_to_write),
    {
        self.start_with(setup, false, 0, bytes_to_write, buffer)
    }

    /// Combine the instance with DMA buffers of the given capacities into a bus.
    pub fn with_buffers(self, rx_capacity: usize, tx_capacity: usize) -> (b: SpiDmaBus)
        ensures
            b.spi_dma == self,
            b.rx_capacity == rx_capacity,
            b.tx_capacity == tx_capacity,
    {
        SpiDmaBus::new(self, rx_capacity, tx_capacity)
    }
}

} // verus!

verus! {

/// Whether byte `p` lies in piece `c`.
pub open spec fn in_chunk(c: Chunk, p: int) -> bool {
    c.offset <= p < c.offset + c.len
}

/// Whether byte `p` lies in one of the pieces `cs`.
pub open spec fn covered(cs: Seq<Chunk>, p: int) -> bool {
    exists|k: int| 0 <= k < cs.len() && #[trigger] in_chunk(cs[k], p)
}

proof fn lemma_chunk_offset(cs: Seq<Chunk>, base: int, total: int, size: int, k: int)
    requires
        is_chunking(cs, base, total, size),
        0 <= k < cs.len(),
    ensures
        cs[k].offset == base + k * size,
    decreases k,
{
    if k > 0 {
        let j = k - 1;
        lemma_chunk_offset(cs, base, total, size, j);
        assert(cs[j + 1].offset == cs[j].offset + cs[j].len);
        assert(cs[j].len == size);
        assert(base + j * size + size == base + k * size) by (nonlinear_arith)
            requires
                j == k - 1,
        ;
        assert(cs[k].offset == base + j * size + size);
    } else {
        assert(cs.len() > 0);
        assert(cs[0].offset == base);
        assert(0 * size == 0);
    }
}

/// The pieces of a buffer cover it exactly once: piece `k` starts `k` pieces of `size` bytes
/// after the start, there are `ceil(total / size)` of them, and every byte of the buffer lies in
/// exactly one piece.
pub proof fn lemma_chunking_covers(cs: Seq<Chunk>, base: int, total: int, size: int)
    requires
        size > 0,
        total >= 0,
        is_chunking(cs, base, total, size),
    ensures
        forall|k: int| 0 <= k < cs.len() ==> #[trigger] cs[k].offset == base + k * size,
        cs.len() == (total + size - 1) / size,
        forall|p: int| base <= p < base + total ==> #[trigger] covered(cs, p),
        forall|p: int, j: int, k: int|
            0 <= j < cs.len() && 0 <= k < cs.len() && #[trigger] in_chunk(cs[j], p)
                && #[trigger] in_chunk(cs[k], p) ==> j == k,
{
    assert forall|k: int| 0 <= k < cs.len() implies #[trigger] cs[k].offset == base + k * size by {
        lemma_chunk_offset(cs, base, total, size, k);
    }
    if cs.len() == 0 {
        assert((total + size - 1) / size == 0) by (nonlinear_arith)
            requires
                total == 0,
                size > 0,
        ;
    } else {
        let n: int = cs.len() - 1;
        let l: usize = cs[n].len;
        assert(cs[n].offset == base + n * size);
        assert(total == n * size + l);
        assert((n * size + l + size - 1) / size == n + 1) by (nonlinear_arith)
            requires
                0 < l <= size,
                n >= 0,
        ;
    }
    assert forall|p: int| base <= p < base + total implies #[trigger] covered(cs, p) by {
        let k: int = (p - base) / size;
        let n: int = cs.len() - 1;
        assert(0 <= k) by (nonlinear_arith)
            requires
                p >= base,
                size > 0,
                k == (p - base) / size,
        ;
        assert(k * size <= p - base < k * size + size) by (nonlinear_arith)
            requires
                p >= base,
                size > 0,
                k == (p - base) / size,
        ;
        assert(cs[n].offset == base + n * size);
        assert(k <= n) by (nonlinear_arith)
            requires
                k * size <= p - base,
                p - base < total,
                total == n * size + cs[n].len,
                cs[n].len <= size,
                size > 0,
        ;
        assert(cs[k].offset == base + k * size);
        if k < n {
            assert(cs[k].len == size);
        } else {
            assert(p < base + total);
        }
        assert(in_chunk(cs[k], p));
    }
    assert forall|p: int, j: int, k: int|
        0 <= j < cs.len() && 0 <= k < cs.len() && #[trigger] in_chunk(cs[j], p)
            && #[trigger] in_chunk(cs[k], p) implies j == k by {
        assert(cs[j].offset == base + j * size);
        assert(cs[k].offset == base + k * size);
        if j < k {
            assert(cs[j].len <= size);
            assert(j * size + size <= k * size) by (nonlinear_arith)
                requires
                    j < k,
                    size > 0,
            ;
        } else if k < j {
            assert(cs[k].len <= size);
            assert(k * size + size <= j * size) by (nonlinear_arith)
                requires
                    k < j,
                    size > 0,
            ;
        }
    }
}

} // verus!

verus! {

/// The pieces of a buffer are determined by where it starts, its length and the piece size: two
/// cuttings with the same three are the same. So the asynchronous and the blocking transfers,
/// which cut by the same sizes ([`SpiDmaBus::transfer_plan`] for both full-duplex transfers,
/// the smaller buffer for both in-place ones), move the same pieces.
pub proof fn lemma_chunking_unique(a: Seq<Chunk>, b: Seq<Chunk>, base: int, total: int, size: int)
    requires
        size > 0,
        total >= 0,
        is_chunking(a, base, total, size),
        is_chunking(b, base, total, size),
    ensures
        a == b,
{
    lemma_chunking_covers(a, base, total, size);
    lemma_chunking_covers(b, base, total, size);
    assert forall|k: int| 0 <= k < a.len() implies #[trigger] a[k] == b[k] by {
        assert(a[k].offset == b[k].offset);
        if k < a.len() - 1 {
            assert(a[k].len == size && b[k].len == size);
        } else {
            assert(a.last().offset + a.last().len == base + total);
            assert(b.last().offset + b.last().len == base + total);
        }
    }
    assert(a =~= b);
}

/// How the asynchronous write sends its bytes.
#[derive(Clone, Copy, PartialEq, Eq, Structural, Debug)]
pub enum WritePath {
    /// Nothing to send: done at once, without waiting for the bus.
    Nothing,
    /// Straight from the caller's buffer, piece by piece (see [`zero_copy_next`]).
    InPlace,
    /// Through the transmit buffer.
    Copy,
}

/// How the asynchronous write of `len` bytes at `addr` sends them: an empty write does nothing;
/// otherwise in place when [`zero_copy_spec`] allows, through the transmit buffer if not.
pub fn write_async_path(chip: Chip, in_dram: bool, addr: usize, len: usize) -> (r: WritePath)
    ensures
        len == 0 ==> r == WritePath::Nothing,
        len > 0 && zero_copy_spec(chip, in_dram, addr, len) ==> r == WritePath::InPlace,
        len > 0 && !zero_copy_spec(chip, in_dram, addr, len) ==> r == WritePath::Copy,
{
    if len == 0 {
        WritePath::Nothing
    } else if zero_copy_eligible(chip, in_dram, addr, len) {
        WritePath::InPlace
    } else {
        WritePath::Copy
    }
}

} // verus!

verus! {

/// The bytes that pieces `cs` carry, in order, piece `k` being the first `cs[k].len` bytes of
/// `parts[k]`.
pub open spec fn gathered(cs: Seq<Chunk>, parts: Seq<Seq<u8>>) -> Seq<u8>
    decreases cs.len(),
{
    if cs.len() == 0 {
        seq![]
    } else {
        gathered(cs.drop_last(), parts) + parts[cs.len() - 1].subrange(0, cs.last().len as int)
    }
}

/// Where the first `n` pieces end.
pub open spec fn chunks_end(cs: Seq<Chunk>, n: int) -> int {
    if n == 0 {
        0
    } else {
        cs[n - 1].offset + cs[n - 1].len
    }
}

/// The pieces of a buffer, each cut out of it.
pub open spec fn pieces_of(words: Seq<u8>, cs: Seq<Chunk>) -> Seq<Seq<u8>> {
    Seq::new(
        cs.len(),
        |k: int| words.subrange(cs[k].offset as int, cs[k].offset + cs[k].len),
    )
}

proof fn lemma_chunk_prefix(cs: Seq<Chunk>, total: int, size: int, n: int)
    requires
        size > 0,
        is_chunking(cs, 0, total, size),
        0 <= n <= cs.len(),
    ensures
        0 <= chunks_end(cs, n) <= total,
        n < cs.len() ==> cs[n].offset == chunks_end(cs, n),
        n == cs.len() ==> chunks_end(cs, n) == total,
    decreases n,
{
    lemma_chunking_covers(cs, 0, total, size);
    if n > 0 {
        let j = n - 1;
        if n < cs.len() {
            assert(cs[j + 1].offset == cs[j].offset + cs[j].len);
            let l = cs.len() - 1;
            assert(cs[l].offset == l * size);
            assert(cs[n].offset == n * size);
            assert(cs[l].offset + cs[l].len == total);
            assert(n * size <= l * size) by (nonlinear_arith)
                requires
                    n <= l,
                    size > 0,
            ;
        }
    }
    if n == 0 && cs.len() == 0 {
        assert(total == 0);
    }
}

proof fn lemma_gathered_prefix(words: Seq<u8>, cs: Seq<Chunk>, size: int, n: int)
    requires
        size > 0,
        is_chunking(cs, 0, words.len() as int, size),
        0 <= n <= cs.len(),
    ensures
        gathered(cs.take(n), pieces_of(words, cs)) == words.subrange(0, chunks_end(cs, n)),
    decreases n,
{
    lemma_chunk_prefix(cs, words.len() as int, size, n);
    if n > 0 {
        lemma_gathered_prefix(words, cs, size, n - 1);
        lemma_chunk_prefix(cs, words.len() as int, size, n - 1);
        assert(cs.take(n).drop_last() == cs.take(n - 1));
        let p = pieces_of(words, cs)[n - 1];
        assert(p.subrange(0, cs[n - 1].len as int) == p);
        assert(words.subrange(0, chunks_end(cs, n)) =~= words.subrange(0, chunks_end(cs, n - 1))
            + p);
    }
}

/// A buffer sent in pieces is sent exactly: the bytes its pieces carry, in order, are the
/// buffer.
pub proof fn lemma_pieces_rebuild(words: Seq<u8>, cs: Seq<Chunk>, size: int)
    requires
        size > 0,
        is_chunking(cs, 0, words.len() as int, size),
    ensures
        gathered(cs, pieces_of(words, cs)) == words,
{
    lemma_gathered_prefix(words, cs, size, cs.len() as int);
    lemma_chunk_prefix(cs, words.len() as int, size, cs.len() as int);
    assert(cs.take(cs.len() as int) == cs);
}

/// Fill `dst` with the bytes received for its first `received.len()` pieces: afterwards it
/// starts with those bytes, in order, and the rest of it is unchanged. With every piece
/// received, `dst` holds exactly what was received.
pub fn fill_from_chunks(dst: &mut [u8], cs: &Vec<Chunk>, size: usize, received: &Vec<Vec<u8>>)
    requires
        size > 0,
        is_chunking(cs@, 0, old(dst)@.len() as int, size as int),
        received@.len() <= cs@.len(),
        forall|k: int| 0 <= k < received@.len() ==> cs@[k].len <= (#[trigger] received@[k])@.len(),
    ensures
        final(dst)@ == gathered(
            cs@.take(received@.len() as int),
            received@.map_values(|v: Vec<u8>| v@),
        ) + old(dst)@.subrange(chunks_end(cs@, received@.len() as int), old(dst)@.len() as int),
        final(dst)@.len() == old(dst)@.len(),
{
    let ghost parts = received@.map_values(|v: Vec<u8>| v@);
    let ghost total = old(dst)@.len() as int;
    let n = received.len();
    let mut k: usize = 0;
    proof {
        lemma_chunk_prefix(cs@, total, size as int, 0);
        assert(cs@.take(0) =~= Seq::<Chunk>::empty());
        assert(old(dst)@ =~= gathered(cs@.take(0), parts) + old(dst)@.subrange(0, total));
    }
    while k < n
        invariant
            k <= n,
            n == received@.len(),
            n <= cs@.len(),
            size > 0,
            total == old(dst)@.len(),
            dst@.len() == total,
            is_chunking(cs@, 0, total, size as int),
            parts == received@.map_values(|v: Vec<u8>| v@),
            forall|j: int| 0 <= j < received@.len() ==> cs@[j].len <= (#[trigger] received@[j])@.len(),
            dst@ == gathered(cs@.take(k as int), parts) + old(dst)@.subrange(
                chunks_end(cs@, k as int),
                total,
            ),
        decreases n - k,
    {
        proof {
            lemma_chunk_prefix(cs@, total, size as int, k as int);
            lemma_chunk_prefix(cs@, total, size as int, k + 1);
        }
        let c = cs[k];
        let ghost before = dst@;
        copy_chunk(dst, c.offset, received[k].as_slice(), 0, c.len);
        proof {
            let g = gathered(cs@.take(k as int), parts);
            assert(cs@.take(k + 1).drop_last() == cs@.take(k as int));
            assert(gathered(cs@.take(k + 1), parts) == g + parts[k as int].subrange(
                0,
                c.len as int,
            ));
            assert(g.len() == chunks_end(cs@, k as int)) by {
                assert(before.len() == g.len() + (total - chunks_end(cs@, k as int)));
            }
            assert(dst@ =~= gathered(cs@.take(k + 1), parts) + old(dst)@.subrange(
                chunks_end(cs@, k + 1),
                total,
            ));
        }
        k = k + 1;
    }
    dst.len();
}

} // verus!

verus! {

/// What the zero-copy rule allows: no buffer outside DRAM is ever sent in place, on any chip;
/// every DRAM buffer is, except on the ESP32, where its address and length must also be
/// multiples of four.
pub proof fn lemma_zero_copy_rule(chip: Chip, in_dram: bool, addr: usize, len: usize)
    ensures
        !in_dram ==> !zero_copy_spec(chip, in_dram, addr, len),
        in_dram && chip != Chip::Esp32 ==> zero_copy_spec(chip, in_dram, addr, len),
        chip == Chip::Esp32 ==> (zero_copy_spec(chip, in_dram, addr, len) <==> in_dram && addr % 4
            == 0 && len % 4 == 0),
{
}

} // verus!
