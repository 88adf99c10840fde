use vstd::prelude::*;

verus! {

/// The largest number of bytes one DMA transfer moves in either direction.
pub const MAX_DMA_SIZE: usize = 32736;

/// The chip family, as far as the DMA logic tells them apart: the ESP32 and ESP32-S2 have the
/// peripheral DMA (PDMA), every other chip the general DMA (GDMA).
#[derive(Clone, Copy, PartialEq, Eq, Structural, Debug)]
pub enum Chip {
    Esp32,
    Esp32s2,
    Other,
}

impl Chip {
    /// Whether the SPI peripheral has its own DMA engine (PDMA).
    pub open spec fn pdma(self) -> bool {
        self == Chip::Esp32 || self == Chip::Esp32s2
    }

    /// Whether the SPI peripheral has its own DMA engine (PDMA).
    pub fn is_pdma(self) -> (r: bool)
        ensures
            r == self.pdma(),
    {
        match self {
            Chip::Esp32 => true,
            Chip::Esp32s2 => true,
            Chip::Other => false,
        }
    }
}

/// A DMA error.
#[derive(Clone, Copy, PartialEq, Eq, Structural, Debug)]
pub enum DmaError {
    /// The buffer is too small for the data.
    Overflow,
    /// More descriptors are needed than were given.
    OutOfDescriptors,
    /// A descriptor is not valid.
    DescriptorError,
    /// The buffer is not suitably aligned.
    InvalidAlignment,
    /// The buffer is smaller than the transfer.
    BufferTooSmall,
    /// The buffer is in memory the DMA cannot reach.
    UnsupportedMemoryRegion,
    /// A descriptor has an invalid size.
    InvalidDescriptorSize,
    /// The DMA was too late to keep up.
    Late,
}

/// An SPI error.
#[derive(Clone, Copy, PartialEq, Eq, Structural, Debug)]
pub enum Error {
    /// The DMA reported an error.
    DmaError(DmaError),
    /// A transfer is longer than [`MAX_DMA_SIZE`].
    MaxDmaTransferSizeExceeded,
    /// The FIFO is too small for the transfer.
    FifoSizeExeeded,
    /// The requested operation is not supported.
    Unsupported,
    /// Any other error.
    Unknown,
}

/// One register-level step of programming, stopping or resetting an SPI DMA transfer. Steps are
/// carried out in order; a step that starts a DMA channel may fail, which ends the sequence with
/// that error.
#[derive(Clone, Copy, PartialEq, Eq, Structural, Debug)]
pub enum DmaStep {
    /// ESP32-S2 only: write 0 to `dma_out_link` and `dma_in_link`.
    ClearLinks,
    /// Program the SPI data lengths, in bytes, of the receive and transmit phases.
    ConfigureDatalen { rx: usize, tx: usize },
    /// Set the `usr_miso` and `usr_mosi` bits of the `user` register.
    SetUserLines { miso: bool, mosi: bool },
    /// GDMA: set `dma_tx_ena` and `dma_rx_ena` of `dma_conf`.
    EnableDmaChannels,
    /// Pulse the FIFO resets of `dma_conf` (the PDMA or GDMA set, by chip).
    ResetDmaFifos,
    /// Clear every DMA interrupt of the SPI peripheral (the PDMA or GDMA set, by chip).
    ClearDmaInterrupts,
    /// Prepare the receive channel on the receive buffer and start it.
    StartRx,
    /// ESP32 only, full duplex with nothing to receive: set `inlink_addr` to 0, then set
    /// `inlink_start`.
    ParkInlink,
    /// Prepare the transmit channel on the transmit buffer and start it.
    StartTx,
    /// Start the SPI operation.
    StartOperation,
    /// Latch the SPI configuration registers.
    Update,
    /// Stop the transmit channel.
    StopTx,
    /// Stop the receive channel.
    StopRx,
}

/// The steps that reset the DMA side of the SPI peripheral: pulse the FIFO resets, then clear
/// the DMA interrupts.
pub open spec fn reset_dma_spec() -> Seq<DmaStep> {
    seq![DmaStep::ResetDmaFifos, DmaStep::ClearDmaInterrupts]
}

/// The steps that reset the DMA side of the SPI peripheral.
pub fn reset_dma() -> (steps: Vec<DmaStep>)
    ensures
        steps@ == reset_dma_spec(),
{
    let mut steps: Vec<DmaStep> = Vec::new();
    steps.push(DmaStep::ResetDmaFifos);
    clear_dma_interrupts(&mut steps);
    proof {
        assert(steps@ =~= reset_dma_spec());
    }
    steps
}

/// Append the step that clears the DMA interrupts.
pub fn clear_dma_interrupts(steps: &mut Vec<DmaStep>)
    ensures
        final(steps)@ == old(steps)@.push(DmaStep::ClearDmaInterrupts),
{
    steps.push(DmaStep::ClearDmaInterrupts);
}

/// The steps that enable the DMA of the SPI peripheral: GDMA enables both channels; PDMA resets
/// the DMA instead, the channels being assigned elsewhere.
pub open spec fn enable_dma_spec(chip: Chip) -> Seq<DmaStep> {
    if chip.pdma() {
        reset_dma_spec()
    } else {
        seq![DmaStep::EnableDmaChannels]
    }
}

/// The steps that enable the DMA of the SPI peripheral.
pub fn enable_dma(chip: Chip) -> (steps: Vec<DmaStep>)
    ensures
        steps@ == enable_dma_spec(chip),
{
    if chip.is_pdma() {
        reset_dma()
    } else {
        let mut steps: Vec<DmaStep> = Vec::new();
        steps.push(DmaStep::EnableDmaChannels);
        proof {
            assert(steps@ =~= enable_dma_spec(chip));
        }
        steps
    }
}

/// The steps that cut a running transfer short: the SPI peripheral controls how much is
/// transferred, so its lengths become one byte each (zero would not take effect on the ESP32),
/// which stops after the byte in flight.
pub open spec fn abort_transfer_spec() -> Seq<DmaStep> {
    seq![DmaStep::ConfigureDatalen { rx: 1, tx: 1 }, DmaStep::Update]
}

/// The steps that cut a running transfer short.
pub fn abort_transfer() -> (steps: Vec<DmaStep>)
    ensures
        steps@ == abort_transfer_spec(),
{
    let mut steps: Vec<DmaStep> = Vec::new();
    steps.push(DmaStep::ConfigureDatalen { rx: 1, tx: 1 });
    steps.push(DmaStep::Update);
    proof {
        assert(steps@ =~= abort_transfer_spec());
    }
    steps
}

/// The steps that program and start a transfer of `rx_len` bytes in and `tx_len` bytes out.
pub open spec fn start_steps_spec(chip: Chip, full_duplex: bool, rx_len: usize, tx_len: usize) -> Seq<
    DmaStep,
> {
    (if chip == Chip::Esp32s2 {
        seq![DmaStep::ClearLinks]
    } else {
        seq![]
    }) + seq![
        DmaStep::ConfigureDatalen { rx: rx_len, tx: tx_len },
        DmaStep::SetUserLines { miso: rx_len > 0, mosi: tx_len > 0 },
    ] + enable_dma_spec(chip) + (if rx_len > 0 {
        seq![DmaStep::StartRx]
    } else if chip == Chip::Esp32 && full_duplex {
        seq![DmaStep::ParkInlink]
    } else {
        seq![]
    }) + (if tx_len > 0 {
        seq![DmaStep::StartTx]
    } else {
        seq![]
    }) + (if chip.pdma() {
        seq![]
    } else {
        reset_dma_spec()
    }) + seq![DmaStep::StartOperation]
}

/// The steps that program and start a transfer of `rx_len` bytes in and `tx_len` bytes out: the
/// lengths, the MISO/MOSI phases that are needed, the DMA, the channels that move data, and the
/// SPI operation last.
pub fn start_steps(chip: Chip, full_duplex: bool, rx_len: usize, tx_len: usize) -> (steps: Vec<
    DmaStep,
>)
    ensures
        steps@ == start_steps_spec(chip, full_duplex, rx_len, tx_len),
        steps@.contains(DmaStep::SetUserLines { miso: rx_len > 0, mosi: tx_len > 0 }),
        forall|k: int, miso: bool, mosi: bool|
            0 <= k < steps@.len() && steps@[k] == (DmaStep::SetUserLines { miso, mosi }) ==> miso
                == (rx_len > 0) && mosi == (tx_len > 0),
{
    proof {
        lemma_user_lines(chip, full_duplex, rx_len, tx_len);
    }
    let mut steps: Vec<DmaStep> = Vec::new();
    if chip == Chip::Esp32s2 {
        steps.push(DmaStep::ClearLinks);
    }
    steps.push(DmaStep::ConfigureDatalen { rx: rx_len, tx: tx_len });
    steps.push(DmaStep::SetUserLines { miso: rx_len > 0, mosi: tx_len > 0 });
    let mut en = enable_dma(chip);
    steps.append(&mut en);
    if rx_len > 0 {
        steps.push(DmaStep::StartRx);
    } else if chip == Chip::Esp32 && full_duplex {
        steps.push(DmaStep::ParkInlink);
    }
    if tx_len > 0 {
        steps.push(DmaStep::StartTx);
    }
    if !chip.is_pdma() {
        let mut rs = reset_dma();
        steps.append(&mut rs);
    }
    steps.push(DmaStep::StartOperation);
    proof {
        assert(steps@ =~= start_steps_spec(chip, full_duplex, rx_len, tx_len));
    }
    steps
}

} // verus!

verus! {

/// What the hardware reports when the driver asks whether a transfer has finished.
#[derive(Clone, Copy, PartialEq, Eq, Structural, Debug)]
pub struct DoneStatus {
    /// The SPI peripheral is still busy.
    pub spi_busy: bool,
    /// The receive DMA channel has finished.
    pub rx_done: bool,
    /// The receive DMA channel ran out of descriptors ("descriptor empty").
    pub rx_dscr_empty_error: bool,
    /// The transmit DMA channel has finished.
    pub tx_done: bool,
}

/// A DMA-capable SPI instance: which transfer directions are in flight.
#[derive(Debug)]
pub struct SpiDma {
    /// The chip the instance runs on.
    pub chip: Chip,
    /// A transmit transfer is in flight.
    pub tx_transfer_in_progress: bool,
    /// A receive transfer is in flight.
    pub rx_transfer_in_progress: bool,
}

/// Whether the transfer in flight on `spi` has finished: the SPI peripheral is idle, both DMA
/// halves in flight are done. The receive half also counts as done when it ran out of
/// descriptors: an asymmetric transfer whose receive side is smaller never sees its EOF, and
/// running out of descriptors then means all the wanted data is in memory and the rest was
/// discarded.
pub open spec fn done_spec(spi: SpiDma, st: DoneStatus) -> bool {
    &&& !st.spi_busy
    &&& !spi.rx_transfer_in_progress || st.rx_done || st.rx_dscr_empty_error
    &&& !spi.tx_transfer_in_progress || st.tx_done
}

impl SpiDma {
    /// An instance on `chip` with no transfer in flight.
    pub fn new(chip: Chip) -> (s: SpiDma)
        ensures
            s.chip == chip,
            !s.tx_transfer_in_progress,
            !s.rx_transfer_in_progress,
    {
        SpiDma { chip, tx_transfer_in_progress: false, rx_transfer_in_progress: false }
    }

    /// Whether no transfer direction is in flight.
    pub open spec fn idle(&self) -> bool {
        !self.tx_transfer_in_progress && !self.rx_transfer_in_progress
    }

    /// Whether the transfer in flight has finished, given what the hardware reports.
    pub fn is_done(&self, st: DoneStatus) -> (r: bool)
        ensures
            r == done_spec(*self, st),
    {
        if st.spi_busy {
            return false;
        }
        if self.rx_transfer_in_progress {
            if !st.rx_done && !st.rx_dscr_empty_error {
                return false;
            }
        }
        if self.tx_transfer_in_progress && !st.tx_done {
            return false;
        }
        true
    }

    /// One poll of the wait for the SPI to become idle: once it is done, nothing is in flight any
    /// more and `true` comes back; until then nothing changes.
    pub fn wait_for_idle(&mut self, st: DoneStatus) -> (r: bool)
        ensures
            r == done_spec(*old(self), st),
            final(self).chip == old(self).chip,
            r ==> final(self).idle(),
            !r ==> *final(self) == *old(self),
    {
        if !self.is_done(st) {
            return false;
        }
        self.rx_transfer_in_progress = false;
        self.tx_transfer_in_progress = false;
        true
    }

    /// Record and program a transfer of `bytes_to_read` bytes in and `bytes_to_write` out. Fails,
    /// changing nothing, when either is longer than [`MAX_DMA_SIZE`]; otherwise the directions
    /// with data are in flight and the steps that start the transfer come back.
    pub fn start_transfer_dma(
        &mut self,
        full_duplex: bool,
        bytes_to_read: usize,
        bytes_to_write: usize,
    ) -> (r: Result<Vec<DmaStep>, Error>)
        ensures
            final(self).chip == old(self).chip,
            (bytes_to_read > MAX_DMA_SIZE || bytes_to_write > MAX_DMA_SIZE) <==> r is Err,
            r is Err ==> r == Err::<Vec<DmaStep>, Error>(Error::MaxDmaTransferSizeExceeded)
                && *final(self) == *old(self),
            r matches Ok(steps) ==> steps@ == start_steps_spec(
                old(self).chip,
                full_duplex,
                bytes_to_read,
                bytes_to_write,
            ) && final(self).rx_transfer_in_progress == (bytes_to_read > 0)
                && final(self).tx_transfer_in_progress == (bytes_to_write > 0),
    {
        if bytes_to_read > MAX_DMA_SIZE || bytes_to_write > MAX_DMA_SIZE {
            return Err(Error::MaxDmaTransferSizeExceeded);
        }
        self.rx_transfer_in_progress = bytes_to_read > 0;
        self.tx_transfer_in_progress = bytes_to_write > 0;
        Ok(start_steps(self.chip, full_duplex, bytes_to_read, bytes_to_write))
    }

    /// A full-duplex transfer, as [`SpiDma::start_transfer_dma`].
    pub fn start_dma_transfer(&mut self, bytes_to_read: usize, bytes_to_write: usize) -> (r: Result<
        Vec<DmaStep>,
        Error,
    >)
        ensures
            final(self).chip == old(self).chip,
            (bytes_to_read > MAX_DMA_SIZE || bytes_to_write > MAX_DMA_SIZE) <==> r is Err,
            r is Err ==> r == Err::<Vec<DmaStep>, Error>(Error::MaxDmaTransferSizeExceeded)
                && *final(self) == *old(self),
            r matches Ok(steps) ==> steps@ == start_steps_spec(
                old(self).chip,
                true,
                bytes_to_read,
                bytes_to_write,
            ) && final(self).rx_transfer_in_progress == (bytes_to_read > 0)
                && final(self).tx_transfer_in_progress == (bytes_to_write > 0),
    {
        self.start_transfer_dma(true, bytes_to_read, bytes_to_write)
    }

    /// A full-duplex write with nothing to receive, as [`SpiDma::start_transfer_dma`].
    pub fn start_dma_write(&mut self, bytes_to_write: usize) -> (r: Result<Vec<DmaStep>, Error>)
        ensures
            final(self).chip == old(self).chip,
            (bytes_to_write > MAX_DMA_SIZE) <==> r is Err,
            r is Err ==> r == Err::<Vec<DmaStep>, Error>(Error::MaxDmaTransferSizeExceeded)
                && *final(self) == *old(self),
            r matches Ok(steps) ==> steps@ == start_steps_spec(
                old(self).chip,
                true,
                0,
                bytes_to_write,
            ) && !final(self).rx_transfer_in_progress && final(self).tx_transfer_in_progress == (
            bytes_to_write > 0),
    {
        self.start_dma_transfer(0, bytes_to_write)
    }

    /// A full-duplex read with nothing to send, as [`SpiDma::start_transfer_dma`].
    pub fn start_dma_read(&mut self, bytes_to_read: usize) -> (r: Result<Vec<DmaStep>, Error>)
        ensures
            final(self).chip == old(self).chip,
            (bytes_to_read > MAX_DMA_SIZE) <==> r is Err,
            r is Err ==> r == Err::<Vec<DmaStep>, Error>(Error::MaxDmaTransferSizeExceeded)
                && *final(self) == *old(self),
            r matches Ok(steps) ==> steps@ == start_steps_spec(
                old(self).chip,
                true,
                bytes_to_read,
                0,
            ) && final(self).rx_transfer_in_progress == (bytes_to_read > 0)
                && !final(self).tx_transfer_in_progress,
    {
        self.start_dma_transfer(bytes_to_read, 0)
    }

    /// Cancel the transfer in flight: if anything is in flight, cut the SPI transfer short, then
    /// stop each DMA channel that was moving data. Afterwards nothing is in flight.
    pub fn cancel_transfer(&mut self) -> (steps: Vec<DmaStep>)
        ensures
            final(self).chip == old(self).chip,
            final(self).idle(),
            steps@ == cancel_steps_spec(
                old(self).tx_transfer_in_progress,
                old(self).rx_transfer_in_progress,
            ),
    {
        let mut steps: Vec<DmaStep> = Vec::new();
        if self.tx_transfer_in_progress || self.rx_transfer_in_progress {
            steps = abort_transfer();
            if self.tx_transfer_in_progress {
                steps.push(DmaStep::StopTx);
                self.tx_transfer_in_progress = false;
            }
            if self.rx_transfer_in_progress {
                steps.push(DmaStep::StopRx);
                self.rx_transfer_in_progress = false;
            }
        }
        proof {
            assert(steps@ =~= cancel_steps_spec(
                old(self).tx_transfer_in_progress,
                old(self).rx_transfer_in_progress,
            ));
        }
        steps
    }
}

/// The steps that cancel a transfer whose transmit (`tx`) and receive (`rx`) directions are or
/// are not in flight.
pub open spec fn cancel_steps_spec(tx: bool, rx: bool) -> Seq<DmaStep> {
    if tx || rx {
        abort_transfer_spec() + (if tx {
            seq![DmaStep::StopTx]
        } else {
            seq![]
        }) + (if rx {
            seq![DmaStep::StopRx]
        } else {
            seq![]
        })
    } else {
        seq![]
    }
}

} // verus!

verus! {

/// How many polls `cancel_and_quiesce` waits for a cancelled engine to stop before it resets the
/// DMA: far above a burst wind-down, so it only ever bounds a stuck peripheral.
pub const CANCEL_QUIESCE_POLLS: u32 = 50_000;

/// What one poll of the wait for a cancelled engine decides.
#[derive(Clone, Copy, PartialEq, Eq, Structural, Debug)]
pub enum QuiescePoll {
    /// The engine has stopped.
    Stopped,
    /// Not yet: poll again.
    Wait,
    /// The budget is spent: reset the DMA instead of waiting on.
    GiveUp,
}

/// One poll of the wait for a cancelled engine, after `polls` polls that found it still running:
/// the new poll count and the decision.
pub open spec fn quiesce_spec(polls: u32, done: bool) -> (u32, QuiescePoll) {
    if done {
        (polls, QuiescePoll::Stopped)
    } else if polls + 1 >= CANCEL_QUIESCE_POLLS {
        ((polls + 1) as u32, QuiescePoll::GiveUp)
    } else {
        ((polls + 1) as u32, QuiescePoll::Wait)
    }
}

/// One poll of the wait for a cancelled engine, after `polls` polls that found it still running;
/// returns the new poll count and the decision.
pub fn quiesce_poll(polls: u32, done: bool) -> (r: (u32, QuiescePoll))
    requires
        polls < CANCEL_QUIESCE_POLLS,
    ensures
        r == quiesce_spec(polls, done),
        r.0 <= CANCEL_QUIESCE_POLLS,
{
    if done {
        return (polls, QuiescePoll::Stopped);
    }
    let p: u32 = polls + 1;
    if p >= CANCEL_QUIESCE_POLLS {
        (p, QuiescePoll::GiveUp)
    } else {
        (p, QuiescePoll::Wait)
    }
}

/// The wait for a cancelled engine is bounded: polled from zero on an engine that never stops,
/// it waits `CANCEL_QUIESCE_POLLS - 1` times and then gives up.
pub proof fn lemma_quiesce_bounded(k: u32)
    requires
        k < CANCEL_QUIESCE_POLLS,
    ensures
        k + 1 < CANCEL_QUIESCE_POLLS ==> quiesce_spec(k, false) == ((k + 1) as u32, QuiescePoll::Wait),
        k + 1 == CANCEL_QUIESCE_POLLS ==> quiesce_spec(k, false) == (
            CANCEL_QUIESCE_POLLS,
            QuiescePoll::GiveUp,
        ),
        quiesce_spec(k, true) == (k, QuiescePoll::Stopped),
{
}

/// How often the wait for `TransferDone` re-polls a PDMA peripheral that raised the interrupt but
/// is still busy: unbounded self-waking would starve the timer, so no timeout could fire.
pub const BUSY_POLL_BUDGET: u32 = 50_000;

/// What one look at `TransferDone` during a poll of its wait decides.
#[derive(Clone, Copy, PartialEq, Eq, Structural, Debug)]
pub enum PollAction {
    /// Clear `TransferDone` and finish.
    Ready,
    /// Wake the task again at once and stay pending.
    WakeAgain,
    /// Register the waker and listen for `TransferDone`, then look once more: the interrupt may
    /// have come in between.
    Arm,
    /// Armed, and still nothing: stay pending until the interrupt wakes the task.
    Stay,
}

/// One look at `TransferDone` during a poll of its wait, after `busy_polls` re-polls of a busy
/// peripheral, with the waker registered and the interrupt listened for (`armed`) or not yet:
/// the new re-poll count and the decision.
pub open spec fn poll_spec(chip: Chip, armed: bool, done_irq: bool, busy: bool, busy_polls: u32) -> (
    u32,
    PollAction,
) {
    if !done_irq {
        (busy_polls, if armed {
            PollAction::Stay
        } else {
            PollAction::Arm
        })
    } else if chip.pdma() && busy {
        let p: u32 = if busy_polls == u32::MAX {
            busy_polls
        } else {
            (busy_polls + 1) as u32
        };
        if p < BUSY_POLL_BUDGET {
            (p, PollAction::WakeAgain)
        } else {
            (p, PollAction::Ready)
        }
    } else {
        (busy_polls, PollAction::Ready)
    }
}

/// One look at `TransferDone` during a poll of its wait; see [`poll_spec`]. On a PDMA chip the
/// interrupt can come before the peripheral is idle, so it is re-polled, but at most
/// [`BUSY_POLL_BUDGET`] times. A poll that finds no interrupt arms the wait and looks again, so an
/// interrupt that came between the look and the arming is not lost.
pub fn poll_transfer_done(chip: Chip, armed: bool, done_irq: bool, busy: bool, busy_polls: u32) -> (r: (
    u32,
    PollAction,
))
    ensures
        r == poll_spec(chip, armed, done_irq, busy, busy_polls),
        !armed && !done_irq ==> r == (busy_polls, PollAction::Arm),
        armed && !done_irq ==> r == (busy_polls, PollAction::Stay),
        done_irq && !busy ==> r == (busy_polls, PollAction::Ready),
{
    let mut polls: u32 = busy_polls;
    if done_irq {
        if chip.is_pdma() && busy {
            polls = polls.saturating_add(1);
            if polls < BUSY_POLL_BUDGET {
                return (polls, PollAction::WakeAgain);
            }
        }
        return (polls, PollAction::Ready);
    }
    if armed {
        (polls, PollAction::Stay)
    } else {
        (polls, PollAction::Arm)
    }
}

/// The wait for `TransferDone` is bounded: once the interrupt is raised, a peripheral that stays
/// busy is re-polled `BUSY_POLL_BUDGET - 1` times and then the wait finishes anyway; and a poll
/// arms at most once, the look after arming deciding for good.
pub proof fn lemma_busy_poll_bounded(chip: Chip, armed: bool, k: u32)
    requires
        chip.pdma(),
        k < BUSY_POLL_BUDGET,
    ensures
        k + 1 < BUSY_POLL_BUDGET ==> poll_spec(chip, armed, true, true, k) == (
            (k + 1) as u32,
            PollAction::WakeAgain,
        ),
        k + 1 == BUSY_POLL_BUDGET ==> poll_spec(chip, armed, true, true, k) == (
            BUSY_POLL_BUDGET,
            PollAction::Ready,
        ),
        poll_spec(chip, armed, true, false, k) == (k, PollAction::Ready),
        forall|irq: bool, busy: bool| poll_spec(chip, true, irq, busy, k).1 != PollAction::Arm,
{
}

impl SpiDma {
    /// Begin `cancel_and_quiesce`: cancel the transfer; the caller then polls
    /// [`quiesce_poll`] with [`SpiDma::is_done`], and ends with [`SpiDma::end_quiesce`].
    pub fn begin_quiesce(&mut self) -> (steps: Vec<DmaStep>)
        ensures
            final(self).chip == old(self).chip,
            final(self).idle(),
            steps@ == cancel_steps_spec(
                old(self).tx_transfer_in_progress,
                old(self).rx_transfer_in_progress,
            ),
    {
        self.cancel_transfer()
    }

    /// End `cancel_and_quiesce`: reset the DMA if the wait gave up; nothing is in flight any more.
    pub fn end_quiesce(&mut self, gave_up: bool) -> (steps: Vec<DmaStep>)
        ensures
            final(self).chip == old(self).chip,
            final(self).idle(),
            steps@ == (if gave_up {
                reset_dma_spec()
            } else {
                seq![]
            }),
    {
        let steps = if gave_up {
            reset_dma()
        } else {
            Vec::new()
        };
        self.rx_transfer_in_progress = false;
        self.tx_transfer_in_progress = false;
        proof {
            assert(steps@ =~= (if gave_up {
                reset_dma_spec()
            } else {
                seq![]
            }));
        }
        steps
    }

    /// After the wait for the receive DMA of an asynchronous transfer: on a descriptor fault the
    /// SPI stays busy and `TransferDone` never comes, so the peripheral is recovered (DMA reset,
    /// transfer cancelled) and the steps come back; otherwise the receive is no longer in flight.
    pub fn after_rx_wait(&mut self, rx_ok: bool) -> (r: Option<Vec<DmaStep>>)
        ensures
            final(self).chip == old(self).chip,
            !rx_ok ==> final(self).idle() && (r matches Some(steps) && steps@ == reset_dma_spec()
                + cancel_steps_spec(
                old(self).tx_transfer_in_progress,
                old(self).rx_transfer_in_progress,
            )),
            rx_ok ==> r is None && !final(self).rx_transfer_in_progress
                && final(self).tx_transfer_in_progress == old(self).tx_transfer_in_progress,
    {
        if !rx_ok {
            let mut steps = reset_dma();
            let mut c = self.cancel_transfer();
            steps.append(&mut c);
            return Some(steps);
        }
        self.rx_transfer_in_progress = false;
        None
    }

    /// After the wait for `TransferDone` of an asynchronous transfer: on a PDMA chip a peripheral
    /// still busy here is stuck, and is recovered like a descriptor fault.
    pub fn after_done_wait(&mut self, busy: bool) -> (r: Option<Vec<DmaStep>>)
        ensures
            final(self).chip == old(self).chip,
            (old(self).chip.pdma() && busy) ==> final(self).idle() && (r matches Some(steps)
                && steps@ == reset_dma_spec() + cancel_steps_spec(
                old(self).tx_transfer_in_progress,
                old(self).rx_transfer_in_progress,
            )),
            !(old(self).chip.pdma() && busy) ==> r is None && *final(self) == *old(self),
    {
        if self.chip.is_pdma() && busy {
            let mut steps = reset_dma();
            let mut c = self.cancel_transfer();
            steps.append(&mut c);
            return Some(steps);
        }
        None
    }

    /// Finish an asynchronous transfer: if the transmit DMA was in flight and has not finished
    /// (its buffer is longer than what the SPI consumed), it is stopped; the transmit is no longer
    /// in flight. Returns whether to stop the transmit channel.
    pub fn finish_tx(&mut self, tx_done: bool) -> (stop: bool)
        ensures
            final(self).chip == old(self).chip,
            stop == (old(self).tx_transfer_in_progress && !tx_done),
            !final(self).tx_transfer_in_progress,
            final(self).rx_transfer_in_progress == old(self).rx_transfer_in_progress,
    {
        let mut stop = false;
        if self.tx_transfer_in_progress {
            if !tx_done {
                stop = true;
            }
            self.tx_transfer_in_progress = false;
        }
        stop
    }
}

} // verus!

verus! {

/// How many data lines a phase of an SPI transaction uses.
#[derive(Clone, Copy, PartialEq, Eq, Structural, Debug)]
pub enum DataMode {
    /// One line, with MOSI and MISO separate.
    SingleTwoDataLines,
    /// One line.
    Single,
    /// Two lines.
    Dual,
    /// Four lines.
    Quad,
    /// Eight lines.
    Octal,
}

/// The address phase of a half-duplex transaction: up to 32 bits, sent on `mode`'s lines. A
/// width of 0 is no address phase.
#[derive(Clone, Copy, PartialEq, Eq, Structural, Debug)]
pub struct Address {
    width: u32,
    value: u32,
    mode: DataMode,
}

impl Address {
    /// The width in bits.
    pub closed spec fn width_spec(self) -> u32 {
        self.width
    }

    /// The address.
    pub closed spec fn value_spec(self) -> u32 {
        self.value
    }

    /// The lines the address is sent on.
    pub closed spec fn mode_spec(self) -> DataMode {
        self.mode
    }

    /// An address of `width` bits (at most 32), sent on `mode`'s lines; `None` when wider.
    pub fn new(width: u32, value: u32, mode: DataMode) -> (r: Option<Address>)
        ensures
            width > 32 <==> r is None,
            r matches Some(a) ==> a.width_spec() == width && a.value_spec() == value
                && a.mode_spec() == mode,
    {
        if width > 32 {
            None
        } else {
            Some(Address { width, value, mode })
        }
    }

    /// No address phase.
    pub fn none() -> (a: Address)
        ensures
            a.width_spec() == 0,
            a.value_spec() == 0,
            a.mode_spec() == DataMode::SingleTwoDataLines,
    {
        Address { width: 0, value: 0, mode: DataMode::SingleTwoDataLines }
    }

    /// The width in bits, at most 32.
    pub fn width(&self) -> (r: u32)
        ensures
            r == self.width_spec(),
            r <= 32,
    {
        proof {
            use_type_invariant(self);
        }
        self.width
    }

    /// The address.
    pub fn value(&self) -> (r: u32)
        ensures
            r == self.value_spec(),
    {
        self.value
    }

    /// The lines the address is sent on.
    pub fn mode(&self) -> (r: DataMode)
        ensures
            r == self.mode_spec(),
    {
        self.mode
    }

    #[verifier::type_invariant]
    spec fn width_fits(self) -> bool {
        self.width <= 32
    }
}

/// The command phase of a half-duplex transaction: up to 16 bits, sent on `mode`'s lines. A
/// width of 0 is no command phase.
#[derive(Clone, Copy, PartialEq, Eq, Structural, Debug)]
pub struct Command {
    /// The width in bits.
    pub width: u32,
    /// The command.
    pub value: u16,
    /// The lines the command is sent on.
    pub mode: DataMode,
}

/// The arguments of the SPI peripheral's half-duplex set-up, which programs the command,
/// address and dummy phases before the data phase.
#[derive(Clone, Copy, PartialEq, Eq, Structural, Debug)]
pub struct HalfDuplexSetup {
    /// The data phase writes (otherwise it reads).
    pub is_write: bool,
    /// The command phase.
    pub cmd: Command,
    /// The address phase.
    pub address: Address,
    /// Whether the dummy phase idles the clock.
    pub dummy_idle: bool,
    /// The number of dummy cycles.
    pub dummy: u8,
    /// There is no data phase.
    pub no_mosi_miso: bool,
    /// The lines of the data phase.
    pub data_mode: DataMode,
}

/// The set-up of a half-duplex read of `bytes_to_read` bytes.
pub fn half_duplex_read_setup(
    data_mode: DataMode,
    cmd: Command,
    address: Address,
    dummy: u8,
    bytes_to_read: usize,
) -> (s: HalfDuplexSetup)
    ensures
        s == (HalfDuplexSetup {
            is_write: false,
            cmd,
            address,
            dummy_idle: false,
            dummy,
            no_mosi_miso: bytes_to_read == 0,
            data_mode,
        }),
{
    HalfDuplexSetup {
        is_write: false,
        cmd,
        address,
        dummy_idle: false,
        dummy,
        no_mosi_miso: bytes_to_read == 0,
        data_mode,
    }
}

/// Byte `k` of the `n` low bytes of `value`, most significant first.
pub open spec fn address_byte(value: u32, n: nat, k: nat) -> u8 {
    ((value >> ((8 * (n - 1 - k)) as u32)) & 0xff) as u8
}

/// The low `n` bytes of `value`, most significant first, as the address register reads them.
pub open spec fn address_bytes_spec(value: u32, n: nat) -> Seq<u8> {
    Seq::new(n, |k: int| address_byte(value, n, k as nat))
}

/// The low `n` bytes of `value`, most significant first.
pub fn address_bytes(value: u32, n: usize) -> (bytes: Vec<u8>)
    requires
        n <= 4,
    ensures
        bytes@ == address_bytes_spec(value, n as nat),
{
    let mut bytes: Vec<u8> = Vec::new();
    let mut k: usize = 0;
    while k < n
        invariant
            k <= n,
            n <= 4,
            bytes@ == Seq::new(k as nat, |j: int| address_byte(value, n as nat, j as nat)),
        decreases n - k,
    {
        let shift: u32 = (8 * (n - 1 - k)) as u32;
        let b: u8 = ((value >> shift) & 0xff) as u8;
        bytes.push(b);
        k = k + 1;
        proof {
            assert(bytes@ =~= Seq::new(k as nat, |j: int| address_byte(value, n as nat, j as nat)));
        }
    }
    bytes
}

/// How a half-duplex write is programmed.
#[derive(Debug)]
pub struct HalfDuplexWrite {
    /// The set-up of the command, address and dummy phases.
    pub setup: HalfDuplexSetup,
    /// The number of bytes the transmit DMA moves.
    pub bytes_to_write: usize,
    /// `Some(bytes)`: the address is sent as data from the driver's own transmit buffer, filled
    /// with these bytes; `None`: the caller's buffer is sent.
    pub address_data: Option<Vec<u8>>,
}

/// Whether the ESP32's address work-around applies: with no data to write, the ESP32 sends the
/// address on a single line whatever its mode, so an address on more lines is sent as data.
pub open spec fn needs_address_workaround(chip: Chip, address: Address, bytes_to_write: usize) -> bool {
    chip == Chip::Esp32 && bytes_to_write == 0 && address.mode_spec() != DataMode::SingleTwoDataLines
}

/// Plan a half-duplex write of `bytes_to_write` bytes. On the ESP32, with no data and an address
/// on more than one line, the address becomes the data: its `ceil(width / 8)` low bytes, most
/// significant first, with no address phase; dummy cycles are then not supported.
pub fn half_duplex_write_plan(
    chip: Chip,
    data_mode: DataMode,
    cmd: Command,
    address: Address,
    dummy: u8,
    bytes_to_write: usize,
) -> (r: Result<HalfDuplexWrite, Error>)
    ensures
        chip != Chip::Esp32 ==> (r matches Ok(w) && w.address_data is None && w.bytes_to_write
            == bytes_to_write && w.setup.address == address && w.setup.dummy == dummy
            && w.setup.data_mode == data_mode && w.setup.cmd == cmd && w.setup.is_write),
        !needs_address_workaround(chip, address, bytes_to_write) ==> (r matches Ok(w) && w.setup
            == (HalfDuplexSetup {
            is_write: true,
            cmd,
            address,
            dummy_idle: false,
            dummy,
            no_mosi_miso: bytes_to_write == 0,
            data_mode,
        }) && w.bytes_to_write == bytes_to_write && w.address_data is None),
        needs_address_workaround(chip, address, bytes_to_write) && dummy > 0 ==> r == Err::<
            HalfDuplexWrite,
            Error,
        >(Error::Unsupported),
        needs_address_workaround(chip, address, bytes_to_write) && dummy == 0 ==> (r matches Ok(w)
            && w.bytes_to_write == (address.width_spec() + 7) / 8 && w.setup.is_write
            && w.setup.cmd == cmd && w.setup.address.width_spec() == 0
            && w.setup.address.value_spec() == 0 && w.setup.address.mode_spec()
            == DataMode::SingleTwoDataLines && !w.setup.dummy_idle && w.setup.dummy == dummy
            && w.setup.no_mosi_miso == (w.bytes_to_write == 0) && w.setup.data_mode
            == address.mode_spec() && (w.address_data matches Some(bytes) && bytes@ == address_bytes_spec(
            address.value_spec(),
            w.bytes_to_write as nat,
        ))),
{
    if chip == Chip::Esp32 && bytes_to_write == 0 && address.mode() != DataMode::SingleTwoDataLines {
        if dummy > 0 {
            return Err(Error::Unsupported);
        }
        let width: u32 = address.width();
        let n: usize = ((width + 7) / 8) as usize;
        let bytes = address_bytes(address.value(), n);
        let setup = HalfDuplexSetup {
            is_write: true,
            cmd,
            address: Address::none(),
            dummy_idle: false,
            dummy,
            no_mosi_miso: n == 0,
            data_mode: address.mode(),
        };
        return Ok(HalfDuplexWrite { setup, bytes_to_write: n, address_data: Some(bytes) });
    }
    Ok(
        HalfDuplexWrite {
            setup: HalfDuplexSetup {
                is_write: true,
                cmd,
                address,
                dummy_idle: false,
                dummy,
                no_mosi_miso: bytes_to_write == 0,
                data_mode,
            },
            bytes_to_write,
            address_data: None,
        },
    )
}

impl SpiDma {
    /// Record and program the data phase of a half-duplex read, once its set-up is done.
    pub fn start_half_duplex_read(&mut self, bytes_to_read: usize) -> (r: Result<Vec<DmaStep>, Error>)
        ensures
            final(self).chip == old(self).chip,
            (bytes_to_read > MAX_DMA_SIZE) <==> r is Err,
            r is Err ==> r == Err::<Vec<DmaStep>, Error>(Error::MaxDmaTransferSizeExceeded)
                && *final(self) == *old(self),
            r matches Ok(steps) ==> steps@ == start_steps_spec(
                old(self).chip,
                false,
                bytes_to_read,
                0,
            ) && final(self).rx_transfer_in_progress == (bytes_to_read > 0)
                && !final(self).tx_transfer_in_progress,
    {
        self.start_transfer_dma(false, bytes_to_read, 0)
    }

    /// Record and program the data phase of a half-duplex write, once its set-up is done.
    pub fn start_half_duplex_write(&mut self, bytes_to_write: usize) -> (r: Result<
        Vec<DmaStep>,
        Error,
    >)
        ensures
            final(self).chip == old(self).chip,
            (bytes_to_write > MAX_DMA_SIZE) <==> r is Err,
            r is Err ==> r == Err::<Vec<DmaStep>, Error>(Error::MaxDmaTransferSizeExceeded)
                && *final(self) == *old(self),
            r matches Ok(steps) ==> steps@ == start_steps_spec(
                old(self).chip,
                false,
                0,
                bytes_to_write,
            ) && !final(self).rx_transfer_in_progress && final(self).tx_transfer_in_progress == (
            bytes_to_write > 0),
    {
        self.start_transfer_dma(false, 0, bytes_to_write)
    }
}

} // verus!

verus! {

/// A transfer is programmed before it runs: the SPI operation is started last, after the
/// lengths; a receive channel is started exactly when there is data to receive, and a transmit
/// channel exactly when there is data to send.
pub proof fn lemma_start_order(chip: Chip, full_duplex: bool, rx_len: usize, tx_len: usize)
    ensures
        start_steps_spec(chip, full_duplex, rx_len, tx_len).last() == DmaStep::StartOperation,
        start_steps_spec(chip, full_duplex, rx_len, tx_len).contains(DmaStep::StartRx) == (rx_len
            > 0),
        start_steps_spec(chip, full_duplex, rx_len, tx_len).contains(DmaStep::StartTx) == (tx_len
            > 0),
        start_steps_spec(chip, full_duplex, rx_len, tx_len).contains(
            DmaStep::ConfigureDatalen { rx: rx_len, tx: tx_len },
        ),
{
    let s = start_steps_spec(chip, full_duplex, rx_len, tx_len);
    let a = if chip == Chip::Esp32s2 {
        seq![DmaStep::ClearLinks]
    } else {
        seq![]
    };
    let b = seq![
        DmaStep::ConfigureDatalen { rx: rx_len, tx: tx_len },
        DmaStep::SetUserLines { miso: rx_len > 0, mosi: tx_len > 0 },
    ];
    let c = enable_dma_spec(chip);
    let d = if rx_len > 0 {
        seq![DmaStep::StartRx]
    } else if chip == Chip::Esp32 && full_duplex {
        seq![DmaStep::ParkInlink]
    } else {
        seq![]
    };
    let e = if tx_len > 0 {
        seq![DmaStep::StartTx]
    } else {
        seq![]
    };
    let f = if chip.pdma() {
        seq![]
    } else {
        reset_dma_spec()
    };
    let g = seq![DmaStep::StartOperation];
    assert(s == a + b + c + d + e + f + g);
    let pre = a + b + c;
    assert(pre[a.len() as int] == DmaStep::ConfigureDatalen { rx: rx_len, tx: tx_len });
    assert(s[a.len() as int] == DmaStep::ConfigureDatalen { rx: rx_len, tx: tx_len });
    if rx_len > 0 {
        assert(s[(a + b + c).len() as int] == DmaStep::StartRx);
    } else {
        assert forall|k: int| 0 <= k < s.len() implies s[k] != DmaStep::StartRx by {
            if k < (a + b + c).len() {
                assert(s[k] == (a + b + c)[k]);
                if k < a.len() {
                    assert((a + b + c)[k] == a[k]);
                } else if k < (a + b).len() {
                    assert((a + b + c)[k] == b[k - a.len()]);
                } else {
                    assert((a + b + c)[k] == c[k - (a + b).len()]);
                }
            } else if k < (a + b + c + d).len() {
                assert(s[k] == d[k - (a + b + c).len()]);
            } else if k < (a + b + c + d + e).len() {
                assert(s[k] == e[k - (a + b + c + d).len()]);
            } else if k < (a + b + c + d + e + f).len() {
                assert(s[k] == f[k - (a + b + c + d + e).len()]);
            } else {
                assert(s[k] == g[k - (a + b + c + d + e + f).len()]);
            }
        }
    }
    if tx_len > 0 {
        assert(s[(a + b + c + d).len() as int] == DmaStep::StartTx);
    } else {
        assert forall|k: int| 0 <= k < s.len() implies s[k] != DmaStep::StartTx by {
            if k < (a + b + c).len() {
                assert(s[k] == (a + b + c)[k]);
                if k < a.len() {
                    assert((a + b + c)[k] == a[k]);
                } else if k < (a + b).len() {
                    assert((a + b + c)[k] == b[k - a.len()]);
                } else {
                    assert((a + b + c)[k] == c[k - (a + b).len()]);
                }
            } else if k < (a + b + c + d).len() {
                assert(s[k] == d[k - (a + b + c).len()]);
            } else if k < (a + b + c + d + e).len() {
                assert(s[k] == e[k - (a + b + c + d).len()]);
            } else if k < (a + b + c + d + e + f).len() {
                assert(s[k] == f[k - (a + b + c + d + e).len()]);
            } else {
                assert(s[k] == g[k - (a + b + c + d + e + f).len()]);
            }
        }
    }
}

/// Cancelling an instance with nothing in flight does nothing; a cancel leaves nothing in flight,
/// so a second cancel right after it does nothing either.
pub proof fn lemma_cancel_idle_is_noop()
    ensures
        cancel_steps_spec(false, false) == Seq::<DmaStep>::empty(),
{
}

/// Starting a transfer and cancelling it stops exactly the DMA channels that the transfer
/// started, after cutting the SPI transfer short.
pub proof fn lemma_cancel_undoes_start(rx_len: usize, tx_len: usize)
    requires
        rx_len > 0 || tx_len > 0,
    ensures
        cancel_steps_spec(tx_len > 0, rx_len > 0).contains(DmaStep::StopRx) == (rx_len > 0),
        cancel_steps_spec(tx_len > 0, rx_len > 0).contains(DmaStep::StopTx) == (tx_len > 0),
        cancel_steps_spec(tx_len > 0, rx_len > 0).subrange(0, 2) == abort_transfer_spec(),
{
    let s = cancel_steps_spec(tx_len > 0, rx_len > 0);
    let a = abort_transfer_spec();
    let t = if tx_len > 0 {
        seq![DmaStep::StopTx]
    } else {
        seq![]
    };
    let r = if rx_len > 0 {
        seq![DmaStep::StopRx]
    } else {
        seq![]
    };
    assert(s == a + t + r);
    assert(s.subrange(0, 2) =~= a);
    if rx_len > 0 {
        assert(s[(a + t).len() as int] == DmaStep::StopRx);
    } else {
        assert forall|k: int| 0 <= k < s.len() implies s[k] != DmaStep::StopRx by {
            if k < 2 {
                assert(s[k] == a[k]);
            } else {
                assert(s[k] == t[k - 2]);
            }
        }
    }
    if tx_len > 0 {
        assert(s[2] == DmaStep::StopTx);
    } else {
        assert forall|k: int| 0 <= k < s.len() implies s[k] != DmaStep::StopTx by {
            if k < 2 {
                assert(s[k] == a[k]);
            } else {
                assert(s[k] == r[k - 2]);
            }
        }
    }
}

} // verus!

verus! {

/// What the asynchronous wait for a transfer has just observed.
#[derive(Clone, Copy, PartialEq, Eq, Structural, Debug)]
pub enum WaitEvent {
    /// The wait begins; the hardware reports this.
    Start(DoneStatus),
    /// The wait for the receive DMA ended, faulted (`rx_ok` false) or not; the hardware then
    /// reports this.
    RxWaited { rx_ok: bool, st: DoneStatus },
    /// The wait for `TransferDone` ended; the hardware then reports this.
    DoneWaited(DoneStatus),
}

/// What the asynchronous wait does next.
#[derive(Debug)]
pub enum WaitAction {
    /// Wait for the receive DMA, then report [`WaitEvent::RxWaited`].
    AwaitRx,
    /// Wait for `TransferDone`, then report [`WaitEvent::DoneWaited`].
    AwaitDone,
    /// Carry out these steps; the wait is over and nothing is in flight.
    Finish(Vec<DmaStep>),
}

/// The steps that end the wait once `TransferDone` has come (or was not needed), with the
/// hardware reporting `st`: a PDMA peripheral still busy is stuck and is recovered (DMA reset,
/// transfer cancelled); otherwise a transmit still running (its buffer longer than what the SPI
/// consumed) is stopped.
pub open spec fn finish_spec(spi: SpiDma, st: DoneStatus) -> Seq<DmaStep> {
    if spi.chip.pdma() && st.spi_busy {
        reset_dma_spec() + cancel_steps_spec(spi.tx_transfer_in_progress, spi.rx_transfer_in_progress)
    } else if spi.tx_transfer_in_progress && !st.tx_done {
        seq![DmaStep::StopTx]
    } else {
        seq![]
    }
}

/// What one step of the asynchronous wait does, from instance `before` on event `ev`, giving
/// action `a` and instance `after`: see [`SpiDma::wait_step`].
pub open spec fn wait_step_post(before: SpiDma, ev: WaitEvent, a: WaitAction, after: SpiDma) -> bool {
    &&& after.chip == before.chip
    &&& a matches WaitAction::Finish(_) ==> after.idle()
    &&& ev matches WaitEvent::Start(st) ==> {
        if before.rx_transfer_in_progress {
            a is AwaitRx && after == before
        } else if !done_spec(before, st) {
            a is AwaitDone && after == before
        } else {
            a matches WaitAction::Finish(steps) && steps@ == finish_spec(before, st)
        }
    }
    &&& ev matches WaitEvent::RxWaited { rx_ok, st } ==> {
        let cleared = SpiDma { rx_transfer_in_progress: false, ..before };
        if !rx_ok {
            a matches WaitAction::Finish(steps) && steps@ == reset_dma_spec() + cancel_steps_spec(
                before.tx_transfer_in_progress,
                before.rx_transfer_in_progress,
            )
        } else if !done_spec(cleared, st) {
            a is AwaitDone && after == cleared
        } else {
            a matches WaitAction::Finish(steps) && steps@ == finish_spec(cleared, st)
        }
    }
    &&& ev matches WaitEvent::DoneWaited(st) ==> (a matches WaitAction::Finish(steps) && steps@
        == finish_spec(before, st))
}

impl SpiDma {
    fn finish_wait(&mut self, st: DoneStatus) -> (steps: Vec<DmaStep>)
        ensures
            final(self).chip == old(self).chip,
            final(self).idle(),
            steps@ == finish_spec(*old(self), st),
    {
        if let Some(steps) = self.after_done_wait(st.spi_busy) {
            return steps;
        }
        let stop = self.finish_tx(st.tx_done);
        self.rx_transfer_in_progress = false;
        let mut steps: Vec<DmaStep> = Vec::new();
        if stop {
            steps.push(DmaStep::StopTx);
        }
        proof {
            assert(steps@ =~= finish_spec(*old(self), st));
        }
        steps
    }

    /// One step of the asynchronous wait for the transfer in flight. A receive in flight is
    /// waited for first; a descriptor fault there recovers the peripheral and ends the wait.
    /// Then, unless the transfer is already done, `TransferDone` is waited for. The wait ends by
    /// [`finish_spec`]. Every path that ends the wait leaves nothing in flight.
    pub fn wait_step(&mut self, ev: WaitEvent) -> (a: WaitAction)
        ensures
            wait_step_post(*old(self), ev, a, *final(self)),
    {
        match ev {
            WaitEvent::Start(st) => {
                if self.rx_transfer_in_progress {
                    WaitAction::AwaitRx
                } else if !self.is_done(st) {
                    WaitAction::AwaitDone
                } else {
                    WaitAction::Finish(self.finish_wait(st))
                }
            },
            WaitEvent::RxWaited { rx_ok, st } => {
                if let Some(steps) = self.after_rx_wait(rx_ok) {
                    return WaitAction::Finish(steps);
                }
                if !self.is_done(st) {
                    WaitAction::AwaitDone
                } else {
                    WaitAction::Finish(self.finish_wait(st))
                }
            },
            WaitEvent::DoneWaited(st) => WaitAction::Finish(self.finish_wait(st)),
        }
    }
}

} // verus!

verus! {

/// The MISO and MOSI phases follow the lengths: a transfer enables the MISO phase exactly when
/// it receives and the MOSI phase exactly when it sends; it sets them once, and never otherwise.
pub proof fn lemma_user_lines(chip: Chip, full_duplex: bool, rx_len: usize, tx_len: usize)
    ensures
        start_steps_spec(chip, full_duplex, rx_len, tx_len).contains(
            DmaStep::SetUserLines { miso: rx_len > 0, mosi: tx_len > 0 },
        ),
        forall|k: int, miso: bool, mosi: bool|
            0 <= k < start_steps_spec(chip, full_duplex, rx_len, tx_len).len()
                && start_steps_spec(chip, full_duplex, rx_len, tx_len)[k] == (DmaStep::SetUserLines {
                miso,
                mosi,
            }) ==> miso == (rx_len > 0) && mosi == (tx_len > 0),
{
    let s = start_steps_spec(chip, full_duplex, rx_len, tx_len);
    let a = if chip == Chip::Esp32s2 {
        seq![DmaStep::ClearLinks]
    } else {
        seq![]
    };
    let b = seq![
        DmaStep::ConfigureDatalen { rx: rx_len, tx: tx_len },
        DmaStep::SetUserLines { miso: rx_len > 0, mosi: tx_len > 0 },
    ];
    let c = enable_dma_spec(chip);
    let d = if rx_len > 0 {
        seq![DmaStep::StartRx]
    } else if chip == Chip::Esp32 && full_duplex {
        seq![DmaStep::ParkInlink]
    } else {
        seq![]
    };
    let e = if tx_len > 0 {
        seq![DmaStep::StartTx]
    } else {
        seq![]
    };
    let f = if chip.pdma() {
        seq![]
    } else {
        reset_dma_spec()
    };
    let g = seq![DmaStep::StartOperation];
    assert(s == a + b + c + d + e + f + g);
    assert(s[a.len() as int + 1] == DmaStep::SetUserLines { miso: rx_len > 0, mosi: tx_len > 0 });
    assert forall|k: int, miso: bool, mosi: bool|
        0 <= k < s.len() && s[k] == (DmaStep::SetUserLines { miso, mosi }) implies miso == (rx_len
        > 0) && mosi == (tx_len > 0) by {
        if k < (a + b + c).len() {
            assert(s[k] == (a + b + c)[k]);
            if k < a.len() {
                assert((a + b + c)[k] == a[k]);
            } else if k < (a + b).len() {
                assert((a + b + c)[k] == b[k - a.len()]);
            } else {
                assert((a + b + c)[k] == c[k - (a + b).len()]);
            }
        } else if k < (a + b + c + d).len() {
            assert(s[k] == d[k - (a + b + c).len()]);
        } else if k < (a + b + c + d + e).len() {
            assert(s[k] == e[k - (a + b + c + d).len()]);
        } else if k < (a + b + c + d + e + f).len() {
            assert(s[k] == f[k - (a + b + c + d + e).len()]);
        } else {
            assert(s[k] == g[k - (a + b + c + d + e + f).len()]);
        }
    }
}

/// A poll that finds no `TransferDone` and has not armed the wait yet arms it, on every chip and
/// whatever the re-poll count; once armed, it stays pending; and an interrupt with the
/// peripheral idle ends the wait, again on every chip.
pub proof fn lemma_poll_arms_before_sleeping(chip: Chip, busy: bool, k: u32)
    ensures
        poll_spec(chip, false, false, busy, k) == (k, PollAction::Arm),
        poll_spec(chip, true, false, busy, k) == (k, PollAction::Stay),
        poll_spec(chip, false, true, false, k) == (k, PollAction::Ready),
        poll_spec(chip, true, true, false, k) == (k, PollAction::Ready),
{
}

/// Only the ESP32 sends a multi-line address as data; every other chip keeps the caller's
/// address phase, whatever the address, the dummy cycles or the length.
pub proof fn lemma_address_workaround_esp32_only(chip: Chip, address: Address, bytes_to_write: usize)
    ensures
        chip != Chip::Esp32 ==> !needs_address_workaround(chip, address, bytes_to_write),
        bytes_to_write > 0 ==> !needs_address_workaround(chip, address, bytes_to_write),
        address.mode_spec() == DataMode::SingleTwoDataLines ==> !needs_address_workaround(
            chip,
            address,
            bytes_to_write,
        ),
        chip == Chip::Esp32 && bytes_to_write == 0 && address.mode_spec()
            != DataMode::SingleTwoDataLines ==> needs_address_workaround(
            chip,
            address,
            bytes_to_write,
        ),
{
}

} // verus!

verus! {

/// A transfer is done only when the peripheral is idle and each DMA half in flight has finished
/// (the receive half may instead have run out of descriptors); an instance with nothing in
/// flight is done as soon as the peripheral is idle.
pub proof fn lemma_done_needs_both_halves(spi: SpiDma, st: DoneStatus)
    ensures
        done_spec(spi, st) ==> !st.spi_busy,
        done_spec(spi, st) && spi.tx_transfer_in_progress ==> st.tx_done,
        done_spec(spi, st) && spi.rx_transfer_in_progress ==> st.rx_done || st.rx_dscr_empty_error,
        spi.idle() ==> (done_spec(spi, st) <==> !st.spi_busy),
{
}

/// The end of the asynchronous wait stops a transmit that is still running, and stops nothing
/// that is not in flight.
pub proof fn lemma_finish_stops_running_tx(spi: SpiDma, st: DoneStatus)
    ensures
        spi.tx_transfer_in_progress && !st.tx_done ==> finish_spec(spi, st).contains(
            DmaStep::StopTx,
        ),
        !spi.tx_transfer_in_progress ==> !finish_spec(spi, st).contains(DmaStep::StopTx),
        !spi.rx_transfer_in_progress ==> !finish_spec(spi, st).contains(DmaStep::StopRx),
{
    let f = finish_spec(spi, st);
    if spi.tx_transfer_in_progress && !st.tx_done {
        if spi.chip.pdma() && st.spi_busy {
            let r = reset_dma_spec();
            let c = cancel_steps_spec(spi.tx_transfer_in_progress, spi.rx_transfer_in_progress);
            assert(c[2] == DmaStep::StopTx);
            assert(f[(r.len() + 2) as int] == DmaStep::StopTx);
        } else {
            assert(f[0] == DmaStep::StopTx);
        }
    }
    if !spi.tx_transfer_in_progress || !spi.rx_transfer_in_progress {
        if spi.chip.pdma() && st.spi_busy {
            let r = reset_dma_spec();
            let a = abort_transfer_spec();
            let t = if spi.tx_transfer_in_progress {
                seq![DmaStep::StopTx]
            } else {
                seq![]
            };
            let x = if spi.rx_transfer_in_progress {
                seq![DmaStep::StopRx]
            } else {
                seq![]
            };
            if spi.tx_transfer_in_progress || spi.rx_transfer_in_progress {
                assert(f == r + a + t + x);
                assert forall|k: int| 0 <= k < f.len() implies (!spi.tx_transfer_in_progress ==> f[k]
                    != DmaStep::StopTx) && (!spi.rx_transfer_in_progress ==> f[k]
                    != DmaStep::StopRx) by {
                    if k < 2 {
                        assert(f[k] == r[k]);
                    } else if k < 4 {
                        assert(f[k] == a[k - 2]);
                    } else if k < 4 + t.len() {
                        assert(f[k] == t[k - 4]);
                    } else {
                        assert(f[k] == x[k - 4 - t.len()]);
                    }
                }
            } else {
                assert(f == r);
                assert forall|k: int| 0 <= k < f.len() implies f[k] != DmaStep::StopTx && f[k]
                    != DmaStep::StopRx by {
                    assert(f[k] == r[k]);
                }
            }
        }
    }
}

} // verus!
