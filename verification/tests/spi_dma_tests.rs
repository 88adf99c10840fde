use esp_drivers::spi_bus::{
    check_fits, chunks, copy_chunk, fill_from_chunks, write_async_path, zero_copy_eligible, zero_copy_next, WritePath, Chunk, SpiDmaBus, SpiDmaTransfer, Tail,
    ZeroCopyStep, ZC_DESC_COUNT,
};
use esp_drivers::spi_dma::{
    abort_transfer, address_bytes, enable_dma, half_duplex_read_setup, half_duplex_write_plan,
    poll_transfer_done, quiesce_poll, reset_dma, start_steps, Address, Chip, Command, DataMode,
    DmaError, DmaStep, DoneStatus, Error, PollAction, QuiescePoll, SpiDma, BUSY_POLL_BUDGET,
    CANCEL_QUIESCE_POLLS, MAX_DMA_SIZE, WaitAction, WaitEvent,
};

fn status(busy: bool, rx_done: bool, empty: bool) -> DoneStatus {
    DoneStatus { spi_busy: busy, rx_done, rx_dscr_empty_error: empty, tx_done: true }
}

fn status_tx(busy: bool, rx_done: bool, tx_done: bool) -> DoneStatus {
    DoneStatus { spi_busy: busy, rx_done, rx_dscr_empty_error: false, tx_done }
}

#[test]
fn done_needs_idle_spi_and_finished_receive() {
    let mut spi = SpiDma::new(Chip::Other);
    assert!(spi.is_done(status(false, false, false)));
    assert!(!spi.is_done(status(true, true, false)));
    spi.start_dma_read(16).unwrap();
    assert!(!spi.is_done(status(false, false, false)));
    assert!(spi.is_done(status(false, true, false)));
    // A receive side shorter than the transfer ends on "descriptor empty".
    assert!(spi.is_done(status(false, false, true)));
}

#[test]
fn wait_for_idle_releases_only_when_done() {
    let mut spi = SpiDma::new(Chip::Esp32);
    spi.start_dma_transfer(4, 4).unwrap();
    assert!(!spi.wait_for_idle(status(true, true, false)));
    assert!(spi.rx_transfer_in_progress && spi.tx_transfer_in_progress);
    assert!(spi.wait_for_idle(status(false, true, false)));
    assert!(!spi.rx_transfer_in_progress && !spi.tx_transfer_in_progress);
    spi.start_dma_write(4).unwrap();
    assert!(spi.wait_for_idle(status(false, false, false)));
    assert!(!spi.tx_transfer_in_progress);
}

#[test]
fn oversized_transfer_is_refused_unchanged() {
    let mut spi = SpiDma::new(Chip::Other);
    assert_eq!(
        spi.start_transfer_dma(true, MAX_DMA_SIZE + 1, 0).unwrap_err(),
        Error::MaxDmaTransferSizeExceeded
    );
    assert_eq!(
        spi.start_dma_write(MAX_DMA_SIZE + 1).unwrap_err(),
        Error::MaxDmaTransferSizeExceeded
    );
    assert!(!spi.rx_transfer_in_progress && !spi.tx_transfer_in_progress);
    assert!(spi.start_dma_write(MAX_DMA_SIZE).is_ok());
    assert!(spi.tx_transfer_in_progress && !spi.rx_transfer_in_progress);
}

#[test]
fn gdma_transfer_steps() {
    let steps = start_steps(Chip::Other, true, 8, 8);
    assert_eq!(
        steps,
        vec![
            DmaStep::ConfigureDatalen { rx: 8, tx: 8 },
            DmaStep::SetUserLines { miso: true, mosi: true },
            DmaStep::EnableDmaChannels,
            DmaStep::StartRx,
            DmaStep::StartTx,
            DmaStep::ResetDmaFifos,
            DmaStep::ClearDmaInterrupts,
            DmaStep::StartOperation,
        ]
    );
}

#[test]
fn esp32_full_duplex_write_parks_inlink() {
    let mut spi = SpiDma::new(Chip::Esp32);
    let steps = spi.start_dma_write(5).unwrap();
    assert_eq!(
        steps,
        vec![
            DmaStep::ConfigureDatalen { rx: 0, tx: 5 },
            DmaStep::SetUserLines { miso: false, mosi: true },
            DmaStep::ResetDmaFifos,
            DmaStep::ClearDmaInterrupts,
            DmaStep::ParkInlink,
            DmaStep::StartTx,
            DmaStep::StartOperation,
        ]
    );
    let hd = spi.start_half_duplex_write(5).unwrap();
    assert!(!hd.contains(&DmaStep::ParkInlink));
}

#[test]
fn esp32s2_clears_links_first() {
    let mut spi = SpiDma::new(Chip::Esp32s2);
    let steps = spi.start_half_duplex_read(3).unwrap();
    assert_eq!(steps[0], DmaStep::ClearLinks);
    assert_eq!(*steps.last().unwrap(), DmaStep::StartOperation);
    assert!(spi.rx_transfer_in_progress);
}

#[test]
fn dma_reset_and_enable_steps() {
    assert_eq!(reset_dma(), vec![DmaStep::ResetDmaFifos, DmaStep::ClearDmaInterrupts]);
    assert_eq!(enable_dma(Chip::Esp32), reset_dma());
    assert_eq!(enable_dma(Chip::Other), vec![DmaStep::EnableDmaChannels]);
    assert_eq!(
        abort_transfer(),
        vec![DmaStep::ConfigureDatalen { rx: 1, tx: 1 }, DmaStep::Update]
    );
}

#[test]
fn cancel_stops_what_is_in_flight() {
    let mut spi = SpiDma::new(Chip::Other);
    assert!(spi.cancel_transfer().is_empty());
    spi.start_dma_read(10).unwrap();
    assert_eq!(
        spi.cancel_transfer(),
        vec![DmaStep::ConfigureDatalen { rx: 1, tx: 1 }, DmaStep::Update, DmaStep::StopRx]
    );
    assert!(spi.cancel_transfer().is_empty());
    spi.start_dma_transfer(1, 2).unwrap();
    assert_eq!(
        spi.begin_quiesce(),
        vec![
            DmaStep::ConfigureDatalen { rx: 1, tx: 1 },
            DmaStep::Update,
            DmaStep::StopTx,
            DmaStep::StopRx,
        ]
    );
    assert_eq!(spi.end_quiesce(true), reset_dma());
    assert!(spi.end_quiesce(false).is_empty());
}

#[test]
fn quiesce_gives_up_after_its_budget() {
    assert_eq!(quiesce_poll(0, true), (0, QuiescePoll::Stopped));
    assert_eq!(quiesce_poll(0, false), (1, QuiescePoll::Wait));
    assert_eq!(
        quiesce_poll(CANCEL_QUIESCE_POLLS - 2, false),
        (CANCEL_QUIESCE_POLLS - 1, QuiescePoll::Wait)
    );
    assert_eq!(
        quiesce_poll(CANCEL_QUIESCE_POLLS - 1, false),
        (CANCEL_QUIESCE_POLLS, QuiescePoll::GiveUp)
    );
    let mut polls = 0;
    let mut waits = 0;
    loop {
        let (p, d) = quiesce_poll(polls, false);
        polls = p;
        if d != QuiescePoll::Wait {
            assert_eq!(d, QuiescePoll::GiveUp);
            break;
        }
        waits += 1;
    }
    assert_eq!(waits, CANCEL_QUIESCE_POLLS - 1);
}

#[test]
fn transfer_done_poll_is_bounded_on_pdma() {
    assert_eq!(poll_transfer_done(Chip::Other, false, false, true, 3), (3, PollAction::Arm));
    assert_eq!(poll_transfer_done(Chip::Other, true, false, true, 3), (3, PollAction::Stay));
    assert_eq!(poll_transfer_done(Chip::Other, true, true, true, 3), (3, PollAction::Ready));
    assert_eq!(poll_transfer_done(Chip::Esp32, false, true, false, 3), (3, PollAction::Ready));
    assert_eq!(
        poll_transfer_done(Chip::Esp32s2, false, true, true, 3),
        (4, PollAction::WakeAgain)
    );
    assert_eq!(
        poll_transfer_done(Chip::Esp32, false, true, true, BUSY_POLL_BUDGET - 1),
        (BUSY_POLL_BUDGET, PollAction::Ready)
    );
    assert_eq!(
        poll_transfer_done(Chip::Esp32, false, true, true, u32::MAX),
        (u32::MAX, PollAction::Ready)
    );
    let mut polls = 0;
    let mut wakes = 0;
    loop {
        let (p, a) = poll_transfer_done(Chip::Esp32, false, true, true, polls);
        polls = p;
        if a == PollAction::Ready {
            break;
        }
        wakes += 1;
    }
    assert_eq!(wakes, BUSY_POLL_BUDGET - 1);
}

#[test]
fn zero_copy_needs_dram_and_esp32_word_alignment() {
    assert!(zero_copy_eligible(Chip::Other, true, 3, 5));
    assert!(!zero_copy_eligible(Chip::Other, false, 0, 4));
    assert!(zero_copy_eligible(Chip::Esp32, true, 8, 12));
    assert!(!zero_copy_eligible(Chip::Esp32, true, 9, 12));
    assert!(!zero_copy_eligible(Chip::Esp32, true, 8, 6));
    assert!(zero_copy_eligible(Chip::Esp32s2, true, 9, 6));
}

#[test]
fn async_wait_recovers_from_faults() {
    let mut spi = SpiDma::new(Chip::Esp32);
    spi.start_dma_transfer(4, 4).unwrap();
    let steps = spi.after_rx_wait(false).unwrap();
    assert_eq!(
        steps,
        vec![
            DmaStep::ResetDmaFifos,
            DmaStep::ClearDmaInterrupts,
            DmaStep::ConfigureDatalen { rx: 1, tx: 1 },
            DmaStep::Update,
            DmaStep::StopTx,
            DmaStep::StopRx,
        ]
    );
    assert!(!spi.rx_transfer_in_progress && !spi.tx_transfer_in_progress);

    spi.start_dma_transfer(4, 4).unwrap();
    assert!(spi.after_rx_wait(true).is_none());
    assert!(!spi.rx_transfer_in_progress && spi.tx_transfer_in_progress);
    assert!(spi.after_done_wait(false).is_none());
    let stuck = spi.after_done_wait(true).unwrap();
    assert_eq!(stuck.len(), 5);
    assert!(!spi.tx_transfer_in_progress);

    let mut gdma = SpiDma::new(Chip::Other);
    gdma.start_dma_write(4).unwrap();
    assert!(gdma.after_done_wait(true).is_none());
    assert!(gdma.finish_tx(false));
    assert!(!gdma.tx_transfer_in_progress);
    assert!(!gdma.finish_tx(false));
    gdma.start_dma_write(4).unwrap();
    assert!(!gdma.finish_tx(true));
}

#[test]
fn address_bytes_are_big_endian_low_bytes() {
    assert_eq!(address_bytes(0x1234_5678, 3), vec![0x34, 0x56, 0x78]);
    assert_eq!(address_bytes(0x1234_5678, 4), vec![0x12, 0x34, 0x56, 0x78]);
    assert_eq!(address_bytes(0xab, 1), vec![0xab]);
    assert!(address_bytes(0xab, 0).is_empty());
}

#[test]
fn esp32_sends_multi_line_address_as_data() {
    let cmd = Command { width: 8, value: 0x6b, mode: DataMode::Single };
    let addr = Address::new(24, 0x00ab_cdef, DataMode::Quad).unwrap();
    let w = half_duplex_write_plan(Chip::Esp32, DataMode::Quad, cmd, addr, 0, 0).unwrap();
    assert_eq!(w.bytes_to_write, 3);
    assert_eq!(w.address_data, Some(vec![0xab, 0xcd, 0xef]));
    assert_eq!(w.setup.address, Address::none());
    assert_eq!(w.setup.data_mode, DataMode::Quad);
    assert!(w.setup.is_write);
    assert!(!w.setup.no_mosi_miso);

    let odd = Address::new(12, 0x0fff, DataMode::Dual).unwrap();
    let w = half_duplex_write_plan(Chip::Esp32, DataMode::Single, cmd, odd, 0, 0).unwrap();
    assert_eq!(w.bytes_to_write, 2);
    assert_eq!(w.address_data, Some(vec![0x0f, 0xff]));

    assert_eq!(
        half_duplex_write_plan(Chip::Esp32, DataMode::Quad, cmd, addr, 8, 0).unwrap_err(),
        Error::Unsupported
    );
    let w = half_duplex_write_plan(Chip::Other, DataMode::Quad, cmd, addr, 8, 0).unwrap();
    assert_eq!(w.address_data, None);
    assert_eq!(w.setup.address, addr);
    assert!(w.setup.no_mosi_miso);
    let w = half_duplex_write_plan(Chip::Esp32, DataMode::Quad, cmd, addr, 0, 4).unwrap();
    assert_eq!(w.address_data, None);
    assert_eq!(w.bytes_to_write, 4);
    let single = Address::new(24, 1, DataMode::SingleTwoDataLines).unwrap();
    assert!(half_duplex_write_plan(Chip::Esp32, DataMode::Quad, cmd, single, 0, 0)
        .unwrap()
        .address_data
        .is_none());
}

#[test]
fn address_wider_than_32_bits_is_refused() {
    assert!(Address::new(33, 0, DataMode::Single).is_none());
    let a = Address::new(32, 7, DataMode::Octal).unwrap();
    assert_eq!((a.width(), a.value(), a.mode()), (32, 7, DataMode::Octal));
}

#[test]
fn half_duplex_read_setup_marks_empty_data_phase() {
    let cmd = Command { width: 8, value: 3, mode: DataMode::Single };
    let s = half_duplex_read_setup(DataMode::Dual, cmd, Address::none(), 4, 0);
    assert!(!s.is_write && s.no_mosi_miso && !s.dummy_idle);
    assert_eq!(s.dummy, 4);
    assert!(!half_duplex_read_setup(DataMode::Dual, cmd, Address::none(), 4, 1).no_mosi_miso);
}

#[test]
fn chunks_cut_like_slice_chunks() {
    assert!(chunks(0, 0, 4).is_empty());
    assert_eq!(
        chunks(0, 10, 4),
        vec![
            Chunk { offset: 0, len: 4 },
            Chunk { offset: 4, len: 4 },
            Chunk { offset: 8, len: 2 },
        ]
    );
    assert_eq!(chunks(5, 8, 4), vec![Chunk { offset: 5, len: 4 }, Chunk { offset: 9, len: 4 }]);
    let data: Vec<u8> = (0..100).collect();
    let pieces: Vec<Vec<u8>> = chunks(0, data.len(), 7)
        .iter()
        .map(|c| data[c.offset..c.offset + c.len].to_vec())
        .collect();
    let expect: Vec<Vec<u8>> = data.chunks(7).map(|c| c.to_vec()).collect();
    assert_eq!(pieces, expect);
}

#[test]
fn transfer_plan_splits_common_part_and_tail() {
    let bus = SpiDmaBus::new(SpiDma::new(Chip::Other), 4, 8);
    let p = bus.transfer_plan(10, 3);
    assert_eq!(p.common, vec![Chunk { offset: 0, len: 3 }]);
    match p.tail {
        Tail::Read(cs) => assert_eq!(
            cs,
            vec![Chunk { offset: 3, len: 4 }, Chunk { offset: 7, len: 3 }]
        ),
        _ => panic!("expected a read tail"),
    }
    let p = bus.transfer_plan(2, 12);
    match p.tail {
        Tail::Write(cs) => assert_eq!(cs, vec![Chunk { offset: 2, len: 8 }, Chunk { offset: 10, len: 2 }]),
        _ => panic!("expected a write tail"),
    }
    let p = bus.transfer_plan(9, 9);
    assert_eq!(p.common.len(), 3);
    assert!(matches!(p.tail, Tail::Nothing));
    assert_eq!(bus.read_chunks(9).len(), 3);
    assert_eq!(bus.write_chunks(9).len(), 2);
    assert_eq!(bus.transfer_in_place_chunks(9).len(), 3);
    assert_eq!(bus.transfer_in_place_async_chunks(9), bus.transfer_in_place_chunks(9));
    // A receive buffer smaller than the transmit buffer bounds the in-place pieces.
    assert!(bus.transfer_in_place_async_chunks(9).iter().all(|c| c.len <= 4));
}

#[test]
fn half_duplex_buffer_must_fit() {
    assert_eq!(check_fits(4, 4), Ok(()));
    assert_eq!(check_fits(5, 4), Err(Error::DmaError(DmaError::Overflow)));
}

#[test]
fn copy_chunk_moves_one_piece() {
    let mut dst = [0u8; 6];
    copy_chunk(&mut dst, 2, &[9, 8, 7, 6], 1, 3);
    assert_eq!(dst, [0, 0, 8, 7, 6, 0]);
}

#[test]
fn zero_copy_walks_then_falls_back() {
    assert_eq!(zero_copy_next(0, 10, Some(10)), ZeroCopyStep::Finished);
    assert_eq!(zero_copy_next(0, 10, Some(4)), ZeroCopyStep::Continue(4));
    assert_eq!(zero_copy_next(4, 10, None), ZeroCopyStep::CopyFrom(4));
    assert_eq!(ZC_DESC_COUNT, 11);
}

#[test]
fn dma_transfer_owns_instance_and_buffer() {
    let spi = SpiDma::new(Chip::Other);
    let (t, steps) = spi.write(Ok(()), 3, [1u8, 2, 3]).unwrap();
    assert_eq!(*steps.last().unwrap(), DmaStep::StartOperation);
    assert!(!t.is_done(status(true, false, false)));
    assert!(t.is_done(status(false, false, false)));
    assert_eq!(*t.buffer(), [1, 2, 3]);
    let t = t.wait(status(true, false, false)).err().unwrap();
    let (spi, buf) = t.wait(status(false, false, false)).ok().unwrap();
    assert_eq!(buf, [1, 2, 3]);
    assert!(!spi.tx_transfer_in_progress);

    let (_, spi, buf) = spi.read(Err(Error::Unknown), 3, [0u8; 3]).err().unwrap();
    assert_eq!(buf, [0; 3]);
    let (e, spi, _) = spi.read(Ok(()), MAX_DMA_SIZE + 1, [0u8; 3]).err().unwrap();
    assert_eq!(e, Error::MaxDmaTransferSizeExceeded);

    let (mut t, _) = spi.transfer(Ok(()), 2, [0u8; 2], 2, [5u8; 2]).unwrap();
    assert!(t.cancel(status(false, true, false)).is_empty());
    assert_eq!(t.cancel(status(true, false, false)).len(), 4);
    let (spi, _) = t.wait(status(false, false, false)).ok().unwrap();
    let (t, _) = spi.half_duplex_read(Ok(()), 1, ()).unwrap();
    // The receive side is still running: nothing comes back yet.
    let t = t.wait(status(false, false, false)).err().unwrap();
    let (spi, _) = t.wait(status(false, true, false)).ok().unwrap();
    let (t, steps) = spi.half_duplex_write(Ok(()), 1, ()).unwrap();
    assert!(steps.contains(&DmaStep::StartTx));
    let (spi, ()) = t.abandon();
    assert!(spi.tx_transfer_in_progress);
    let mut spi = spi;
    spi.start_dma_read(4).unwrap();
    let bus = spi.with_buffers(16, 32);
    let bus = bus.split(status(false, false, false)).err().unwrap();
    let (spi, rx, tx) = bus.split(status(false, true, false)).ok().unwrap();
    assert_eq!((rx, tx), (16, 32));
    assert!(!spi.rx_transfer_in_progress && !spi.tx_transfer_in_progress);
    let _ = SpiDmaTransfer::new(spi, ());
}

#[test]
fn empty_async_write_does_nothing() {
    assert_eq!(write_async_path(Chip::Esp32, true, 0, 0), WritePath::Nothing);
    assert_eq!(write_async_path(Chip::Esp32, true, 4, 8), WritePath::InPlace);
    assert_eq!(write_async_path(Chip::Esp32, true, 4, 7), WritePath::Copy);
    assert_eq!(write_async_path(Chip::Other, false, 4, 8), WritePath::Copy);
}

#[test]
fn done_needs_both_halves() {
    let mut spi = SpiDma::new(Chip::Other);
    spi.start_dma_transfer(4, 4).unwrap();
    assert!(!spi.is_done(status_tx(false, true, false)));
    assert!(!spi.is_done(status_tx(false, false, true)));
    assert!(spi.is_done(status_tx(false, true, true)));
    let mut w = SpiDma::new(Chip::Other);
    w.start_dma_write(4).unwrap();
    assert!(!w.is_done(status_tx(false, false, false)));
    assert!(!w.wait_for_idle(status_tx(false, false, false)));
    assert!(w.tx_transfer_in_progress);
    assert!(w.wait_for_idle(status_tx(false, false, true)));
    let (t, _) = SpiDma::new(Chip::Other).write(Ok(()), 2, ()).unwrap();
    assert!(!t.is_done(status_tx(false, true, false)));
    let t = t.wait(status_tx(false, true, false)).err().unwrap();
    assert!(t.wait(status_tx(false, false, true)).is_ok());
}

#[test]
fn async_wait_steps() {
    // Receive in flight: wait for it first.
    let mut spi = SpiDma::new(Chip::Other);
    spi.start_dma_transfer(4, 4).unwrap();
    assert!(matches!(spi.wait_step(WaitEvent::Start(status_tx(true, false, false))), WaitAction::AwaitRx));
    // The receive ended but the transmit has not: wait for TransferDone.
    let a = spi.wait_step(WaitEvent::RxWaited { rx_ok: true, st: status_tx(false, true, false) });
    assert!(matches!(a, WaitAction::AwaitDone));
    assert!(!spi.rx_transfer_in_progress && spi.tx_transfer_in_progress);
    // TransferDone came with the transmit still running: it is stopped.
    match spi.wait_step(WaitEvent::DoneWaited(status_tx(false, true, false))) {
        WaitAction::Finish(steps) => assert_eq!(steps, vec![DmaStep::StopTx]),
        _ => panic!("expected the wait to finish"),
    }
    assert!(!spi.rx_transfer_in_progress && !spi.tx_transfer_in_progress);

    // A receive descriptor fault recovers the peripheral.
    let mut spi = SpiDma::new(Chip::Esp32);
    spi.start_dma_read(4).unwrap();
    match spi.wait_step(WaitEvent::RxWaited { rx_ok: false, st: status_tx(true, false, true) }) {
        WaitAction::Finish(steps) => assert_eq!(steps.len(), 5),
        _ => panic!("expected recovery"),
    }
    assert!(!spi.rx_transfer_in_progress);

    // A PDMA peripheral still busy after TransferDone is stuck and recovered.
    let mut spi = SpiDma::new(Chip::Esp32s2);
    spi.start_dma_write(4).unwrap();
    match spi.wait_step(WaitEvent::DoneWaited(status_tx(true, false, false))) {
        WaitAction::Finish(steps) => assert_eq!(
            steps,
            vec![
                DmaStep::ResetDmaFifos,
                DmaStep::ClearDmaInterrupts,
                DmaStep::ConfigureDatalen { rx: 1, tx: 1 },
                DmaStep::Update,
                DmaStep::StopTx,
            ]
        ),
        _ => panic!("expected recovery"),
    }

    // Already done: finish at once with nothing to do.
    let mut spi = SpiDma::new(Chip::Other);
    match spi.wait_step(WaitEvent::Start(status_tx(false, false, false))) {
        WaitAction::Finish(steps) => assert!(steps.is_empty()),
        _ => panic!("expected the wait to finish"),
    }
}

#[test]
fn received_pieces_fill_the_buffer_in_order() {
    let cs = chunks(0, 7, 3);
    let received = vec![vec![1u8, 2, 3, 99], vec![4, 5, 6], vec![7, 98, 97]];
    let mut dst = [0u8; 7];
    fill_from_chunks(&mut dst, &cs, 3, &received);
    assert_eq!(dst, [1, 2, 3, 4, 5, 6, 7]);
    let mut part = [0u8; 7];
    fill_from_chunks(&mut part, &cs, 3, &received[..1].to_vec());
    assert_eq!(part, [1, 2, 3, 0, 0, 0, 0]);
}
