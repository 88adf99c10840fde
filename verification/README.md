# esp-drivers

Verified logic of an ESP32-family radio clock and SPI DMA driver, written in Verus.

- `src/modem_clock.rs`: the modem clock devices, the modules (sets of devices) that the PHY and
  the Wi-Fi driver hold, the reference counts that decide when a device is ungated or gated, and
  the register writes of each device. Laws: acquire/release restore the counts, counts commute,
  a device is written only by its first holder and last releaser, a device another user holds
  stays on across any history of calls that does not release it, and the Wi-Fi clocks stay on
  while Wi-Fi is initialized.
- `src/phy_clocks.rs`, `src/radio_clocks.rs`: the PHY and Wi-Fi clock hooks on top of it.
- `src/cpu_int.rs`: the walk over the set bits of an interrupt mask.
- `src/spi_dma.rs`: the SPI DMA instance (which directions are in flight), the steps that start,
  cancel and reset a transfer, the bounded waits, and the half-duplex address work-around.
- `src/spi_bus.rs`: the bus on top of it: how buffers are cut into DMA-sized pieces, transfers
  owning their buffers, and the zero-copy rule of asynchronous writes.
- `app/`: the code around the library: locks, the register access of the platform
  (as traits), the loops that carry out the library's steps, and the embedded-hal traits.
- `tests/`: tests on concrete values.
