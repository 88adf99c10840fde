//! Verified logic of an ESP32-family radio and SPI DMA driver: the shared, reference-counted
//! modem clock tree; the PHY and Wi-Fi clock hooks; the Wi-Fi interrupt line mask walk; and the
//! SPI master's DMA transfer bookkeeping, programming sequences, recovery and chunking.
//!
//! Register access stays with the caller: functions here return the register writes or DMA
//! steps to carry out, in order, and take what the hardware reported as plain values.

pub mod cpu_int;
pub mod modem_clock;
pub mod phy_clocks;
pub mod radio_clocks;
pub mod spi_bus;
pub mod spi_dma;
