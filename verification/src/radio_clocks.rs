use vstd::prelude::*;
use crate::modem_clock::{
    can_control, control_ops, disable, enable, next_refs, wifi, ClockOp, ClockState, Module,
    DEVICE_COUNT,
};

verus! {

/// Switch the Wi-Fi clocks through the shared reference counts: the PHY holds the baseband, its
/// APB bus and the PLL source gate as well, so none of them is gated while the PHY needs it.
pub fn enable_wifi(state: &mut ClockState, en: bool) -> (ops: Vec<ClockOp>)
    requires
        old(state).wf(),
        can_control(old(state).refs(), Module::wifi_spec(), en),
    ensures
        final(state).wf(),
        final(state).wifi_is_initialized() == old(state).wifi_is_initialized(),
        final(state).refs() == next_refs(old(state).refs(), Module::wifi_spec(), en),
        ops@ == control_ops(
            old(state).refs(),
            Module::wifi_spec(),
            en,
            old(state).wifi_is_initialized(),
            DEVICE_COUNT as nat,
        ),
{
    let m = wifi();
    if en {
        enable(state, m)
    } else {
        disable(state, m)
    }
}

/// Bluetooth clocks: this chip has no Bluetooth support yet, so there is nothing to switch.
pub fn enable_bt(_en: bool) {
}

/// IEEE 802.15.4 clocks: not supported on this chip yet, so there is nothing to switch.
pub fn enable_ieee802154(_en: bool) {
}

/// The Wi-Fi MAC needs no reset on this chip.
pub fn reset_wifi_mac() {
}

/// The radio clocks are set up at boot; nothing to do here.
pub fn init_clocks() {
}

/// Nothing to undo, as [`init_clocks`] does nothing.
pub fn deinit_clocks() {
}

/// No BLE RTC clock set-up on this chip yet.
pub fn ble_rtc_clk_init() {
}

/// No RPA reset on this chip yet.
pub fn reset_rpa() {
}

} // verus!
