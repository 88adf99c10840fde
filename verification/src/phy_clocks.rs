use vstd::prelude::*;
use crate::modem_clock::{
    can_control, control_ops, device_ops, disable, enable, lemma_counts_track_history,
    lemma_module_contents, lemma_net_append, lemma_net_two_acquires, lemma_no_release_net, net,
    next_refs, no_release, phy, run, run_ok,
    phy_calibration, phy_calibration_needs, phy_needs, wifi_needs, ClockOp, ClockState, Device,
    Module, DEVICE_COUNT,
};

verus! {

/// Whether the PHY can be switched on (`en`) or off without a count leaving its range: the PHY
/// module first, then the calibration module when enabling; the reverse when disabling.
pub open spec fn can_enable_phy(refs: Seq<u8>, en: bool, phy: Module, cal: Module) -> bool {
    if en {
        can_control(refs, phy, true) && can_control(next_refs(refs, phy, true), cal, true)
    } else {
        can_control(refs, cal, false) && can_control(next_refs(refs, cal, false), phy, false)
    }
}

/// The counts after switching the PHY on (`en`) or off.
pub open spec fn phy_refs(refs: Seq<u8>, en: bool, phy: Module, cal: Module) -> Seq<u8> {
    if en {
        next_refs(next_refs(refs, phy, true), cal, true)
    } else {
        next_refs(next_refs(refs, cal, false), phy, false)
    }
}

/// The writes of switching the PHY on (`en`) or off.
pub open spec fn phy_ops(refs: Seq<u8>, en: bool, wi: bool, phy: Module, cal: Module) -> Seq<
    ClockOp,
> {
    if en {
        control_ops(refs, phy, true, wi, DEVICE_COUNT as nat) + control_ops(
            next_refs(refs, phy, true),
            cal,
            true,
            wi,
            DEVICE_COUNT as nat,
        )
    } else {
        control_ops(refs, cal, false, wi, DEVICE_COUNT as nat) + control_ops(
            next_refs(refs, cal, false),
            phy,
            false,
            wi,
            DEVICE_COUNT as nat,
        )
    }
}

/// Switch the PHY's clocks: the PHY module and the calibration module, both through the shared
/// reference counts. The calibration module is held for the PHY's whole lifetime.
pub fn enable_phy(state: &mut ClockState, en: bool) -> (ops: Vec<ClockOp>)
    requires
        old(state).wf(),
        can_enable_phy(old(state).refs(), en, Module::phy_spec(), Module::phy_calibration_spec()),
    ensures
        final(state).wf(),
        final(state).wifi_is_initialized() == old(state).wifi_is_initialized(),
        final(state).refs() == phy_refs(
            old(state).refs(),
            en,
            Module::phy_spec(),
            Module::phy_calibration_spec(),
        ),
        ops@ == phy_ops(
            old(state).refs(),
            en,
            old(state).wifi_is_initialized(),
            Module::phy_spec(),
            Module::phy_calibration_spec(),
        ),
{
    let p = phy();
    let c = phy_calibration();
    if en {
        let mut a = enable(state, p);
        let mut b = enable(state, c);
        a.append(&mut b);
        a
    } else {
        let mut a = disable(state, c);
        let mut b = disable(state, p);
        a.append(&mut b);
        a
    }
}

/// Switching the PHY on and then off again gives every count back its old value.
pub proof fn lemma_phy_on_off_restores(refs: Seq<u8>)
    requires
        refs.len() == DEVICE_COUNT,
        can_enable_phy(refs, true, Module::phy_spec(), Module::phy_calibration_spec()),
    ensures
        can_enable_phy(
            phy_refs(refs, true, Module::phy_spec(), Module::phy_calibration_spec()),
            false,
            Module::phy_spec(),
            Module::phy_calibration_spec(),
        ),
        phy_refs(
            phy_refs(refs, true, Module::phy_spec(), Module::phy_calibration_spec()),
            false,
            Module::phy_spec(),
            Module::phy_calibration_spec(),
        ) == refs,
{
    let p = Module::phy_spec();
    let c = Module::phy_calibration_spec();
    let r1 = next_refs(refs, p, true);
    crate::modem_clock::lemma_enable_then_disable_restores(r1, c);
    crate::modem_clock::lemma_enable_then_disable_restores(refs, p);
}

} // verus!

verus! {

/// Whether switching the PHY on (`en`) or off keeps every count in range: see
/// [`can_enable_phy`].
pub fn phy_switch_allowed(state: &ClockState, en: bool) -> (r: bool)
    requires
        state.wf(),
    ensures
        r == can_enable_phy(state.refs(), en, Module::phy_spec(), Module::phy_calibration_spec()),
{
    let p = phy();
    let c = phy_calibration();
    let mut probe = state.duplicate();
    if en {
        if !probe.can_switch(p, true) {
            return false;
        }
        let _ = probe.control(p, true);
        probe.can_switch(c, true)
    } else {
        if !probe.can_switch(c, false) {
            return false;
        }
        let _ = probe.control(c, false);
        probe.can_switch(p, false)
    }
}

} // verus!

verus! {

/// The devices that the Wi-Fi driver shares with the PHY: the PLL source gate, the baseband,
/// its APB bus and its 44M and 80X1 clocks.
pub open spec fn shared_with_phy(d: Device) -> bool {
    wifi_needs(d) && (phy_needs(d) || phy_calibration_needs(d))
}

/// With the PHY on, switching the Wi-Fi clocks on and off again gates none of the devices the
/// PHY holds too: they are written by neither call's release and stay held.
pub proof fn lemma_wifi_release_keeps_phy_clocks(r0: Seq<u8>, wi: bool, i: int)
    requires
        r0.len() == DEVICE_COUNT,
        0 <= i < DEVICE_COUNT,
        shared_with_phy(Device::at(i)),
        can_enable_phy(r0, true, Module::phy_spec(), Module::phy_calibration_spec()),
        can_control(
            phy_refs(r0, true, Module::phy_spec(), Module::phy_calibration_spec()),
            Module::wifi_spec(),
            true,
        ),
    ensures
        ({
            let r2 = next_refs(
                phy_refs(r0, true, Module::phy_spec(), Module::phy_calibration_spec()),
                Module::wifi_spec(),
                true,
            );
            &&& r2[i] >= 2
            &&& device_ops(r2, Module::wifi_spec(), false, wi, i) == Seq::<ClockOp>::empty()
            &&& next_refs(r2, Module::wifi_spec(), false)[i] >= 1
        }),
{
    lemma_module_contents();
    let p = Module::phy_spec();
    let c = Module::phy_calibration_spec();
    let w = Module::wifi_spec();
    let d = Device::at(i);
    assert(w.contains(d));
    assert(p.contains(d) || c.contains(d));
    assert(d.counted_spec());
    let r1a = next_refs(r0, p, true);
    if p.contains(d) {
        assert(r0[i] < 255);
    }
    if c.contains(d) {
        assert(r1a[i] < 255);
    }
    let r1 = next_refs(r1a, c, true);
    assert(r1[i] >= 1);
    assert(r1[i] < 255);
    let r2 = next_refs(r1, w, true);
    assert(r2[i] == r1[i] + 1);
}

/// From no holders at all, with Wi-Fi not initialized: the PHY on, then the Wi-Fi clocks on and
/// off again, and that release switches off exactly the Wi-Fi's own devices, coexistence and the
/// MAC.
pub proof fn lemma_wifi_release_after_phy_from_zero()
    ensures
        ({
            let r0 = Seq::new(DEVICE_COUNT as nat, |i: int| 0u8);
            let r2 = next_refs(
                phy_refs(r0, true, Module::phy_spec(), Module::phy_calibration_spec()),
                Module::wifi_spec(),
                true,
            );
            control_ops(r2, Module::wifi_spec(), false, false, DEVICE_COUNT as nat) == seq![
                ClockOp::Coexist(false),
                ClockOp::WifiMac(false),
            ]
        }),
{
    lemma_module_contents();
    let r0 = Seq::new(DEVICE_COUNT as nat, |i: int| 0u8);
    let p = Module::phy_spec();
    let c = Module::phy_calibration_spec();
    let w = Module::wifi_spec();
    let r1a = next_refs(r0, p, true);
    let r1 = next_refs(r1a, c, true);
    let r2 = next_refs(r1, w, true);
    assert(p.contains(Device::at(0)) && p.contains(Device::at(1)) && p.contains(Device::at(2))
        && p.contains(Device::at(4)));
    assert(c.contains(Device::at(2)) && c.contains(Device::at(5)) && c.contains(Device::at(6))
        && c.contains(Device::at(8)) && c.contains(Device::at(9)) && c.contains(Device::at(10))
        && c.contains(Device::at(11)));
    assert(w.contains(Device::at(2)) && w.contains(Device::at(3)) && w.contains(Device::at(5))
        && w.contains(Device::at(6)) && w.contains(Device::at(7)) && w.contains(Device::at(8))
        && w.contains(Device::at(9)));
    assert(!w.contains(Device::at(0)) && !w.contains(Device::at(1)) && !w.contains(Device::at(4))
        && !w.contains(Device::at(10)) && !w.contains(Device::at(11)));
    assert(r2[2] == 3 && r2[3] == 1 && r2[5] == 2 && r2[6] == 2 && r2[7] == 1 && r2[8] == 2
        && r2[9] == 2);
    let e = Seq::<ClockOp>::empty();
    assert(device_ops(r2, w, false, false, 0) == e);
    assert(device_ops(r2, w, false, false, 1) == e);
    assert(device_ops(r2, w, false, false, 2) == e);
    assert(device_ops(r2, w, false, false, 3) == seq![ClockOp::Coexist(false)]);
    assert(device_ops(r2, w, false, false, 4) == e);
    assert(device_ops(r2, w, false, false, 5) == e);
    assert(device_ops(r2, w, false, false, 6) == e);
    assert(device_ops(r2, w, false, false, 7) == seq![ClockOp::WifiMac(false)]);
    assert(device_ops(r2, w, false, false, 8) == e);
    assert(device_ops(r2, w, false, false, 9) == e);
    assert(device_ops(r2, w, false, false, 10) == e);
    assert(device_ops(r2, w, false, false, 11) == e);
    assert(control_ops(r2, w, false, false, 0) == e);
    assert(control_ops(r2, w, false, false, 1) == e);
    assert(control_ops(r2, w, false, false, 2) == e);
    assert(control_ops(r2, w, false, false, 3) == e);
    assert(control_ops(r2, w, false, false, 4) == seq![ClockOp::Coexist(false)]);
    assert(control_ops(r2, w, false, false, 5) == seq![ClockOp::Coexist(false)]);
    assert(control_ops(r2, w, false, false, 6) == seq![ClockOp::Coexist(false)]);
    assert(control_ops(r2, w, false, false, 7) == seq![ClockOp::Coexist(false)]);
    assert(control_ops(r2, w, false, false, 8) == seq![
        ClockOp::Coexist(false),
        ClockOp::WifiMac(false),
    ]);
    assert(control_ops(r2, w, false, false, 9) == seq![
        ClockOp::Coexist(false),
        ClockOp::WifiMac(false),
    ]);
    assert(control_ops(r2, w, false, false, 10) == seq![
        ClockOp::Coexist(false),
        ClockOp::WifiMac(false),
    ]);
    assert(control_ops(r2, w, false, false, 11) == seq![
        ClockOp::Coexist(false),
        ClockOp::WifiMac(false),
    ]);
    assert(control_ops(r2, w, false, false, 12) == seq![
        ClockOp::Coexist(false),
        ClockOp::WifiMac(false),
    ]);
}

/// With the PHY switched on (its module, then its calibration module) and the Wi-Fi clocks
/// switched on after it, and any calls before, between and after that release none of a device
/// the two share, the Wi-Fi release writes nothing for that device and leaves it held.
pub proof fn lemma_wifi_release_keeps_phy_clocks_in_any_history(
    r0: Seq<u8>,
    mid1: Seq<(Module, bool)>,
    mid2: Seq<(Module, bool)>,
    i: int,
    wi: bool,
)
    requires
        r0.len() == DEVICE_COUNT,
        0 <= i < DEVICE_COUNT,
        shared_with_phy(Device::at(i)),
        no_release(mid1, i),
        no_release(mid2, i),
        run_ok(
            r0,
            seq![(Module::phy_spec(), true), (Module::phy_calibration_spec(), true)] + mid1 + seq![
                (Module::wifi_spec(), true),
            ] + mid2,
        ),
    ensures
        ({
            let h = seq![(Module::phy_spec(), true), (Module::phy_calibration_spec(), true)] + mid1
                + seq![(Module::wifi_spec(), true)] + mid2;
            &&& run(r0, h)[i] >= 2
            &&& device_ops(run(r0, h), Module::wifi_spec(), false, wi, i) == Seq::<
                ClockOp,
            >::empty()
            &&& next_refs(run(r0, h), Module::wifi_spec(), false)[i] >= 1
        }),
{
    lemma_module_contents();
    let p = Module::phy_spec();
    let c = Module::phy_calibration_spec();
    let w = Module::wifi_spec();
    let pc = seq![(p, true), (c, true)];
    let ws = seq![(w, true)];
    let h = pc + mid1 + ws + mid2;
    assert(c.contains(Device::at(i)) && w.contains(Device::at(i)));
    lemma_net_two_acquires(p, c, i);
    lemma_net_two_acquires(w, w, i);
    lemma_no_release_net(mid1, i);
    lemma_no_release_net(mid2, i);
    lemma_net_append(pc, mid1, i);
    lemma_net_append(pc + mid1, ws, i);
    lemma_net_append(pc + mid1 + ws, mid2, i);
    assert(net(h, i) >= 2);
    lemma_counts_track_history(r0, h);
}

} // verus!
