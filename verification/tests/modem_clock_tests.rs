use esp_drivers::modem_clock::{
    disable, enable, phy, phy_calibration, set_wifi_initialized, wifi, wifi_bb_clock_bits,
    ClockOp, ClockState, Device, Module, MODEM_CONF_PLL_OFF, MODEM_CONF_PLL_ON,
};
use esp_drivers::phy_clocks::{enable_phy, phy_switch_allowed};
use esp_drivers::radio_clocks::enable_wifi;

const ALL: [Device; 12] = [
    Device::ModemAdcCommonFe,
    Device::ModemPrivateFe,
    Device::SocPllSourceCg,
    Device::Coexist,
    Device::I2cMaster,
    Device::WifiApb,
    Device::WifiBb44m,
    Device::WifiMac,
    Device::WifiBb,
    Device::WifiBb80x1,
    Device::BtApb,
    Device::BtI154CommonBb,
];

fn counts(s: &ClockState) -> Vec<u8> {
    ALL.iter().map(|d| s.count(*d)).collect()
}

#[test]
fn device_bits_follow_configuration_order() {
    for (i, d) in ALL.iter().enumerate() {
        assert_eq!(d.index(), i);
        assert_eq!(d.bit(), 1u16 << i);
    }
    assert!(!Device::I2cMaster.counted());
    assert!(Device::WifiMac.counted());
}

#[test]
fn module_of_sets_device_bits() {
    let m = Module::of(&[Device::WifiMac, Device::Coexist]);
    let n = Module::of(&[Device::Coexist, Device::WifiMac, Device::WifiMac]);
    let mut s1 = ClockState::new();
    let mut s2 = ClockState::new();
    let a = enable(&mut s1, m);
    let b = enable(&mut s2, n);
    assert_eq!(a, b);
    assert_eq!(a, vec![ClockOp::Coexist(true), ClockOp::WifiMac(true)]);
    let empty = Module::of(&[]);
    assert!(enable(&mut s1, empty).is_empty());
}

#[test]
fn wifi_enable_ungates_in_configuration_order() {
    let mut s = ClockState::new();
    let ops = enable_wifi(&mut s, true);
    assert_eq!(
        ops,
        vec![
            ClockOp::PllSource(MODEM_CONF_PLL_ON),
            ClockOp::Coexist(true),
            ClockOp::WifiApb(true),
            ClockOp::WifiBb44m(true),
            ClockOp::WifiMac(true),
            ClockOp::WifiBbReset(true),
            ClockOp::WifiBbReset(false),
            ClockOp::WifiBbClocks(true),
            ClockOp::WifiBb80x1(true),
        ]
    );
    assert_eq!(counts(&s), vec![0, 0, 1, 1, 0, 1, 1, 1, 1, 1, 0, 0]);
}

#[test]
fn second_holder_writes_nothing_and_last_release_gates() {
    let mut s = ClockState::new();
    enable(&mut s, wifi());
    assert!(enable(&mut s, wifi()).is_empty());
    assert_eq!(s.count(Device::WifiMac), 2);
    assert!(disable(&mut s, wifi()).is_empty());
    let ops = disable(&mut s, wifi());
    assert_eq!(
        ops,
        vec![
            ClockOp::PllSource(MODEM_CONF_PLL_OFF),
            ClockOp::Coexist(false),
            ClockOp::WifiApb(false),
            ClockOp::WifiBb44m(false),
            ClockOp::WifiMac(false),
            ClockOp::WifiBbClocks(false),
            ClockOp::WifiBb80x1(false),
        ]
    );
    assert_eq!(counts(&s), vec![0; 12]);
}

#[test]
fn shared_device_stays_ungated_while_phy_holds_it() {
    let mut s = ClockState::new();
    let phy_ops = enable_phy(&mut s, true);
    assert_eq!(
        phy_ops,
        vec![
            ClockOp::FeCommonOn,
            ClockOp::FePrivateOn,
            ClockOp::PllSource(MODEM_CONF_PLL_ON),
            ClockOp::I2cMaster(true),
            ClockOp::WifiApb(true),
            ClockOp::WifiBb44m(true),
            ClockOp::WifiBbReset(true),
            ClockOp::WifiBbReset(false),
            ClockOp::WifiBbClocks(true),
            ClockOp::WifiBb80x1(true),
            ClockOp::BtApb(true),
            ClockOp::ModemSecApb(true),
            ClockOp::BtBb(true),
        ]
    );
    enable_wifi(&mut s, true);
    let off = enable_wifi(&mut s, false);
    // Only the devices the PHY does not hold are gated.
    assert_eq!(off, vec![ClockOp::Coexist(false), ClockOp::WifiMac(false)]);
    assert_eq!(s.count(Device::SocPllSourceCg), 2);
    assert_eq!(s.count(Device::WifiBb), 1);
}

#[test]
fn wifi_initialized_keeps_wifi_clocks_on() {
    let mut s = ClockState::new();
    set_wifi_initialized(&mut s, true);
    assert!(s.wifi_initialized());
    enable_wifi(&mut s, true);
    let off = enable_wifi(&mut s, false);
    assert_eq!(
        off,
        vec![ClockOp::PllSource(MODEM_CONF_PLL_OFF), ClockOp::Coexist(false)]
    );
    set_wifi_initialized(&mut s, false);
    enable_wifi(&mut s, true);
    let off = enable_wifi(&mut s, false);
    assert!(off.contains(&ClockOp::WifiMac(false)));
}

#[test]
fn i2c_master_follows_every_call() {
    let mut s = ClockState::new();
    enable(&mut s, phy());
    let again = enable(&mut s, phy());
    assert_eq!(again, vec![ClockOp::I2cMaster(true)]);
    assert_eq!(s.count(Device::I2cMaster), 0);
    let first_release = disable(&mut s, phy());
    assert_eq!(first_release, vec![ClockOp::I2cMaster(false)]);
}

#[test]
fn front_end_devices_are_never_gated() {
    let mut s = ClockState::new();
    enable(&mut s, phy());
    let off = disable(&mut s, phy());
    assert_eq!(
        off,
        vec![ClockOp::PllSource(MODEM_CONF_PLL_OFF), ClockOp::I2cMaster(false)]
    );
}

#[test]
fn phy_on_off_restores_counts() {
    let mut s = ClockState::new();
    enable_wifi(&mut s, true);
    let before = counts(&s);
    enable_phy(&mut s, true);
    enable_phy(&mut s, false);
    assert_eq!(counts(&s), before);
}

#[test]
fn enable_order_does_not_change_counts() {
    let mut a = ClockState::new();
    let mut b = ClockState::new();
    enable(&mut a, wifi());
    enable(&mut a, phy_calibration());
    enable(&mut b, phy_calibration());
    enable(&mut b, wifi());
    assert_eq!(counts(&a), counts(&b));
}

#[test]
fn switch_checks_count_ranges() {
    let mut s = ClockState::new();
    assert!(!s.can_switch(wifi(), false));
    assert!(s.can_switch(wifi(), true));
    assert!(!phy_switch_allowed(&s, false));
    assert!(phy_switch_allowed(&s, true));
    for _ in 0..255 {
        enable(&mut s, wifi());
    }
    assert_eq!(s.count(Device::WifiMac), 255);
    assert!(!s.can_switch(wifi(), true));
    assert!(!s.can_switch(phy(), true));
    assert!(s.can_switch(Module::of(&[Device::BtApb, Device::I2cMaster]), true));
    assert!(!phy_switch_allowed(&s, true));
    let d = s.duplicate();
    assert_eq!(counts(&d), counts(&s));
}

#[test]
fn wifi_bb_mask_changes_only_its_bits() {
    assert_eq!(wifi_bb_clock_bits(0x8000_0000, true), 0x8000_017b);
    assert_eq!(wifi_bb_clock_bits(0xffff_ffff, false), 0xffff_fe84);
    assert_eq!(wifi_bb_clock_bits(0x4, false), 0x4);
}

#[test]
fn device_held_by_another_user_stays_on() {
    let a = Module::of(&[Device::WifiMac, Device::Coexist]);
    let b = Module::of(&[Device::WifiMac]);
    let c = Module::of(&[Device::Coexist]);
    let mut s = ClockState::new();
    enable(&mut s, a);
    enable(&mut s, b);
    enable(&mut s, c);
    disable(&mut s, c);
    let off = disable(&mut s, a);
    assert_eq!(off, vec![ClockOp::Coexist(false)]);
    assert_eq!(s.count(Device::WifiMac), 1);
}

#[test]
fn wifi_release_keeps_phy_clocks_with_calls_in_between() {
    let mut s = ClockState::new();
    enable_phy(&mut s, true);
    enable(&mut s, Module::of(&[Device::BtApb]));
    enable_wifi(&mut s, true);
    enable(&mut s, Module::of(&[Device::WifiApb, Device::Coexist]));
    disable(&mut s, Module::of(&[Device::BtApb]));
    let off = enable_wifi(&mut s, false);
    assert_eq!(off, vec![ClockOp::WifiMac(false)]);
    for d in [
        Device::SocPllSourceCg,
        Device::WifiApb,
        Device::WifiBb,
        Device::WifiBb44m,
        Device::WifiBb80x1,
    ] {
        assert!(s.count(d) >= 1);
    }
}
