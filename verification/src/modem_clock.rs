use vstd::prelude::*;

verus! {

/// One clock device of the modem, in configuration order.
#[derive(Clone, Copy, PartialEq, Eq, Structural, Debug)]
pub enum Device {
    ModemAdcCommonFe,
    ModemPrivateFe,
    SocPllSourceCg,
    Coexist,
    I2cMaster,
    WifiApb,
    WifiBb44m,
    WifiMac,
    WifiBb,
    WifiBb80x1,
    BtApb,
    BtI154CommonBb,
}

/// Number of clock devices.
pub const DEVICE_COUNT: usize = 12;

impl Device {
    /// Position of the device in configuration order.
    pub open spec fn index_spec(self) -> nat {
        match self {
            Device::ModemAdcCommonFe => 0,
            Device::ModemPrivateFe => 1,
            Device::SocPllSourceCg => 2,
            Device::Coexist => 3,
            Device::I2cMaster => 4,
            Device::WifiApb => 5,
            Device::WifiBb44m => 6,
            Device::WifiMac => 7,
            Device::WifiBb => 8,
            Device::WifiBb80x1 => 9,
            Device::BtApb => 10,
            Device::BtI154CommonBb => 11,
        }
    }

    /// Position of the device in configuration order.
    pub fn index(self) -> (r: usize)
        ensures
            r == self.index_spec(),
            r < DEVICE_COUNT,
    {
        match self {
            Device::ModemAdcCommonFe => 0,
            Device::ModemPrivateFe => 1,
            Device::SocPllSourceCg => 2,
            Device::Coexist => 3,
            Device::I2cMaster => 4,
            Device::WifiApb => 5,
            Device::WifiBb44m => 6,
            Device::WifiMac => 7,
            Device::WifiBb => 8,
            Device::WifiBb80x1 => 9,
            Device::BtApb => 10,
            Device::BtI154CommonBb => 11,
        }
    }

    /// The device's bit in a [`Module`] mask.
    pub open spec fn bit_spec(self) -> u16 {
        (1u16 << (self.index_spec() as u16)) as u16
    }

    /// The device's bit in a [`Module`] mask.
    pub fn bit(self) -> (r: u16)
        ensures
            r == self.bit_spec(),
    {
        let i: u16 = self.index() as u16;
        1u16 << i
    }
}

} // verus!

verus! {

impl Device {
    /// The device at `i` in configuration order.
    pub open spec fn at(i: int) -> Device {
        if i == 0 {
            Device::ModemAdcCommonFe
        } else if i == 1 {
            Device::ModemPrivateFe
        } else if i == 2 {
            Device::SocPllSourceCg
        } else if i == 3 {
            Device::Coexist
        } else if i == 4 {
            Device::I2cMaster
        } else if i == 5 {
            Device::WifiApb
        } else if i == 6 {
            Device::WifiBb44m
        } else if i == 7 {
            Device::WifiMac
        } else if i == 8 {
            Device::WifiBb
        } else if i == 9 {
            Device::WifiBb80x1
        } else if i == 10 {
            Device::BtApb
        } else {
            Device::BtI154CommonBb
        }
    }

    /// The device at `i` in configuration order.
    pub fn from_index(i: usize) -> (d: Device)
        requires
            i < DEVICE_COUNT,
        ensures
            d == Device::at(i as int),
            d.index_spec() == i,
    {
        if i == 0 {
            Device::ModemAdcCommonFe
        } else if i == 1 {
            Device::ModemPrivateFe
        } else if i == 2 {
            Device::SocPllSourceCg
        } else if i == 3 {
            Device::Coexist
        } else if i == 4 {
            Device::I2cMaster
        } else if i == 5 {
            Device::WifiApb
        } else if i == 6 {
            Device::WifiBb44m
        } else if i == 7 {
            Device::WifiMac
        } else if i == 8 {
            Device::WifiBb
        } else if i == 9 {
            Device::WifiBb80x1
        } else if i == 10 {
            Device::BtApb
        } else {
            Device::BtI154CommonBb
        }
    }

    /// Every device is reference counted except the analog I2C master, whose gate follows each
    /// call.
    pub open spec fn counted_spec(self) -> bool {
        self != Device::I2cMaster
    }

    /// Every device is reference counted except the analog I2C master, whose gate follows each
    /// call.
    pub fn counted(self) -> (r: bool)
        ensures
            r == self.counted_spec(),
    {
        !matches!(self, Device::I2cMaster)
    }
}

} // verus!

verus! {

proof fn lemma_or_bit(x: u16, a: u16, b: u16)
    requires
        a < 12,
        b < 12,
    ensures
        ((x | (1u16 << a)) & (1u16 << b) != 0) == ((x & (1u16 << b) != 0) || a == b),
        x < 4096 ==> (x | (1u16 << a)) < 4096,
{
    assert(((x | (1u16 << a)) & (1u16 << b) != 0) == ((x & (1u16 << b) != 0) || a == b))
        by (bit_vector)
        requires
            a < 12,
            b < 12,
    ;
    assert(x < 4096 ==> (x | (1u16 << a)) < 4096) by (bit_vector)
        requires
            a < 12,
    ;
}

proof fn lemma_zero_has_no_bit(b: u16)
    requires
        b < 12,
    ensures
        (0u16 & (1u16 << b)) == 0,
{
    assert((0u16 & (1u16 << b)) == 0) by (bit_vector);
}

/// Whether the device mask `bits` holds `d`.
pub open spec fn mask_has(bits: u16, d: Device) -> bool {
    bits & d.bit_spec() != 0
}

/// A set of devices that one user of the modem clocks needs.
#[derive(Clone, Copy, Debug)]
pub struct Module(u16);

impl Module {
    /// The device mask; bit `i` stands for the device at position `i`.
    pub closed spec fn bits(self) -> u16 {
        self.0
    }

    /// The Wi-Fi driver's module, [`wifi`].
    pub closed spec fn wifi_spec() -> Module {
        Module(0x3ec)
    }

    /// The PHY's module, [`phy`].
    pub closed spec fn phy_spec() -> Module {
        Module(0x17)
    }

    /// The PHY calibration module, [`phy_calibration`].
    pub closed spec fn phy_calibration_spec() -> Module {
        Module(0xf64)
    }

    /// Whether the module needs `d`.
    pub open spec fn contains(self, d: Device) -> bool {
        mask_has(self.bits(), d)
    }

    /// The module that needs exactly `devices`.
    pub fn of(devices: &[Device]) -> (m: Module)
        ensures
            forall|d: Device| #[trigger] m.contains(d) <==> devices@.contains(d),
            m.bits() < 4096,
    {
        let mut bits: u16 = 0;
        let mut i: usize = 0;
        proof {
            assert forall|d: Device| !#[trigger] mask_has(bits, d) by {
                lemma_zero_has_no_bit(d.index_spec() as u16);
            }
        }
        while i < devices.len()
            invariant
                i <= devices.len(),
                bits < 4096,
                forall|d: Device|
                    #[trigger] mask_has(bits, d) <==> devices@.subrange(
                        0,
                        i as int,
                    ).contains(d),
            decreases devices.len() - i,
        {
            let d = devices[i];
            let b: u16 = d.bit();
            let ghost old_bits = bits;
            bits = bits | b;
            proof {
                assert forall|e: Device| #[trigger] mask_has(bits, e) <==> devices@.subrange(
                    0,
                    i + 1,
                ).contains(e) by {
                    lemma_or_bit(old_bits, d.index_spec() as u16, e.index_spec() as u16);
                    let prefix = devices@.subrange(0, i as int);
                    let next = devices@.subrange(0, i + 1);
                    assert(next == prefix.push(d));
                    assert(mask_has(old_bits, e) == prefix.contains(e));
                    assert(bits == old_bits | d.bit_spec());
                    if e == d {
                        assert(next[i as int] == e);
                    } else {
                        assert(d.index_spec() != e.index_spec());
                        if prefix.contains(e) {
                            let k = choose|k: int| 0 <= k < prefix.len() && #[trigger] prefix[k] == e;
                            assert(next[k] == e);
                        }
                        if next.contains(e) {
                            let k = choose|k: int| 0 <= k < next.len() && #[trigger] next[k] == e;
                            assert(k != i);
                            assert(prefix[k] == e);
                        }
                    }
                }
                lemma_or_bit(old_bits, d.index_spec() as u16, 0);
            }
            i = i + 1;
        }
        proof {
            assert(devices@.subrange(0, devices@.len() as int) == devices@);
        }
        Module(bits)
    }
}

} // verus!

verus! {


proof fn lemma_mask_from_bits(x: u16, expected: u16)
    requires
        x < 4096,
        expected < 4096,
        (x & 1 != 0) == (expected & 1 != 0),
        (x & 2 != 0) == (expected & 2 != 0),
        (x & 4 != 0) == (expected & 4 != 0),
        (x & 8 != 0) == (expected & 8 != 0),
        (x & 16 != 0) == (expected & 16 != 0),
        (x & 32 != 0) == (expected & 32 != 0),
        (x & 64 != 0) == (expected & 64 != 0),
        (x & 128 != 0) == (expected & 128 != 0),
        (x & 256 != 0) == (expected & 256 != 0),
        (x & 512 != 0) == (expected & 512 != 0),
        (x & 1024 != 0) == (expected & 1024 != 0),
        (x & 2048 != 0) == (expected & 2048 != 0),
    ensures
        x == expected,
{
    assert(x == expected) by (bit_vector)
        requires
            x < 4096,
            expected < 4096,
            (x & 1 != 0) == (expected & 1 != 0),
            (x & 2 != 0) == (expected & 2 != 0),
            (x & 4 != 0) == (expected & 4 != 0),
            (x & 8 != 0) == (expected & 8 != 0),
            (x & 16 != 0) == (expected & 16 != 0),
            (x & 32 != 0) == (expected & 32 != 0),
            (x & 64 != 0) == (expected & 64 != 0),
            (x & 128 != 0) == (expected & 128 != 0),
            (x & 256 != 0) == (expected & 256 != 0),
            (x & 512 != 0) == (expected & 512 != 0),
            (x & 1024 != 0) == (expected & 1024 != 0),
            (x & 2048 != 0) == (expected & 2048 != 0),
    ;
}

/// The devices of `m` are exactly those that `needs` names, and no bit above them is set: that
/// pins its mask down to `expected`.
proof fn lemma_module_is(m: Module, expected: u16)
    requires
        m.bits() < 4096,
        expected < 4096,
        forall|d: Device| #[trigger] m.contains(d) <==> mask_has(expected, d),
    ensures
        m.bits() == expected,
{
    assert(m.contains(Device::ModemAdcCommonFe) == mask_has(expected, Device::ModemAdcCommonFe));
    assert(m.contains(Device::ModemPrivateFe) == mask_has(expected, Device::ModemPrivateFe));
    assert(m.contains(Device::SocPllSourceCg) == mask_has(expected, Device::SocPllSourceCg));
    assert(m.contains(Device::Coexist) == mask_has(expected, Device::Coexist));
    assert(m.contains(Device::I2cMaster) == mask_has(expected, Device::I2cMaster));
    assert(m.contains(Device::WifiApb) == mask_has(expected, Device::WifiApb));
    assert(m.contains(Device::WifiBb44m) == mask_has(expected, Device::WifiBb44m));
    assert(m.contains(Device::WifiMac) == mask_has(expected, Device::WifiMac));
    assert(m.contains(Device::WifiBb) == mask_has(expected, Device::WifiBb));
    assert(m.contains(Device::WifiBb80x1) == mask_has(expected, Device::WifiBb80x1));
    assert(m.contains(Device::BtApb) == mask_has(expected, Device::BtApb));
    assert(m.contains(Device::BtI154CommonBb) == mask_has(expected, Device::BtI154CommonBb));
    lemma_bits_values();
    lemma_mask_from_bits(m.bits(), expected);
}

proof fn lemma_bits_values()
    ensures
        Device::ModemAdcCommonFe.bit_spec() == 1,
        Device::ModemPrivateFe.bit_spec() == 2,
        Device::SocPllSourceCg.bit_spec() == 4,
        Device::Coexist.bit_spec() == 8,
        Device::I2cMaster.bit_spec() == 16,
        Device::WifiApb.bit_spec() == 32,
        Device::WifiBb44m.bit_spec() == 64,
        Device::WifiMac.bit_spec() == 128,
        Device::WifiBb.bit_spec() == 256,
        Device::WifiBb80x1.bit_spec() == 512,
        Device::BtApb.bit_spec() == 1024,
        Device::BtI154CommonBb.bit_spec() == 2048,
{
    assert(1u16 << 0u16 == 1 && 1u16 << 1u16 == 2 && 1u16 << 2u16 == 4 && 1u16 << 3u16 == 8
        && 1u16 << 4u16 == 16 && 1u16 << 5u16 == 32 && 1u16 << 6u16 == 64 && 1u16 << 7u16 == 128
        && 1u16 << 8u16 == 256 && 1u16 << 9u16 == 512 && 1u16 << 10u16 == 1024 && 1u16 << 11u16
        == 2048) by (bit_vector);
}

/// What the Wi-Fi driver holds between enabling and disabling its clocks.
pub open spec fn wifi_needs(d: Device) -> bool {
    d == Device::WifiMac || d == Device::WifiApb || d == Device::WifiBb || d == Device::WifiBb44m
        || d == Device::Coexist || d == Device::WifiBb80x1 || d == Device::SocPllSourceCg
}

/// What the PHY holds while it is enabled.
pub open spec fn phy_needs(d: Device) -> bool {
    d == Device::ModemAdcCommonFe || d == Device::ModemPrivateFe || d == Device::SocPllSourceCg
        || d == Device::I2cMaster
}

/// What PHY calibration needs: the union of its Wi-Fi and BT/802.15.4 halves.
pub open spec fn phy_calibration_needs(d: Device) -> bool {
    d == Device::WifiApb || d == Device::WifiBb || d == Device::WifiBb44m || d == Device::WifiBb80x1
        || d == Device::SocPllSourceCg || d == Device::BtI154CommonBb || d == Device::BtApb
}

/// What each of the three modules holds.
pub proof fn lemma_module_contents()
    ensures
        forall|d: Device| #[trigger] Module::wifi_spec().contains(d) <==> wifi_needs(d),
        forall|d: Device| #[trigger] Module::phy_spec().contains(d) <==> phy_needs(d),
        forall|d: Device|
            #[trigger] Module::phy_calibration_spec().contains(d) <==> phy_calibration_needs(d),
{
    lemma_bits_values();
    assert forall|d: Device| #[trigger] Module::wifi_spec().contains(d) <==> wifi_needs(d) by {
        let b: u16 = d.bit_spec();
        assert(b == 1 || b == 2 || b == 4 || b == 8 || b == 16 || b == 32 || b == 64 || b == 128 || b == 256 || b == 512 || b == 1024 || b == 2048);
        assert((0x3ecu16 & 1) == 0 && (0x3ecu16 & 2) == 0 && (0x3ecu16 & 4) != 0 && (0x3ecu16 & 8) != 0 && (0x3ecu16 & 16) == 0 && (0x3ecu16 & 32) != 0 && (0x3ecu16 & 64) != 0 && (0x3ecu16 & 128) != 0 && (0x3ecu16 & 256) != 0 && (0x3ecu16 & 512) != 0 && (0x3ecu16 & 1024) == 0 && (0x3ecu16 & 2048) == 0) by (bit_vector);
    }
    assert forall|d: Device| #[trigger] Module::phy_spec().contains(d) <==> phy_needs(d) by {
        assert((0x17u16 & 1) != 0 && (0x17u16 & 2) != 0 && (0x17u16 & 4) != 0 && (0x17u16 & 8) == 0 && (0x17u16 & 16) != 0 && (0x17u16 & 32) == 0 && (0x17u16 & 64) == 0 && (0x17u16 & 128) == 0 && (0x17u16 & 256) == 0 && (0x17u16 & 512) == 0 && (0x17u16 & 1024) == 0 && (0x17u16 & 2048) == 0) by (bit_vector);
    }
    assert forall|d: Device|
        #[trigger] Module::phy_calibration_spec().contains(d) <==> phy_calibration_needs(d) by {
        assert((0xf64u16 & 1) == 0 && (0xf64u16 & 2) == 0 && (0xf64u16 & 4) != 0 && (0xf64u16 & 8) == 0 && (0xf64u16 & 16) == 0 && (0xf64u16 & 32) != 0 && (0xf64u16 & 64) != 0 && (0xf64u16 & 128) == 0 && (0xf64u16 & 256) != 0 && (0xf64u16 & 512) != 0 && (0xf64u16 & 1024) != 0 && (0xf64u16 & 2048) != 0) by (bit_vector);
    }
}

/// The devices the Wi-Fi driver holds.
pub fn wifi() -> (m: Module)
    ensures
        m == Module::wifi_spec(),
{
    let devices = [
        Device::WifiMac,
        Device::WifiApb,
        Device::WifiBb,
        Device::WifiBb44m,
        Device::Coexist,
        Device::WifiBb80x1,
        Device::SocPllSourceCg,
    ];
    let m = Module::of(&devices);
    proof {
        assert forall|d: Device| #[trigger] m.contains(d) <==> wifi_needs(d) by {
            if wifi_needs(d) {
                let k: int = if d == Device::WifiMac { 0 } else if d == Device::WifiApb { 1 } else if d == Device::WifiBb { 2 } else if d == Device::WifiBb44m { 3 } else if d == Device::Coexist { 4 } else if d == Device::WifiBb80x1 { 5 } else { 6 };
                assert(devices@[k] == d);
            }
        }
    }
    proof {
        lemma_module_contents();
        assert forall|d: Device| #[trigger] m.contains(d) <==> mask_has(0x3ec, d) by {
            assert(Module::wifi_spec().contains(d) == mask_has(0x3ec, d));
        }
        lemma_module_is(m, 0x3ec);
    }
    m
}

/// The devices the PHY holds.
pub fn phy() -> (m: Module)
    ensures
        m == Module::phy_spec(),
{
    let devices = [
        Device::ModemAdcCommonFe,
        Device::ModemPrivateFe,
        Device::SocPllSourceCg,
        Device::I2cMaster,
    ];
    let m = Module::of(&devices);
    proof {
        assert forall|d: Device| #[trigger] m.contains(d) <==> phy_needs(d) by {
            if phy_needs(d) {
                let k: int = if d == Device::ModemAdcCommonFe { 0 } else if d == Device::ModemPrivateFe { 1 } else if d == Device::SocPllSourceCg { 2 } else { 3 };
                assert(devices@[k] == d);
            }
        }
    }
    proof {
        lemma_module_contents();
        assert forall|d: Device| #[trigger] m.contains(d) <==> mask_has(0x17, d) by {
            assert(Module::phy_spec().contains(d) == mask_has(0x17, d));
        }
        lemma_module_is(m, 0x17);
    }
    m
}

/// The devices PHY calibration holds.
pub fn phy_calibration() -> (m: Module)
    ensures
        m == Module::phy_calibration_spec(),
{
    let devices = [
        Device::WifiApb,
        Device::WifiBb,
        Device::WifiBb44m,
        Device::WifiBb80x1,
        Device::SocPllSourceCg,
        Device::BtI154CommonBb,
        Device::BtApb,
    ];
    let m = Module::of(&devices);
    proof {
        assert forall|d: Device| #[trigger] m.contains(d) <==> phy_calibration_needs(d) by {
            if phy_calibration_needs(d) {
                let k: int = if d == Device::WifiApb { 0 } else if d == Device::WifiBb { 1 } else if d == Device::WifiBb44m { 2 } else if d == Device::WifiBb80x1 { 3 } else if d == Device::SocPllSourceCg { 4 } else if d == Device::BtI154CommonBb { 5 } else { 6 };
                assert(devices@[k] == d);
            }
        }
    }
    proof {
        lemma_module_contents();
        assert forall|d: Device| #[trigger] m.contains(d) <==> mask_has(0xf64, d) by {
            assert(Module::phy_calibration_spec().contains(d) == mask_has(0xf64, d));
        }
        lemma_module_is(m, 0xf64);
    }
    m
}

} // verus!

verus! {

/// Value of the HP system `modem_conf` register that ungates the PLL source for the modem.
pub const MODEM_CONF_PLL_ON: u32 = 0x3d;

/// Value of the HP system `modem_conf` register that gates the PLL source for the modem.
pub const MODEM_CONF_PLL_OFF: u32 = 0x25;

/// The Wi-Fi baseband clocks (22M/40M/80M/40X/80X/40X1/160X1) in the modem syscon `clk_conf1`
/// register, switched together.
pub const WIFI_BB_MASK: u32 = 0x17b;

/// One register write of the modem clock tree.
#[derive(Clone, Copy, PartialEq, Eq, Structural, Debug)]
pub enum ClockOp {
    /// Set the front end APB and 80M clock enables in syscon `clk_conf1`.
    FeCommonOn,
    /// Set the front end 160M, DAC, power-detect ADC and ADC clock enables in syscon `clk_conf1`.
    FePrivateOn,
    /// Write the whole HP system `modem_conf` register.
    PllSource(u32),
    /// Set the coexistence clock enable in lpcon `clk_conf`.
    Coexist(bool),
    /// Set the analog I2C master clock enable in lpcon `clk_conf`.
    I2cMaster(bool),
    /// Set the Wi-Fi APB clock enable in syscon `clk_conf1`.
    WifiApb(bool),
    /// Set the Wi-Fi baseband 44M clock enable in syscon `clk_conf1`.
    WifiBb44m(bool),
    /// Set the Wi-Fi MAC clock enable in syscon `clk_conf1`.
    WifiMac(bool),
    /// Set the Wi-Fi baseband reset in syscon `modem_rst_conf`.
    WifiBbReset(bool),
    /// Set or clear [`WIFI_BB_MASK`] in syscon `clk_conf1`, see [`wifi_bb_clock_bits`].
    WifiBbClocks(bool),
    /// Set the Wi-Fi baseband 80X1 clock enable in syscon `clk_conf1`.
    WifiBb80x1(bool),
    /// Set the BT APB clock enable in syscon `clk_conf1`.
    BtApb(bool),
    /// Set the modem security APB clock enable in syscon `clk_conf`.
    ModemSecApb(bool),
    /// Set the BT baseband clock enable in syscon `clk_conf1`.
    BtBb(bool),
}

/// The writes that configure `d`, in order. While Wi-Fi is initialized, the Wi-Fi clocks are only
/// ever turned on; the two front end devices are only ever turned on.
pub open spec fn configure_ops(d: Device, en: bool, wifi_initialized: bool) -> Seq<ClockOp> {
    let wifi_may_change = en || !wifi_initialized;
    match d {
        Device::ModemAdcCommonFe => if en { seq![ClockOp::FeCommonOn] } else { seq![] },
        Device::ModemPrivateFe => if en { seq![ClockOp::FePrivateOn] } else { seq![] },
        Device::SocPllSourceCg => seq![
            ClockOp::PllSource(if en { MODEM_CONF_PLL_ON } else { MODEM_CONF_PLL_OFF }),
        ],
        Device::Coexist => seq![ClockOp::Coexist(en)],
        Device::I2cMaster => seq![ClockOp::I2cMaster(en)],
        Device::WifiApb => if wifi_may_change { seq![ClockOp::WifiApb(en)] } else { seq![] },
        Device::WifiBb44m => if wifi_may_change { seq![ClockOp::WifiBb44m(en)] } else { seq![] },
        Device::WifiMac => if wifi_may_change { seq![ClockOp::WifiMac(en)] } else { seq![] },
        Device::WifiBb => if !wifi_may_change {
            seq![]
        } else if en {
            seq![ClockOp::WifiBbReset(true), ClockOp::WifiBbReset(false), ClockOp::WifiBbClocks(true)]
        } else {
            seq![ClockOp::WifiBbClocks(false)]
        },
        Device::WifiBb80x1 => if wifi_may_change { seq![ClockOp::WifiBb80x1(en)] } else { seq![] },
        Device::BtApb => seq![ClockOp::BtApb(en), ClockOp::ModemSecApb(en)],
        Device::BtI154CommonBb => seq![ClockOp::BtBb(en)],
    }
}

/// The register writes that switch device `d` on (`en`) or off.
pub fn configure(d: Device, en: bool, wifi_initialized: bool) -> (ops: Vec<ClockOp>)
    ensures
        ops@ == configure_ops(d, en, wifi_initialized),
        en ==> ops@ == configure_ops(d, true, false),
        en ==> ops@.len() > 0,
        d == Device::WifiMac && en ==> ops@ == seq![ClockOp::WifiMac(true)],
        d == Device::WifiApb && en ==> ops@ == seq![ClockOp::WifiApb(true)],
        d == Device::WifiBb44m && en ==> ops@ == seq![ClockOp::WifiBb44m(true)],
        d == Device::WifiBb80x1 && en ==> ops@ == seq![ClockOp::WifiBb80x1(true)],
        d == Device::WifiBb && en ==> ops@.contains(ClockOp::WifiBbClocks(true)),
{
    let wifi_may_change = en || !wifi_initialized;
    let mut ops: Vec<ClockOp> = Vec::new();
    match d {
        Device::ModemAdcCommonFe => {
            if en {
                ops.push(ClockOp::FeCommonOn);
            }
        },
        Device::ModemPrivateFe => {
            if en {
                ops.push(ClockOp::FePrivateOn);
            }
        },
        Device::SocPllSourceCg => {
            ops.push(
                ClockOp::PllSource(
                    if en {
                        MODEM_CONF_PLL_ON
                    } else {
                        MODEM_CONF_PLL_OFF
                    },
                ),
            );
        },
        Device::Coexist => {
            ops.push(ClockOp::Coexist(en));
        },
        Device::I2cMaster => {
            ops.push(ClockOp::I2cMaster(en));
        },
        Device::WifiApb => {
            if wifi_may_change {
                ops.push(ClockOp::WifiApb(en));
            }
        },
        Device::WifiBb44m => {
            if wifi_may_change {
                ops.push(ClockOp::WifiBb44m(en));
            }
        },
        Device::WifiMac => {
            if wifi_may_change {
                ops.push(ClockOp::WifiMac(en));
            }
        },
        Device::WifiBb => {
            if wifi_may_change {
                if en {
                    ops.push(ClockOp::WifiBbReset(true));
                    ops.push(ClockOp::WifiBbReset(false));
                }
                ops.push(ClockOp::WifiBbClocks(en));
            }
        },
        Device::WifiBb80x1 => {
            if wifi_may_change {
                ops.push(ClockOp::WifiBb80x1(en));
            }
        },
        Device::BtApb => {
            ops.push(ClockOp::BtApb(en));
            ops.push(ClockOp::ModemSecApb(en));
        },
        Device::BtI154CommonBb => {
            ops.push(ClockOp::BtBb(en));
        },
    }
    proof {
        assert(ops@ =~= configure_ops(d, en, wifi_initialized));
    }
    ops
}

/// The new value of syscon `clk_conf1` when the Wi-Fi baseband clocks are switched: only the bits
/// of [`WIFI_BB_MASK`] change, every other bit is written back.
pub fn wifi_bb_clock_bits(current: u32, en: bool) -> (r: u32)
    ensures
        en ==> r == current | WIFI_BB_MASK,
        !en ==> r == current & !WIFI_BB_MASK,
        r & !WIFI_BB_MASK == current & !WIFI_BB_MASK,
        r & WIFI_BB_MASK == (if en { WIFI_BB_MASK } else { 0 }),
{
    let r = if en {
        current | WIFI_BB_MASK
    } else {
        current & !WIFI_BB_MASK
    };
    proof {
        assert((current | 0x17bu32) & !0x17bu32 == current & !0x17bu32) by (bit_vector);
        assert((current & !0x17bu32) & !0x17bu32 == current & !0x17bu32) by (bit_vector);
        assert((current | 0x17bu32) & 0x17bu32 == 0x17bu32) by (bit_vector);
        assert((current & !0x17bu32) & 0x17bu32 == 0) by (bit_vector);
    }
    r
}

} // verus!

verus! {

/// Whether switching device `d`, whose count was `old`, writes its registers: enabling acts on
/// the first holder, disabling on the last; the uncounted device acts on every call.
pub open spec fn acts(d: Device, old: u8, en: bool) -> bool {
    !d.counted_spec() || (if en {
        old == 0
    } else {
        old == 1
    })
}

/// The count of the device at `i` after switching module `m`.
pub open spec fn next_count(refs: Seq<u8>, m: Module, en: bool, i: int) -> u8 {
    let d = Device::at(i);
    if m.contains(d) && d.counted_spec() {
        if en {
            (refs[i] + 1) as u8
        } else {
            (refs[i] - 1) as u8
        }
    } else {
        refs[i]
    }
}

/// The reference counts after switching module `m` on (`en`) or off.
pub open spec fn next_refs(refs: Seq<u8>, m: Module, en: bool) -> Seq<u8> {
    Seq::new(refs.len(), |i: int| next_count(refs, m, en, i))
}

/// The writes for the device at `i`, when module `m` is switched.
pub open spec fn device_ops(refs: Seq<u8>, m: Module, en: bool, wifi_initialized: bool, i: int) -> Seq<
    ClockOp,
> {
    let d = Device::at(i);
    if m.contains(d) && acts(d, refs[i], en) {
        configure_ops(d, en, wifi_initialized)
    } else {
        seq![]
    }
}

/// The writes for the first `n` devices in configuration order, when module `m` is switched.
pub open spec fn control_ops(refs: Seq<u8>, m: Module, en: bool, wifi_initialized: bool, n: nat) -> Seq<
    ClockOp,
>
    decreases n,
{
    if n == 0 {
        seq![]
    } else {
        control_ops(refs, m, en, wifi_initialized, (n - 1) as nat) + device_ops(
            refs,
            m,
            en,
            wifi_initialized,
            n - 1,
        )
    }
}

/// Switching module `m` keeps every count of it in range: no count of 255 is acquired again, and
/// none of 0 is released.
pub open spec fn can_control(refs: Seq<u8>, m: Module, en: bool) -> bool {
    forall|i: int|
        0 <= i < refs.len() && #[trigger] m.contains(Device::at(i)) && Device::at(i).counted_spec() ==> if en {
            refs[i] < 255
        } else {
            refs[i] > 0
        }
}

/// The shared modem clock state: one reference count per device, and whether Wi-Fi is
/// initialized.
pub struct ClockState {
    refs: Vec<u8>,
    wifi_initialized: bool,
}

impl ClockState {
    /// The reference counts, in configuration order.
    pub closed spec fn refs(&self) -> Seq<u8> {
        self.refs@
    }

    /// Whether Wi-Fi is recorded as initialized.
    pub closed spec fn wifi_is_initialized(&self) -> bool {
        self.wifi_initialized
    }

    /// One count per device.
    pub open spec fn wf(&self) -> bool {
        self.refs().len() == DEVICE_COUNT
    }

    /// Nothing held, Wi-Fi not initialized.
    pub fn new() -> (s: ClockState)
        ensures
            s.wf(),
            s.refs() == Seq::new(DEVICE_COUNT as nat, |i: int| 0u8),
            !s.wifi_is_initialized(),
    {
        let mut refs: Vec<u8> = Vec::new();
        let mut i: usize = 0;
        while i < DEVICE_COUNT
            invariant
                i <= DEVICE_COUNT,
                refs@ == Seq::new(i as nat, |j: int| 0u8),
            decreases DEVICE_COUNT - i,
        {
            refs.push(0);
            i = i + 1;
            proof {
                assert(refs@ =~= Seq::new(i as nat, |j: int| 0u8));
            }
        }
        ClockState { refs, wifi_initialized: false }
    }

    /// The number of holders of `d`.
    pub fn count(&self, d: Device) -> (r: u8)
        requires
            self.wf(),
        ensures
            r == self.refs()[d.index_spec() as int],
    {
        self.refs[d.index()]
    }

    /// Whether Wi-Fi is recorded as initialized.
    pub fn wifi_initialized(&self) -> (r: bool)
        ensures
            r == self.wifi_is_initialized(),
    {
        self.wifi_initialized
    }

    /// Switch every device of `module` on (`enable`) or off, in configuration order, and return
    /// the register writes that does.
    pub fn control(&mut self, module: Module, enable: bool) -> (ops: Vec<ClockOp>)
        requires
            old(self).wf(),
            can_control(old(self).refs(), module, enable),
        ensures
            final(self).wf(),
            final(self).refs() == next_refs(old(self).refs(), module, enable),
            final(self).wifi_is_initialized() == old(self).wifi_is_initialized(),
            ops@ == control_ops(
                old(self).refs(),
                module,
                enable,
                old(self).wifi_is_initialized(),
                DEVICE_COUNT as nat,
            ),
    {
        let ghost old_refs = self.refs@;
        let wifi_initialized = self.wifi_initialized;
        let mut ops: Vec<ClockOp> = Vec::new();
        let mut i: usize = 0;
        while i < DEVICE_COUNT
            invariant
                i <= DEVICE_COUNT,
                old_refs.len() == DEVICE_COUNT,
                can_control(old_refs, module, enable),
                self.refs@.len() == DEVICE_COUNT,
                forall|j: int|
                    0 <= j < DEVICE_COUNT ==> #[trigger] self.refs@[j] == if j < i {
                        next_count(old_refs, module, enable, j)
                    } else {
                        old_refs[j]
                    },
                self.wifi_initialized == wifi_initialized,
                ops@ == control_ops(old_refs, module, enable, wifi_initialized, i as nat),
            decreases DEVICE_COUNT - i,
        {
            let device = Device::from_index(i);
            let ghost prev_ops = ops@;
            if module.0 & device.bit() != 0 {
                assert(module.contains(Device::at(i as int)));
                let held: u8 = self.refs[i];
                assert(held == old_refs[i as int]);
                let act = if !device.counted() {
                    true
                } else if enable {
                    self.refs.set(i, held + 1);
                    held == 0
                } else {
                    assert(held > 0);
                    self.refs.set(i, held - 1);
                    held - 1 == 0
                };
                if act {
                    let mut dev_ops = configure(device, enable, wifi_initialized);
                    ops.append(&mut dev_ops);
                }
            }
            proof {
                assert(ops@ =~= prev_ops + device_ops(
                    old_refs,
                    module,
                    enable,
                    wifi_initialized,
                    i as int,
                ));
            }
            i = i + 1;
        }
        proof {
            assert(self.refs@ =~= next_refs(old_refs, module, enable));
        }
        ops
    }
}

} // verus!

verus! {

/// Acquire every device of `module`, ungating those nobody held; returns the register writes.
pub fn enable(state: &mut ClockState, module: Module) -> (ops: Vec<ClockOp>)
    requires
        old(state).wf(),
        can_control(old(state).refs(), module, true),
    ensures
        final(state).wf(),
        final(state).refs() == next_refs(old(state).refs(), module, true),
        final(state).wifi_is_initialized() == old(state).wifi_is_initialized(),
        ops@ == control_ops(
            old(state).refs(),
            module,
            true,
            old(state).wifi_is_initialized(),
            DEVICE_COUNT as nat,
        ),
{
    state.control(module, true)
}

/// Release every device of `module`, gating those nobody else holds; returns the register writes.
pub fn disable(state: &mut ClockState, module: Module) -> (ops: Vec<ClockOp>)
    requires
        old(state).wf(),
        can_control(old(state).refs(), module, false),
    ensures
        final(state).wf(),
        final(state).refs() == next_refs(old(state).refs(), module, false),
        final(state).wifi_is_initialized() == old(state).wifi_is_initialized(),
        ops@ == control_ops(
            old(state).refs(),
            module,
            false,
            old(state).wifi_is_initialized(),
            DEVICE_COUNT as nat,
        ),
{
    state.control(module, false)
}

/// Record whether Wi-Fi is initialized. While it is, the Wi-Fi MAC, baseband and baseband APB
/// clocks stay ungated even at a count of zero.
pub fn set_wifi_initialized(state: &mut ClockState, initialized: bool)
    ensures
        final(state).wifi_is_initialized() == initialized,
        final(state).refs() == old(state).refs(),
{
    state.wifi_initialized = initialized;
}

} // verus!

verus! {

/// Acquiring a module and then releasing it gives every count back its old value.
pub proof fn lemma_enable_then_disable_restores(refs: Seq<u8>, m: Module)
    requires
        refs.len() == DEVICE_COUNT,
        can_control(refs, m, true),
    ensures
        can_control(next_refs(refs, m, true), m, false),
        next_refs(next_refs(refs, m, true), m, false) == refs,
{
    assert(next_refs(next_refs(refs, m, true), m, false) =~= refs);
}

/// Releasing a module that is held and then acquiring it again gives every count back its old
/// value.
pub proof fn lemma_disable_then_enable_restores(refs: Seq<u8>, m: Module)
    requires
        refs.len() == DEVICE_COUNT,
        can_control(refs, m, false),
    ensures
        can_control(next_refs(refs, m, false), m, true),
        next_refs(next_refs(refs, m, false), m, true) == refs,
{
    assert(next_refs(next_refs(refs, m, false), m, true) =~= refs);
}

/// The counts do not depend on the order in which two users switch their modules.
pub proof fn lemma_counts_commute(refs: Seq<u8>, a: Module, ea: bool, b: Module, eb: bool)
    requires
        refs.len() == DEVICE_COUNT,
        can_control(refs, a, ea),
        can_control(next_refs(refs, a, ea), b, eb),
        can_control(refs, b, eb),
        can_control(next_refs(refs, b, eb), a, ea),
    ensures
        next_refs(next_refs(refs, a, ea), b, eb) == next_refs(next_refs(refs, b, eb), a, ea),
{
    assert forall|i: int| 0 <= i < refs.len() implies #[trigger] next_refs(
        next_refs(refs, a, ea),
        b,
        eb,
    )[i] == next_refs(next_refs(refs, b, eb), a, ea)[i] by {
        let d = Device::at(i);
        if a.contains(d) && d.counted_spec() {
            assert(if ea { refs[i] < 255 } else { refs[i] > 0 });
        }
        if b.contains(d) && d.counted_spec() {
            assert(if eb { refs[i] < 255 } else { refs[i] > 0 });
            assert(if eb { next_refs(refs, a, ea)[i] < 255 } else { next_refs(refs, a, ea)[i] > 0 });
        }
        if a.contains(d) && d.counted_spec() {
            assert(if ea { next_refs(refs, b, eb)[i] < 255 } else { next_refs(refs, b, eb)[i] > 0 });
        }
    }
    assert(next_refs(next_refs(refs, a, ea), b, eb) =~= next_refs(next_refs(refs, b, eb), a, ea));
}

/// A counted device is switched on only by its first holder, and off only by its last: enabling
/// a module writes a device's registers exactly when nobody held it, and disabling writes them
/// exactly when its count drops to zero, so no device that a user still holds is gated.
pub proof fn lemma_gate_follows_count(refs: Seq<u8>, m: Module, wi: bool, i: int)
    requires
        refs.len() == DEVICE_COUNT,
        0 <= i < DEVICE_COUNT,
        m.contains(Device::at(i)),
        Device::at(i).counted_spec(),
    ensures
        device_ops(refs, m, true, wi, i) == (if refs[i] == 0 {
            configure_ops(Device::at(i), true, wi)
        } else {
            seq![]
        }),
        can_control(refs, m, false) ==> device_ops(refs, m, false, wi, i) == (if next_refs(
            refs,
            m,
            false,
        )[i] == 0 {
            configure_ops(Device::at(i), false, wi)
        } else {
            seq![]
        }),
{
}

/// An op that gates one of the Wi-Fi clocks.
pub open spec fn gates_wifi(op: ClockOp) -> bool {
    op == ClockOp::WifiMac(false) || op == ClockOp::WifiApb(false) || op == ClockOp::WifiBbClocks(
        false,
    ) || op == ClockOp::WifiBb44m(false) || op == ClockOp::WifiBb80x1(false)
}

/// While Wi-Fi is initialized, releasing any module never gates the Wi-Fi MAC, baseband or
/// baseband APB clocks, whatever the counts.
pub proof fn lemma_wifi_clocks_kept_while_initialized(refs: Seq<u8>, m: Module, n: nat)
    ensures
        forall|k: int|
            0 <= k < control_ops(refs, m, false, true, n).len() ==> !gates_wifi(
                #[trigger] control_ops(refs, m, false, true, n)[k],
            ),
    decreases n,
{
    if n > 0 {
        lemma_wifi_clocks_kept_while_initialized(refs, m, (n - 1) as nat);
        let prev = control_ops(refs, m, false, true, (n - 1) as nat);
        let cur = device_ops(refs, m, false, true, n - 1);
        assert(control_ops(refs, m, false, true, n) == prev + cur);
        assert forall|k: int| 0 <= k < cur.len() implies !gates_wifi(#[trigger] cur[k]) by {}
        assert forall|k: int|
            0 <= k < (prev + cur).len() implies !gates_wifi(#[trigger] (prev + cur)[k]) by {
            if k < prev.len() {
                assert((prev + cur)[k] == prev[k]);
            } else {
                assert((prev + cur)[k] == cur[k - prev.len()]);
            }
        }
    }
}

} // verus!

verus! {

impl ClockState {
    /// Whether switching `module` keeps every count in range: see [`can_control`].
    pub fn can_switch(&self, module: Module, enable: bool) -> (r: bool)
        requires
            self.wf(),
        ensures
            r == can_control(self.refs(), module, enable),
    {
        let mut i: usize = 0;
        while i < DEVICE_COUNT
            invariant
                i <= DEVICE_COUNT,
                self.refs@.len() == DEVICE_COUNT,
                forall|j: int|
                    0 <= j < i && #[trigger] module.contains(Device::at(j)) && Device::at(
                        j,
                    ).counted_spec() ==> if enable {
                        self.refs@[j] < 255
                    } else {
                        self.refs@[j] > 0
                    },
            decreases DEVICE_COUNT - i,
        {
            let d = Device::from_index(i);
            if module.0 & d.bit() != 0 && d.counted() {
                let c: u8 = self.refs[i];
                if enable && c == 255 {
                    assert(module.contains(Device::at(i as int)));
                    return false;
                }
                if !enable && c == 0 {
                    assert(module.contains(Device::at(i as int)));
                    return false;
                }
            }
            i = i + 1;
        }
        true
    }
}

} // verus!

verus! {

impl ClockState {
    /// A copy of the state.
    pub fn duplicate(&self) -> (s: ClockState)
        requires
            self.wf(),
        ensures
            s.wf(),
            s.refs() == self.refs(),
            s.wifi_is_initialized() == self.wifi_is_initialized(),
    {
        let mut refs: Vec<u8> = Vec::new();
        let mut i: usize = 0;
        while i < DEVICE_COUNT
            invariant
                i <= DEVICE_COUNT,
                self.refs@.len() == DEVICE_COUNT,
                refs@ == self.refs@.subrange(0, i as int),
            decreases DEVICE_COUNT - i,
        {
            refs.push(self.refs[i]);
            i = i + 1;
            proof {
                assert(refs@ =~= self.refs@.subrange(0, i as int));
            }
        }
        proof {
            assert(refs@ =~= self.refs@);
        }
        ClockState { refs, wifi_initialized: self.wifi_initialized }
    }
}

} // verus!

verus! {

/// The two front end devices are only ever turned on: releasing them writes nothing, whatever
/// the Wi-Fi status.
pub proof fn lemma_front_end_never_gated(wi: bool)
    ensures
        configure_ops(Device::ModemAdcCommonFe, false, wi) == Seq::<ClockOp>::empty(),
        configure_ops(Device::ModemPrivateFe, false, wi) == Seq::<ClockOp>::empty(),
{
}

/// Ungating the Wi-Fi baseband pulses its reset (set, then cleared) before its clocks go on.
pub proof fn lemma_baseband_reset_before_clocks(wi: bool)
    ensures
        configure_ops(Device::WifiBb, true, wi) == seq![
            ClockOp::WifiBbReset(true),
            ClockOp::WifiBbReset(false),
            ClockOp::WifiBbClocks(true),
        ],
{
}

} // verus!

verus! {

/// The counts after a history of calls, each switching a module on (`true`) or off.
pub open spec fn run(refs: Seq<u8>, h: Seq<(Module, bool)>) -> Seq<u8>
    decreases h.len(),
{
    if h.len() == 0 {
        refs
    } else {
        next_refs(run(refs, h.drop_last()), h.last().0, h.last().1)
    }
}

/// Every call of the history keeps the counts in range.
pub open spec fn run_ok(refs: Seq<u8>, h: Seq<(Module, bool)>) -> bool
    decreases h.len(),
{
    if h.len() == 0 {
        true
    } else {
        run_ok(refs, h.drop_last()) && can_control(
            run(refs, h.drop_last()),
            h.last().0,
            h.last().1,
        )
    }
}

/// How much the history changes the count of the device at `i`: one up for each call that
/// acquires it, one down for each that releases it.
pub open spec fn net(h: Seq<(Module, bool)>, i: int) -> int
    decreases h.len(),
{
    if h.len() == 0 {
        0
    } else {
        let d = Device::at(i);
        net(h.drop_last(), i) + if h.last().0.contains(d) && d.counted_spec() {
            if h.last().1 {
                1int
            } else {
                -1int
            }
        } else {
            0int
        }
    }
}

/// The counts follow the history: each is its old value plus the acquires minus the releases
/// of its device.
pub proof fn lemma_counts_track_history(refs: Seq<u8>, h: Seq<(Module, bool)>)
    requires
        refs.len() == DEVICE_COUNT,
        run_ok(refs, h),
    ensures
        run(refs, h).len() == DEVICE_COUNT,
        forall|i: int| 0 <= i < DEVICE_COUNT ==> #[trigger] run(refs, h)[i] == refs[i] + net(h, i),
    decreases h.len(),
{
    if h.len() > 0 {
        lemma_counts_track_history(refs, h.drop_last());
        let prev = run(refs, h.drop_last());
        assert forall|i: int| 0 <= i < DEVICE_COUNT implies #[trigger] run(refs, h)[i] == refs[i]
            + net(h, i) by {
            assert(prev[i] == refs[i] + net(h.drop_last(), i));
            let d = Device::at(i);
            if h.last().0.contains(d) && d.counted_spec() {
                assert(if h.last().1 {
                    prev[i] < 255
                } else {
                    prev[i] > 0
                });
            }
        }
    }
}

/// No call of the history releases the device at `i`.
pub open spec fn no_release(h: Seq<(Module, bool)>, i: int) -> bool {
    forall|k: int|
        0 <= k < h.len() ==> !(!(#[trigger] h[k]).1 && h[k].0.contains(Device::at(i))
            && Device::at(i).counted_spec())
}

/// A history that releases a device never lowers its count.
pub proof fn lemma_no_release_net(h: Seq<(Module, bool)>, i: int)
    requires
        no_release(h, i),
    ensures
        net(h, i) >= 0,
    decreases h.len(),
{
    if h.len() > 0 {
        assert forall|k: int| 0 <= k < h.drop_last().len() implies !(!(#[trigger] h.drop_last()[k]).1
            && h.drop_last()[k].0.contains(Device::at(i)) && Device::at(i).counted_spec()) by {
            assert(h.drop_last()[k] == h[k]);
        }
        lemma_no_release_net(h.drop_last(), i);
        assert(h.last() == h[h.len() - 1]);
    }
}

/// A device that two users acquired, and that no call since has released, stays ungated when
/// one of the two releases it, whatever else was switched in between: that release writes
/// nothing for it, and leaves it held.
pub proof fn lemma_other_holder_keeps_device(
    r0: Seq<u8>,
    a: Module,
    b: Module,
    mid: Seq<(Module, bool)>,
    i: int,
    wi: bool,
)
    requires
        r0.len() == DEVICE_COUNT,
        0 <= i < DEVICE_COUNT,
        Device::at(i).counted_spec(),
        a.contains(Device::at(i)),
        b.contains(Device::at(i)),
        run_ok(r0, seq![(a, true), (b, true)] + mid),
        no_release(mid, i),
    ensures
        run(r0, seq![(a, true), (b, true)] + mid)[i] >= 2,
        device_ops(run(r0, seq![(a, true), (b, true)] + mid), a, false, wi, i) == Seq::<
            ClockOp,
        >::empty(),
        next_refs(run(r0, seq![(a, true), (b, true)] + mid), a, false)[i] >= 1,
{
    let h = seq![(a, true), (b, true)] + mid;
    lemma_no_release_net(mid, i);
    lemma_net_append(seq![(a, true), (b, true)], mid, i);
    lemma_net_two_acquires(a, b, i);
    lemma_counts_track_history(r0, h);
}

/// The change that two calls, each acquiring its module, make to the count of the device at
/// `i`: one for each module that holds it.
pub proof fn lemma_net_two_acquires(a: Module, b: Module, i: int)
    ensures
        net(seq![(a, true), (b, true)], i) == (if a.contains(Device::at(i))
            && Device::at(i).counted_spec() {
            1int
        } else {
            0int
        }) + (if b.contains(Device::at(i)) && Device::at(i).counted_spec() {
            1int
        } else {
            0int
        }),
        net(seq![(a, true)], i) == (if a.contains(Device::at(i)) && Device::at(i).counted_spec() {
            1int
        } else {
            0int
        }),
{
    let h = seq![(a, true), (b, true)];
    let one = seq![(a, true)];
    assert(h.drop_last() == one);
    assert(h.last() == (b, true));
    assert(one.drop_last() == Seq::<(Module, bool)>::empty());
    assert(one.last() == (a, true));
    assert(net(Seq::<(Module, bool)>::empty(), i) == 0);
    let ea: int = if a.contains(Device::at(i)) && Device::at(i).counted_spec() {
        1int
    } else {
        0int
    };
    let eb: int = if b.contains(Device::at(i)) && Device::at(i).counted_spec() {
        1int
    } else {
        0int
    };
    assert(net(one, i) == ea);
    assert(net(h, i) == ea + eb);
}

/// The change a history makes to a count is the sum of the changes of its parts.
pub proof fn lemma_net_append(x: Seq<(Module, bool)>, y: Seq<(Module, bool)>, i: int)
    ensures
        net(x + y, i) == net(x, i) + net(y, i),
    decreases y.len(),
{
    if y.len() == 0 {
        assert(x + y == x);
    } else {
        assert((x + y).drop_last() == x + y.drop_last());
        assert((x + y).last() == y.last());
        lemma_net_append(x, y.drop_last(), i);
    }
}

} // verus!

verus! {

/// Enabling a device writes the same registers whatever the Wi-Fi status, and always writes
/// something: the Wi-Fi status only ever holds back a release. In particular enabling a Wi-Fi
/// clock switches that clock on.
pub proof fn lemma_enable_ignores_wifi_status(d: Device, wi: bool)
    ensures
        configure_ops(d, true, wi) == configure_ops(d, true, false),
        configure_ops(d, true, wi).len() > 0,
        configure_ops(Device::WifiMac, true, wi).contains(ClockOp::WifiMac(true)),
        configure_ops(Device::WifiApb, true, wi).contains(ClockOp::WifiApb(true)),
        configure_ops(Device::WifiBb44m, true, wi).contains(ClockOp::WifiBb44m(true)),
        configure_ops(Device::WifiBb80x1, true, wi).contains(ClockOp::WifiBb80x1(true)),
        configure_ops(Device::WifiBb, true, wi).contains(ClockOp::WifiBbClocks(true)),
        configure_ops(Device::Coexist, true, wi).contains(ClockOp::Coexist(true)),
{
    assert(configure_ops(Device::WifiMac, true, wi)[0] == ClockOp::WifiMac(true));
    assert(configure_ops(Device::WifiApb, true, wi)[0] == ClockOp::WifiApb(true));
    assert(configure_ops(Device::WifiBb44m, true, wi)[0] == ClockOp::WifiBb44m(true));
    assert(configure_ops(Device::WifiBb80x1, true, wi)[0] == ClockOp::WifiBb80x1(true));
    assert(configure_ops(Device::WifiBb, true, wi)[2] == ClockOp::WifiBbClocks(true));
    assert(configure_ops(Device::Coexist, true, wi)[0] == ClockOp::Coexist(true));
}

/// Without Wi-Fi initialized, releasing a Wi-Fi clock switches that clock off; with it
/// initialized, nothing is written for it.
pub proof fn lemma_wifi_release_depends_on_status(wi: bool)
    ensures
        !wi ==> configure_ops(Device::WifiMac, false, wi) == seq![ClockOp::WifiMac(false)],
        !wi ==> configure_ops(Device::WifiApb, false, wi) == seq![ClockOp::WifiApb(false)],
        !wi ==> configure_ops(Device::WifiBb, false, wi) == seq![ClockOp::WifiBbClocks(false)],
        wi ==> configure_ops(Device::WifiMac, false, wi).len() == 0,
        wi ==> configure_ops(Device::WifiApb, false, wi).len() == 0,
        wi ==> configure_ops(Device::WifiBb, false, wi).len() == 0,
{
}

} // verus!
