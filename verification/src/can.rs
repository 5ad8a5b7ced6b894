use vstd::prelude::*;

verus! {

/// Operating mode of the controller.
#[derive(Clone, Copy, Debug, PartialEq, Eq, Structural)]
pub enum CanMode {
    NormalMode,
    SilentMode,
    LoopBackMode,
    LoopBackSilentMode,
}

/// Standard (11-bit) or extended (29-bit) identifier.
#[derive(Clone, Copy, Debug, PartialEq, Eq, Structural)]
pub enum IdType {
    Standard,
    Extended,
}

#[derive(Clone, Copy, Debug, PartialEq, Eq, Structural)]
pub enum AutomaticRetransmission {
    Enabled,
    Disabled,
}

#[derive(Clone, Copy, Debug, PartialEq, Eq, Structural)]
pub enum AutomaticBussOffManagement {
    Enabled,
    Disabled,
}

#[derive(Clone, Copy, Debug, PartialEq, Eq, Structural)]
pub enum AutomaticWakeUpMode {
    Enabled,
    Disabled,
}

/// Error conditions that the interrupt handler reports.
#[derive(Clone, Copy, Debug, PartialEq, Eq, Structural)]
pub enum ErrorState {
    BussOff,
    ErrorPassive,
    Warning,
    NoError,
}

#[derive(Clone, Copy, Debug, PartialEq, Eq, Structural)]
pub enum BitRate {
    _1Mbs,
    _500Kbs,
    _100Kbs,
}

#[derive(Clone, Copy, Debug, PartialEq, Eq, Structural)]
pub enum FilterMode {
    MaskMode,
    ListMode,
}

#[derive(Clone, Copy, Debug, PartialEq, Eq, Structural)]
pub enum FilterScaleConfiguration {
    _32BitSingleConfig,
    _16BitDualConfig,
}

/// One acceptance filter bank.
#[derive(Clone, Copy, Debug, PartialEq, Eq, Structural)]
pub struct Filter {
    pub mode: FilterMode,
    pub scale_config: FilterScaleConfiguration,
    pub id_or_mask: u32,
    pub enable: bool,
    pub id_type: IdType,
    pub rtr: bool,
}

/// Parameters of the controller; `pclk_Hz` is the peripheral clock in hertz.
#[allow(non_snake_case)]
#[derive(Clone, Copy, Debug, PartialEq, Eq, Structural)]
pub struct CanParams {
    pub work_mode: CanMode,
    pub automatic_retransmission: AutomaticRetransmission,
    pub automatic_busoff_management: AutomaticBussOffManagement,
    pub auto_wake_up: AutomaticWakeUpMode,
    pub pclk_Hz: u32,
    pub bitrate: BitRate,
}

/// A status flag of the master status register that initialisation waits on.
#[derive(Clone, Copy, Debug, PartialEq, Eq, Structural)]
pub enum WaitCondition {
    /// MSR.INAK set: the controller entered initialisation mode.
    InitAckSet,
    /// MSR.SLAK clear: the controller left sleep mode.
    SleepAckClear,
    /// MSR.INAK clear: the controller left initialisation mode.
    InitAckClear,
}

/// An interrupt source of the interrupt enable register.
#[derive(Clone, Copy, Debug, PartialEq, Eq, Structural)]
pub enum CanInterrupt {
    Errie,
    Bofie,
    Epvie,
    Ewgie,
    Lecie,
    Fmpie0,
    Fmpie1,
    Tmeie,
}

/// One step of the register programme that brings the controller up.
#[derive(Clone, Copy, Debug, PartialEq, Eq, Structural)]
pub enum RegisterOp {
    /// Set (`true`) or clear MCR.INRQ.
    RequestInit(bool),
    /// Clear MCR.SLEEP.
    ClearSleep,
    /// Poll MSR until the condition holds, giving up after `WAIT_POLLS` misses.
    WaitFor(WaitCondition),
    /// MCR.ABOM.
    AutoBusOff(bool),
    /// MCR.NART.
    NoAutoRetransmit(bool),
    /// MCR.AWUM.
    AutoWakeUp(bool),
    /// BTR.LBKM and BTR.SILM.
    TestMode { loopback: bool, silent: bool },
    /// BTR.SJW, BTR.TS1, BTR.TS2 and BTR.BRP.
    BitTiming { sjw: u8, ts1: u8, ts2: u8, brp: u16 },
    /// BTR.BRP alone.
    Prescaler(u16),
    /// One bit of IER.
    Interrupt { source: CanInterrupt, enabled: bool },
    /// Set (`true`) or clear FMR.FINIT.
    FilterInit(bool),
    /// FA1R becomes `update_reg_by_bit_pos(FA1R, pos, val)`.
    FilterActivation { pos: u32, val: u32 },
    /// FS1R becomes `update_reg_by_bit_pos(FS1R, pos, val)`.
    FilterScale { pos: u32, val: u32 },
    /// FM1R becomes `update_reg_by_bit_pos(FM1R, pos, val)`.
    FilterModeSelect { pos: u32, val: u32 },
    /// FR1 and FR2 of filter bank `bank` both receive `value`.
    FilterBank { bank: usize, value: u32 },
}

/// How many times a wait of the initialisation polls a status flag that is not
/// yet as wanted before it gives up.
pub const WAIT_POLLS: u32 = 1_000_000;

/// One missed poll of a wait: the remaining budget after it, or `None` when the
/// wait gives up.
pub fn wait_tick(remaining: u32) -> (next: Option<u32>)
    requires
        remaining >= 1,
    ensures
        remaining == 1 ==> next is None,
        remaining > 1 ==> next == Some((remaining - 1) as u32),
{
    let left = remaining - 1;
    if left == 0 {
        None
    } else {
        Some(left)
    }
}

/// BTR.LBKM and BTR.SILM for a mode.
pub open spec fn test_mode(mode: CanMode) -> RegisterOp {
    match mode {
        CanMode::LoopBackMode => RegisterOp::TestMode { loopback: true, silent: false },
        CanMode::LoopBackSilentMode => RegisterOp::TestMode { loopback: true, silent: true },
        CanMode::SilentMode => RegisterOp::TestMode { loopback: false, silent: true },
        CanMode::NormalMode => RegisterOp::TestMode { loopback: false, silent: false },
    }
}

/// The bit timing fields for a bit rate.
pub open spec fn bit_timing(rate: BitRate) -> RegisterOp {
    match rate {
        BitRate::_1Mbs => RegisterOp::BitTiming { sjw: 1, ts1: 2, ts2: 3, brp: 0 },
        BitRate::_500Kbs => RegisterOp::BitTiming { sjw: 3, ts1: 4, ts2: 1, brp: 0 },
        BitRate::_100Kbs => RegisterOp::BitTiming { sjw: 4, ts1: 3, ts2: 1, brp: 0 },
    }
}

/// The baud rate prescaler: one less than the peripheral clock in units of 8 MHz.
pub open spec fn prescaler(pclk_hz: u32) -> u16 {
    (pclk_hz / 8_000_000 - 1) as u16
}

/// The register programme of the controller itself, before the filters.
pub open spec fn controller_ops(p: CanParams) -> Seq<RegisterOp> {
    seq![
        RegisterOp::RequestInit(true),
        RegisterOp::WaitFor(WaitCondition::InitAckSet),
        RegisterOp::ClearSleep,
        RegisterOp::WaitFor(WaitCondition::SleepAckClear),
        RegisterOp::AutoBusOff(p.automatic_busoff_management == AutomaticBussOffManagement::Enabled),
        RegisterOp::NoAutoRetransmit(p.automatic_retransmission == AutomaticRetransmission::Disabled),
        RegisterOp::AutoWakeUp(p.auto_wake_up == AutomaticWakeUpMode::Enabled),
        test_mode(p.work_mode),
        bit_timing(p.bitrate),
        RegisterOp::Prescaler(prescaler(p.pclk_Hz)),
        RegisterOp::Interrupt { source: CanInterrupt::Errie, enabled: false },
        RegisterOp::Interrupt { source: CanInterrupt::Bofie, enabled: false },
        RegisterOp::Interrupt { source: CanInterrupt::Epvie, enabled: false },
        RegisterOp::Interrupt { source: CanInterrupt::Ewgie, enabled: false },
        RegisterOp::Interrupt { source: CanInterrupt::Lecie, enabled: false },
        RegisterOp::Interrupt { source: CanInterrupt::Fmpie0, enabled: true },
        RegisterOp::Interrupt { source: CanInterrupt::Fmpie1, enabled: true },
        RegisterOp::Interrupt { source: CanInterrupt::Tmeie, enabled: true },
        RegisterOp::RequestInit(false),
        RegisterOp::WaitFor(WaitCondition::InitAckClear),
    ]
}

/// The value written to both registers of a filter bank: the identifier or mask
/// from bit 3, the extended-identifier flag at bit 2 and the remote flag at bit 1.
pub open spec fn filter_bank_value(f: Filter) -> u32 {
    (f.id_or_mask << 3u32) | (if f.id_type == IdType::Extended { 4u32 } else { 0u32 }) | (if f.rtr {
        2u32
    } else {
        0u32
    })
}

/// The register steps for filter `f` in bank `i`. The first activation update
/// carries the enable flag with bit 0 cleared, which is always 0.
pub open spec fn filter_steps(f: Filter, i: nat) -> Seq<RegisterOp> {
    seq![
        RegisterOp::FilterActivation { pos: i as u32, val: 0 },
        RegisterOp::FilterScale {
            pos: i as u32,
            val: if f.scale_config == FilterScaleConfiguration::_32BitSingleConfig { 1 } else { 0 },
        },
        RegisterOp::FilterModeSelect {
            pos: i as u32,
            val: if f.mode == FilterMode::ListMode { 1 } else { 0 },
        },
        RegisterOp::FilterBank { bank: i as usize, value: filter_bank_value(f) },
        RegisterOp::FilterActivation { pos: i as u32, val: if f.enable { 1 } else { 0 } },
    ]
}

/// The steps of the first `n` filters, in order.
pub open spec fn filters_steps(fs: Seq<Filter>, n: nat) -> Seq<RegisterOp>
    decreases n,
{
    if n == 0 {
        Seq::empty()
    } else {
        filters_steps(fs, (n - 1) as nat) + filter_steps(fs[n - 1], (n - 1) as nat)
    }
}

/// The filter programme: only between 1 and 13 filters are programmed, inside
/// filter initialisation mode; otherwise the filters are left alone.
pub open spec fn filter_programme(fs: Seq<Filter>) -> Seq<RegisterOp> {
    if 0 < fs.len() < 14 {
        seq![RegisterOp::FilterInit(true)] + filters_steps(fs, fs.len()) + seq![RegisterOp::FilterInit(false)]
    } else {
        Seq::empty()
    }
}

/// The whole register programme of the initialisation.
pub open spec fn init_ops(p: CanParams, fs: Seq<Filter>) -> Seq<RegisterOp> {
    controller_ops(p) + filter_programme(fs)
}

/// The driver's own state: which transmit mailboxes are free, and whether the
/// last interrupt delivered a frame.
#[derive(Clone, Copy, Debug)]
pub struct Can {
    pub available_tx_mailbox: [bool; 3],
    pub receive_flag: bool,
}

fn push_controller_ops(ops: &mut Vec<RegisterOp>, can_params: &CanParams)
    requires
        old(ops)@.len() == 0,
        can_params.pclk_Hz >= 8_000_000,
    ensures
        final(ops)@ == controller_ops(*can_params),
{
    ops.push(RegisterOp::RequestInit(true));
    ops.push(RegisterOp::WaitFor(WaitCondition::InitAckSet));
    ops.push(RegisterOp::ClearSleep);
    ops.push(RegisterOp::WaitFor(WaitCondition::SleepAckClear));
    match can_params.automatic_busoff_management {
        AutomaticBussOffManagement::Enabled => ops.push(RegisterOp::AutoBusOff(true)),
        AutomaticBussOffManagement::Disabled => ops.push(RegisterOp::AutoBusOff(false)),
    }
    match can_params.automatic_retransmission {
        AutomaticRetransmission::Enabled => ops.push(RegisterOp::NoAutoRetransmit(false)),
        AutomaticRetransmission::Disabled => ops.push(RegisterOp::NoAutoRetransmit(true)),
    }
    match can_params.auto_wake_up {
        AutomaticWakeUpMode::Enabled => ops.push(RegisterOp::AutoWakeUp(true)),
        AutomaticWakeUpMode::Disabled => ops.push(RegisterOp::AutoWakeUp(false)),
    }
    match can_params.work_mode {
        CanMode::LoopBackMode => ops.push(RegisterOp::TestMode { loopback: true, silent: false }),
        CanMode::LoopBackSilentMode => ops.push(RegisterOp::TestMode { loopback: true, silent: true }),
        CanMode::SilentMode => ops.push(RegisterOp::TestMode { loopback: false, silent: true }),
        CanMode::NormalMode => ops.push(RegisterOp::TestMode { loopback: false, silent: false }),
    }
    match can_params.bitrate {
        BitRate::_1Mbs => ops.push(RegisterOp::BitTiming { sjw: 1, ts1: 2, ts2: 3, brp: 0 }),
        BitRate::_500Kbs => ops.push(RegisterOp::BitTiming { sjw: 3, ts1: 4, ts2: 1, brp: 0 }),
        BitRate::_100Kbs => ops.push(RegisterOp::BitTiming { sjw: 4, ts1: 3, ts2: 1, brp: 0 }),
    }
    let units: u32 = can_params.pclk_Hz / 8_000_000;
    let brp: u16 = (units as u16) - 1;
    ops.push(RegisterOp::Prescaler(brp));
    ops.push(RegisterOp::Interrupt { source: CanInterrupt::Errie, enabled: false });
    ops.push(RegisterOp::Interrupt { source: CanInterrupt::Bofie, enabled: false });
    ops.push(RegisterOp::Interrupt { source: CanInterrupt::Epvie, enabled: false });
    ops.push(RegisterOp::Interrupt { source: CanInterrupt::Ewgie, enabled: false });
    ops.push(RegisterOp::Interrupt { source: CanInterrupt::Lecie, enabled: false });
    ops.push(RegisterOp::Interrupt { source: CanInterrupt::Fmpie0, enabled: true });
    ops.push(RegisterOp::Interrupt { source: CanInterrupt::Fmpie1, enabled: true });
    ops.push(RegisterOp::Interrupt { source: CanInterrupt::Tmeie, enabled: true });
    ops.push(RegisterOp::RequestInit(false));
    ops.push(RegisterOp::WaitFor(WaitCondition::InitAckClear));
    assert(ops@ =~= controller_ops(*can_params));
}

fn filter_bank_word(f: &Filter) -> (v: u32)
    ensures
        v == filter_bank_value(*f),
{
    let id_or_mask: u32;
    match f.id_type {
        IdType::Standard => id_or_mask = (f.id_or_mask << 3u32) | (0x00u32 << 2u32) | ((if f.rtr {
            1u32
        } else {
            0u32
        }) << 1u32),
        IdType::Extended => id_or_mask = (f.id_or_mask << 3u32) | (0x01u32 << 2u32) | ((if f.rtr {
            1u32
        } else {
            0u32
        }) << 1u32),
    }
    let m = f.id_or_mask;
    assert((m << 3u32) | (0x00u32 << 2u32) | (1u32 << 1u32) == (m << 3u32) | 0u32 | 2u32) by (bit_vector);
    assert((m << 3u32) | (0x00u32 << 2u32) | (0u32 << 1u32) == (m << 3u32) | 0u32 | 0u32) by (bit_vector);
    assert((m << 3u32) | (0x01u32 << 2u32) | (1u32 << 1u32) == (m << 3u32) | 4u32 | 2u32) by (bit_vector);
    assert((m << 3u32) | (0x01u32 << 2u32) | (0u32 << 1u32) == (m << 3u32) | 4u32 | 0u32) by (bit_vector);
    id_or_mask
}

fn push_filter_steps(ops: &mut Vec<RegisterOp>, f: &Filter, i: usize)
    requires
        i < 14,
    ensures
        final(ops)@ == old(ops)@ + filter_steps(*f, i as nat),
{
    let pos = i as u32;
    let enable_bit: u32 = if f.enable { 1 } else { 0 };
    let first = enable_bit & 0xFFFF_FFFEu32;
    assert(first == 0) by (bit_vector)
        requires
            enable_bit <= 1,
            first == enable_bit & 0xFFFF_FFFEu32,
    ;
    ops.push(RegisterOp::FilterActivation { pos, val: first });
    match f.scale_config {
        FilterScaleConfiguration::_16BitDualConfig => ops.push(RegisterOp::FilterScale { pos, val: 0x00 }),
        FilterScaleConfiguration::_32BitSingleConfig => ops.push(RegisterOp::FilterScale { pos, val: 0x01 }),
    }
    match f.mode {
        FilterMode::MaskMode => ops.push(RegisterOp::FilterModeSelect { pos, val: 0x00 }),
        FilterMode::ListMode => ops.push(RegisterOp::FilterModeSelect { pos, val: 0x01 }),
    }
    let value = filter_bank_word(f);
    ops.push(RegisterOp::FilterBank { bank: i, value });
    ops.push(RegisterOp::FilterActivation { pos, val: enable_bit });
    assert(final(ops)@ =~= old(ops)@ + filter_steps(*f, i as nat));
}

impl Can {
    /// Computes the register programme that brings the controller up with
    /// `can_params` and, when there are between 1 and 13 of them, the filters;
    /// the driver starts with every transmit mailbox free and no frame received.
    pub fn new(can_params: CanParams, filters: &[Filter]) -> (res: (Can, Vec<RegisterOp>))
        requires
            can_params.pclk_Hz >= 8_000_000,
        ensures
            res.0.available_tx_mailbox@ == seq![true, true, true],
            !res.0.receive_flag,
            res.1@ == init_ops(can_params, filters@),
    {
        let mut ops: Vec<RegisterOp> = Vec::new();
        push_controller_ops(&mut ops, &can_params);
        let ghost head = ops@;
        if filters.len() > 0 && filters.len() < 14 {
            ops.push(RegisterOp::FilterInit(true));
            let mut i: usize = 0;
            while i < filters.len()
                invariant
                    0 < filters.len() < 14,
                    i <= filters.len(),
                    head == controller_ops(can_params),
                    ops@ == head + seq![RegisterOp::FilterInit(true)] + filters_steps(filters@, i as nat),
                decreases filters.len() - i,
            {
                push_filter_steps(&mut ops, &filters[i], i);
                proof {
                    assert(filters_steps(filters@, (i + 1) as nat) == filters_steps(filters@, i as nat)
                        + filter_steps(filters@[i as int], i as nat));
                    assert(ops@ =~= head + seq![RegisterOp::FilterInit(true)] + filters_steps(filters@, (i + 1) as nat));
                }
                i = i + 1;
            }
            ops.push(RegisterOp::FilterInit(false));
            assert(ops@ =~= init_ops(can_params, filters@));
        } else {
            assert(ops@ =~= init_ops(can_params, filters@));
        }
        (Can { available_tx_mailbox: [true, true, true], receive_flag: false }, ops)
    }
}

/// Whether a register step touches only filter banks below 14.
pub open spec fn touches_banks_below_14(op: RegisterOp) -> bool {
    match op {
        RegisterOp::FilterActivation { pos, val: _ } => pos < 14,
        RegisterOp::FilterScale { pos, val: _ } => pos < 14,
        RegisterOp::FilterModeSelect { pos, val: _ } => pos < 14,
        RegisterOp::FilterBank { bank, value: _ } => bank < 14,
        _ => true,
    }
}

proof fn lemma_filters_steps_banks(fs: Seq<Filter>, n: nat)
    requires
        n < 14,
    ensures
        forall|j: int| 0 <= j < filters_steps(fs, n).len() ==> touches_banks_below_14(
            #[trigger] filters_steps(fs, n)[j]),
        filters_steps(fs, n).len() == 5 * n,
    decreases n,
{
    if n > 0 {
        lemma_filters_steps_banks(fs, (n - 1) as nat);
        let a = filters_steps(fs, (n - 1) as nat);
        let b = filter_steps(fs[n - 1], (n - 1) as nat);
        assert forall|j: int| 0 <= j < (a + b).len() implies touches_banks_below_14(#[trigger] (a + b)[j]) by {
            if j < a.len() {
                assert((a + b)[j] == a[j]);
            } else {
                assert((a + b)[j] == b[j - a.len()]);
            }
        }
    }
}

/// Every filter step of the initialisation names a bank below 14, so every
/// register update it asks for shifts by less than 32 and every bank it writes
/// exists.
pub proof fn lemma_init_filter_banks(p: CanParams, fs: Seq<Filter>)
    ensures
        forall|j: int| 0 <= j < init_ops(p, fs).len() ==> touches_banks_below_14(#[trigger] init_ops(p, fs)[j]),
{
    let c = controller_ops(p);
    let f = filter_programme(fs);
    assert forall|j: int| 0 <= j < c.len() implies touches_banks_below_14(#[trigger] c[j]) by {}
    if 0 < fs.len() < 14 {
        lemma_filters_steps_banks(fs, fs.len());
        let mid = filters_steps(fs, fs.len());
        assert forall|j: int| 0 <= j < f.len() implies touches_banks_below_14(#[trigger] f[j]) by {
            if j == 0 {
            } else if j < 1 + mid.len() {
                assert(f[j] == mid[j - 1]);
            } else {
            }
        }
    }
    assert forall|j: int| 0 <= j < init_ops(p, fs).len() implies touches_banks_below_14(
        #[trigger] init_ops(p, fs)[j]) by {
        if j < c.len() {
            assert(init_ops(p, fs)[j] == c[j]);
        } else {
            assert(init_ops(p, fs)[j] == f[j - c.len()]);
        }
    }
}


/// Whether a step is a write of the interrupt enable register.
pub open spec fn is_interrupt_step(op: RegisterOp) -> bool {
    op is Interrupt
}

proof fn lemma_filters_steps_no_interrupt(fs: Seq<Filter>, n: nat)
    ensures
        forall|j: int| 0 <= j < filters_steps(fs, n).len() ==> !is_interrupt_step(#[trigger] filters_steps(fs, n)[j]),
    decreases n,
{
    if n > 0 {
        lemma_filters_steps_no_interrupt(fs, (n - 1) as nat);
        let a = filters_steps(fs, (n - 1) as nat);
        let b = filter_steps(fs[n - 1], (n - 1) as nat);
        assert forall|j: int| 0 <= j < (a + b).len() implies !is_interrupt_step(#[trigger] (a + b)[j]) by {
            if j < a.len() {
                assert((a + b)[j] == a[j]);
            } else {
                assert((a + b)[j] == b[j - a.len()]);
            }
        }
    }
}

/// Whether an interrupt source is one the controller runs with: the
/// message-pending interrupts of both receive FIFOs and the transmit-mailbox-empty
/// interrupt, and none of the five error interrupts.
pub open spec fn runs_enabled(source: CanInterrupt) -> bool {
    source == CanInterrupt::Fmpie0 || source == CanInterrupt::Fmpie1 || source == CanInterrupt::Tmeie
}

/// Whether a step, if it writes an interrupt enable bit, enables exactly the
/// sources the controller runs with.
pub open spec fn interrupt_step_as_run(op: RegisterOp) -> bool {
    match op {
        RegisterOp::Interrupt { source, enabled } => enabled == runs_enabled(source),
        _ => true,
    }
}

/// The initialisation enables the message-pending interrupts of both receive
/// FIFOs and the transmit-mailbox-empty interrupt and disables the five error
/// interrupts: every interrupt step enables its source exactly when that source
/// is FMPIE0, FMPIE1 or TMEIE, and every source gets such a step.
pub proof fn lemma_init_interrupts(p: CanParams, fs: Seq<Filter>)
    ensures
        forall|j: int| 0 <= j < init_ops(p, fs).len() ==> interrupt_step_as_run(#[trigger] init_ops(p, fs)[j]),
        forall|source: CanInterrupt|
            #![trigger runs_enabled(source)]
            exists|j: int|
                0 <= j < init_ops(p, fs).len() && #[trigger] init_ops(p, fs)[j] == (RegisterOp::Interrupt {
                    source,
                    enabled: runs_enabled(source),
                }),
{
    let c = controller_ops(p);
    let f = filter_programme(fs);
    let ops = init_ops(p, fs);
    assert(ops == c + f);
    lemma_filters_steps_no_interrupt(fs, fs.len());
    assert forall|j: int| 0 <= j < f.len() implies !is_interrupt_step(#[trigger] f[j]) by {
        if 0 < fs.len() < 14 {
            let mid = filters_steps(fs, fs.len());
            if j == 0 {
            } else if j < 1 + mid.len() {
                assert(f[j] == mid[j - 1]);
            } else {
            }
        }
    }
    assert forall|j: int| 0 <= j < ops.len() implies interrupt_step_as_run(#[trigger] ops[j]) by {
        if j < c.len() {
            assert(ops[j] == c[j]);
        } else {
            assert(ops[j] == f[j - c.len()]);
            assert(!is_interrupt_step(f[j - c.len()]));
        }
    }
    assert forall|source: CanInterrupt|
        #![trigger runs_enabled(source)]
        exists|j: int|
            0 <= j < ops.len() && #[trigger] ops[j] == (RegisterOp::Interrupt { source, enabled: runs_enabled(source) }) by {
        let j: int = match source {
            CanInterrupt::Errie => 10,
            CanInterrupt::Bofie => 11,
            CanInterrupt::Epvie => 12,
            CanInterrupt::Ewgie => 13,
            CanInterrupt::Lecie => 14,
            CanInterrupt::Fmpie0 => 15,
            CanInterrupt::Fmpie1 => 16,
            CanInterrupt::Tmeie => 17,
        };
        assert(ops[j] == c[j]);
    }
}

/// The word written to a filter bank holds the identifier or mask from bit 3
/// (its low 29 bits), the extended-identifier flag at bit 2, the remote-frame
/// flag at bit 1 and 0 at bit 0, each independently of the others.
pub proof fn lemma_filter_bank_value_fields(f: Filter)
    ensures
        filter_bank_value(f) & 1 == 0,
        (filter_bank_value(f) >> 1u32) & 1 == (if f.rtr { 1u32 } else { 0u32 }),
        (filter_bank_value(f) >> 2u32) & 1 == (if f.id_type == IdType::Extended { 1u32 } else { 0u32 }),
        filter_bank_value(f) >> 3u32 == f.id_or_mask & 0x1FFF_FFFF,
{
    let v = filter_bank_value(f);
    let m = f.id_or_mask;
    let e: u32 = if f.id_type == IdType::Extended { 4u32 } else { 0u32 };
    let r: u32 = if f.rtr { 2u32 } else { 0u32 };
    assert(v == (m << 3u32) | e | r);
    assert(v & 1 == 0 && (v >> 1u32) & 1 == r / 2 && (v >> 2u32) & 1 == e / 4 && v >> 3u32 == m & 0x1FFF_FFFF)
        by (bit_vector)
        requires
            v == (m << 3u32) | e | r,
            e == 0 || e == 4,
            r == 0 || r == 2,
    ;
}


/// Whether a step belongs to the filter programme.
pub open spec fn is_filter_programme_step(op: RegisterOp) -> bool {
    ||| op is FilterInit
    ||| op is FilterActivation
    ||| op is FilterScale
    ||| op is FilterModeSelect
    ||| op is FilterBank
}

proof fn lemma_filter_programme_steps(fs: Seq<Filter>)
    ensures
        forall|j: int| 0 <= j < filter_programme(fs).len() ==> is_filter_programme_step(#[trigger] filter_programme(fs)[j]),
{
    let f = filter_programme(fs);
    if 0 < fs.len() < 14 {
        lemma_filters_steps_kinds(fs, fs.len());
        let mid = filters_steps(fs, fs.len());
        assert forall|j: int| 0 <= j < f.len() implies is_filter_programme_step(#[trigger] f[j]) by {
            if j == 0 {
            } else if j < 1 + mid.len() {
                assert(f[j] == mid[j - 1]);
            } else {
            }
        }
    }
}

proof fn lemma_filters_steps_kinds(fs: Seq<Filter>, n: nat)
    ensures
        forall|j: int| 0 <= j < filters_steps(fs, n).len() ==> is_filter_programme_step(#[trigger] filters_steps(fs, n)[j]),
    decreases n,
{
    if n > 0 {
        lemma_filters_steps_kinds(fs, (n - 1) as nat);
        let a = filters_steps(fs, (n - 1) as nat);
        let b = filter_steps(fs[n - 1], (n - 1) as nat);
        assert forall|j: int| 0 <= j < (a + b).len() implies is_filter_programme_step(#[trigger] (a + b)[j]) by {
            if j < a.len() {
                assert((a + b)[j] == a[j]);
            } else {
                assert((a + b)[j] == b[j - a.len()]);
            }
        }
    }
}

/// The initialisation programme carries the parameters: it requests
/// initialisation mode first; it sets automatic bus-off management, automatic
/// wake-up and the absence of automatic retransmission as the parameters ask,
/// loopback for the two loopback modes and silence for the two silent modes, a
/// prescaler one less than the peripheral clock in units of 8 MHz, and the bit
/// timing of the bit rate; and it writes each of these once, with no other value.
pub proof fn lemma_init_controller_settings(p: CanParams, fs: Seq<Filter>)
    requires
        p.pclk_Hz >= 8_000_000,
    ensures
        init_ops(p, fs)[0] == RegisterOp::RequestInit(true),
        forall|x: bool|
            #[trigger] init_ops(p, fs).contains(RegisterOp::AutoBusOff(x)) <==> x == (p.automatic_busoff_management
                == AutomaticBussOffManagement::Enabled),
        forall|x: bool|
            #[trigger] init_ops(p, fs).contains(RegisterOp::NoAutoRetransmit(x)) <==> x == (
            p.automatic_retransmission == AutomaticRetransmission::Disabled),
        forall|x: bool|
            #[trigger] init_ops(p, fs).contains(RegisterOp::AutoWakeUp(x)) <==> x == (p.auto_wake_up
                == AutomaticWakeUpMode::Enabled),
        forall|l: bool, q: bool|
            #[trigger] init_ops(p, fs).contains(RegisterOp::TestMode { loopback: l, silent: q }) <==> (l == (
            p.work_mode == CanMode::LoopBackMode || p.work_mode == CanMode::LoopBackSilentMode) && q == (p.work_mode
                == CanMode::SilentMode || p.work_mode == CanMode::LoopBackSilentMode)),
        forall|b: u16|
            #[trigger] init_ops(p, fs).contains(RegisterOp::Prescaler(b)) <==> b as int == p.pclk_Hz / 8_000_000 - 1,
        forall|a: u8, b: u8, c: u8, d: u16|
            #[trigger] init_ops(p, fs).contains(RegisterOp::BitTiming { sjw: a, ts1: b, ts2: c, brp: d }) <==> ((
            p.bitrate == BitRate::_1Mbs && a == 1 && b == 2 && c == 3 && d == 0) || (p.bitrate == BitRate::_500Kbs
                && a == 3 && b == 4 && c == 1 && d == 0) || (p.bitrate == BitRate::_100Kbs && a == 4 && b == 3 && c
                == 1 && d == 0)),
{
    let c = controller_ops(p);
    let f = filter_programme(fs);
    let ops = init_ops(p, fs);
    assert(ops == c + f);
    lemma_filter_programme_steps(fs);
    assert(ops[0] == c[0]);
    assert forall|j: int|
        0 <= j < 20 implies (j == 4 || !(#[trigger] c[j] is AutoBusOff)) && (j == 5 || !(c[j] is NoAutoRetransmit)) && (
        j == 6 || !(c[j] is AutoWakeUp)) && (j == 7 || !(c[j] is TestMode)) && (j == 8 || !(c[j] is BitTiming)) && (j
        == 9 || !(c[j] is Prescaler)) by {
        if j < 4 {
        } else if j < 10 {
        } else if j < 14 {
        } else if j < 17 {
        } else {
        }
    }
    assert forall|j: int| 0 <= j < ops.len() && j >= 20 implies is_filter_programme_step(#[trigger] ops[j]) by {
        assert(ops[j] == f[j - 20]);
    }
    assert forall|j: int| 0 <= j < 20 implies #[trigger] ops[j] == c[j] by {}
    // each setting: the only step of its kind is the one at its position
    assert forall|x: bool| #[trigger] ops.contains(RegisterOp::AutoBusOff(x)) <==> x == (p.automatic_busoff_management
        == AutomaticBussOffManagement::Enabled) by {
        if ops.contains(RegisterOp::AutoBusOff(x)) {
            let j = choose|j: int| 0 <= j < ops.len() && ops[j] == RegisterOp::AutoBusOff(x);
            if j >= 20 {
                assert(is_filter_programme_step(ops[j]));
            } else {
                assert(c[j] is AutoBusOff);
            }
        }
        if x == (p.automatic_busoff_management == AutomaticBussOffManagement::Enabled) {
            assert(ops[4] == RegisterOp::AutoBusOff(x));
        }
    }
    assert forall|x: bool| #[trigger] ops.contains(RegisterOp::NoAutoRetransmit(x)) <==> x == (
    p.automatic_retransmission == AutomaticRetransmission::Disabled) by {
        if ops.contains(RegisterOp::NoAutoRetransmit(x)) {
            let j = choose|j: int| 0 <= j < ops.len() && ops[j] == RegisterOp::NoAutoRetransmit(x);
            if j >= 20 {
                assert(is_filter_programme_step(ops[j]));
            } else {
                assert(c[j] is NoAutoRetransmit);
            }
        }
        if x == (p.automatic_retransmission == AutomaticRetransmission::Disabled) {
            assert(ops[5] == RegisterOp::NoAutoRetransmit(x));
        }
    }
    assert forall|x: bool| #[trigger] ops.contains(RegisterOp::AutoWakeUp(x)) <==> x == (p.auto_wake_up
        == AutomaticWakeUpMode::Enabled) by {
        if ops.contains(RegisterOp::AutoWakeUp(x)) {
            let j = choose|j: int| 0 <= j < ops.len() && ops[j] == RegisterOp::AutoWakeUp(x);
            if j >= 20 {
                assert(is_filter_programme_step(ops[j]));
            } else {
                assert(c[j] is AutoWakeUp);
            }
        }
        if x == (p.auto_wake_up == AutomaticWakeUpMode::Enabled) {
            assert(ops[6] == RegisterOp::AutoWakeUp(x));
        }
    }
    assert forall|l: bool, q: bool| #[trigger] ops.contains(RegisterOp::TestMode { loopback: l, silent: q }) <==> (l == (
    p.work_mode == CanMode::LoopBackMode || p.work_mode == CanMode::LoopBackSilentMode) && q == (p.work_mode
        == CanMode::SilentMode || p.work_mode == CanMode::LoopBackSilentMode)) by {
        if ops.contains(RegisterOp::TestMode { loopback: l, silent: q }) {
            let j = choose|j: int| 0 <= j < ops.len() && ops[j] == RegisterOp::TestMode { loopback: l, silent: q };
            if j >= 20 {
                assert(is_filter_programme_step(ops[j]));
            } else {
                assert(c[j] is TestMode);
            }
        }
        if l == (p.work_mode == CanMode::LoopBackMode || p.work_mode == CanMode::LoopBackSilentMode) && q == (
        p.work_mode == CanMode::SilentMode || p.work_mode == CanMode::LoopBackSilentMode) {
            assert(ops[7] == RegisterOp::TestMode { loopback: l, silent: q });
        }
    }
    assert forall|b: u16| #[trigger] ops.contains(RegisterOp::Prescaler(b)) <==> b as int == p.pclk_Hz / 8_000_000 - 1 by {
        assert(p.pclk_Hz / 8_000_000 <= 536);
        if ops.contains(RegisterOp::Prescaler(b)) {
            let j = choose|j: int| 0 <= j < ops.len() && ops[j] == RegisterOp::Prescaler(b);
            if j >= 20 {
                assert(is_filter_programme_step(ops[j]));
            } else {
                assert(c[j] is Prescaler);
            }
        }
        if b as int == p.pclk_Hz / 8_000_000 - 1 {
            assert(ops[9] == RegisterOp::Prescaler(b));
        }
    }
    assert forall|a: u8, b: u8, cc: u8, d: u16| #[trigger] ops.contains(
        RegisterOp::BitTiming { sjw: a, ts1: b, ts2: cc, brp: d },
    ) <==> ((p.bitrate == BitRate::_1Mbs && a == 1 && b == 2 && cc == 3 && d == 0) || (p.bitrate
        == BitRate::_500Kbs && a == 3 && b == 4 && cc == 1 && d == 0) || (p.bitrate == BitRate::_100Kbs && a == 4 && b
        == 3 && cc == 1 && d == 0)) by {
        let x = RegisterOp::BitTiming { sjw: a, ts1: b, ts2: cc, brp: d };
        if ops.contains(x) {
            let j = choose|j: int| 0 <= j < ops.len() && ops[j] == x;
            if j >= 20 {
                assert(is_filter_programme_step(ops[j]));
            } else {
                assert(c[j] is BitTiming);
            }
        }
        if (p.bitrate == BitRate::_1Mbs && a == 1 && b == 2 && cc == 3 && d == 0) || (p.bitrate == BitRate::_500Kbs
            && a == 3 && b == 4 && cc == 1 && d == 0) || (p.bitrate == BitRate::_100Kbs && a == 4 && b == 3 && cc == 1
            && d == 0) {
            assert(ops[8] == x);
        }
    }
}


/// The filters are programmed inside filter initialisation mode, after the
/// controller has left its own initialisation mode: with 1 to 13 filters the
/// programme enters filter initialisation once, after every controller step,
/// writes every filter step after that, and leaves it once, as its last step;
/// with no filter or more than 13 it has no filter step at all.
pub proof fn lemma_init_filter_bracket(p: CanParams, fs: Seq<Filter>)
    ensures
        0 < fs.len() < 14 ==> {
            let ops = init_ops(p, fs);
            &&& ops[controller_ops(p).len() as int] == RegisterOp::FilterInit(true)
            &&& ops.last() == RegisterOp::FilterInit(false)
            &&& forall|j: int|
                0 <= j < ops.len() && (#[trigger] ops[j] is FilterInit) ==> (j == controller_ops(p).len() || j
                    == ops.len() - 1)
            &&& forall|j: int|
                0 <= j < ops.len() && is_filter_programme_step(#[trigger] ops[j]) ==> controller_ops(p).len() <= j
        },
        !(0 < fs.len() < 14) ==> forall|j: int|
            0 <= j < init_ops(p, fs).len() ==> !is_filter_programme_step(#[trigger] init_ops(p, fs)[j]),
        controller_ops(p)[controller_ops(p).len() - 2] == RegisterOp::RequestInit(false),
{
    let c = controller_ops(p);
    let f = filter_programme(fs);
    let ops = init_ops(p, fs);
    assert(ops == c + f);
    assert forall|j: int| 0 <= j < c.len() implies !is_filter_programme_step(#[trigger] c[j]) by {
        if j < 4 {
        } else if j < 10 {
        } else if j < 14 {
        } else if j < 17 {
        } else {
        }
    }
    if 0 < fs.len() < 14 {
        let mid = filters_steps(fs, fs.len());
        lemma_filters_steps_kinds(fs, fs.len());
        lemma_filters_steps_no_init(fs, fs.len());
        assert(ops[c.len() as int] == f[0]);
        assert(ops.last() == f.last());
        assert forall|j: int| 0 <= j < ops.len() && (#[trigger] ops[j] is FilterInit) implies (j == c.len() || j
            == ops.len() - 1) by {
            if j < c.len() {
                assert(ops[j] == c[j]);
                assert(!is_filter_programme_step(c[j]));
            } else if j > c.len() && j < ops.len() - 1 {
                assert(ops[j] == f[j - c.len()]);
                assert(f[j - c.len()] == mid[j - c.len() - 1]);
            }
        }
        assert forall|j: int| 0 <= j < ops.len() && is_filter_programme_step(#[trigger] ops[j]) implies c.len() <= j by {
            if j < c.len() {
                assert(ops[j] == c[j]);
            }
        }
    } else {
        assert(f.len() == 0);
        assert forall|j: int| 0 <= j < ops.len() implies !is_filter_programme_step(#[trigger] ops[j]) by {
            assert(ops[j] == c[j]);
        }
    }
}

proof fn lemma_filters_steps_no_init(fs: Seq<Filter>, n: nat)
    ensures
        forall|j: int| 0 <= j < filters_steps(fs, n).len() ==> !(#[trigger] filters_steps(fs, n)[j] is FilterInit),
    decreases n,
{
    if n > 0 {
        lemma_filters_steps_no_init(fs, (n - 1) as nat);
        let a = filters_steps(fs, (n - 1) as nat);
        let b = filter_steps(fs[n - 1], (n - 1) as nat);
        assert forall|j: int| 0 <= j < (a + b).len() implies !((#[trigger] (a + b)[j]) is FilterInit) by {
            if j < a.len() {
                assert((a + b)[j] == a[j]);
            } else {
                assert((a + b)[j] == b[j - a.len()]);
            }
        }
    }
}

} // verus!
