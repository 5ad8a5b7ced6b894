use stm32_can::can::{
    wait_tick, AutomaticBussOffManagement, AutomaticRetransmission, AutomaticWakeUpMode, BitRate, Can,
    CanInterrupt, CanMode, CanParams, Filter, FilterMode, FilterScaleConfiguration, IdType, RegisterOp,
    WaitCondition, WAIT_POLLS,
};

fn params() -> CanParams {
    CanParams {
        work_mode: CanMode::NormalMode,
        automatic_retransmission: AutomaticRetransmission::Enabled,
        automatic_busoff_management: AutomaticBussOffManagement::Enabled,
        auto_wake_up: AutomaticWakeUpMode::Enabled,
        pclk_Hz: 48_000_000,
        bitrate: BitRate::_1Mbs,
    }
}

fn filter(id: u32, enable: bool) -> Filter {
    Filter {
        mode: FilterMode::ListMode,
        scale_config: FilterScaleConfiguration::_32BitSingleConfig,
        id_or_mask: id,
        enable,
        id_type: IdType::Extended,
        rtr: true,
    }
}

#[test]
fn new_starts_with_free_mailboxes() {
    let (can, _) = Can::new(params(), &[]);
    assert_eq!(can.available_tx_mailbox, [true, true, true]);
    assert!(!can.receive_flag);
}

#[test]
fn new_controller_programme() {
    let (_, ops) = Can::new(params(), &[]);
    assert_eq!(ops.len(), 20);
    assert_eq!(ops[0], RegisterOp::RequestInit(true));
    assert_eq!(ops[1], RegisterOp::WaitFor(WaitCondition::InitAckSet));
    assert_eq!(ops[2], RegisterOp::ClearSleep);
    assert_eq!(ops[3], RegisterOp::WaitFor(WaitCondition::SleepAckClear));
    assert_eq!(ops[4], RegisterOp::AutoBusOff(true));
    assert_eq!(ops[5], RegisterOp::NoAutoRetransmit(false));
    assert_eq!(ops[6], RegisterOp::AutoWakeUp(true));
    assert_eq!(ops[7], RegisterOp::TestMode { loopback: false, silent: false });
    assert_eq!(ops[8], RegisterOp::BitTiming { sjw: 1, ts1: 2, ts2: 3, brp: 0 });
    assert_eq!(ops[9], RegisterOp::Prescaler(5));
    assert_eq!(ops[10], RegisterOp::Interrupt { source: CanInterrupt::Errie, enabled: false });
    assert_eq!(ops[15], RegisterOp::Interrupt { source: CanInterrupt::Fmpie0, enabled: true });
    assert_eq!(ops[17], RegisterOp::Interrupt { source: CanInterrupt::Tmeie, enabled: true });
    assert_eq!(ops[18], RegisterOp::RequestInit(false));
    assert_eq!(ops[19], RegisterOp::WaitFor(WaitCondition::InitAckClear));
}

#[test]
fn new_other_parameters() {
    let p = CanParams {
        work_mode: CanMode::LoopBackSilentMode,
        automatic_retransmission: AutomaticRetransmission::Disabled,
        automatic_busoff_management: AutomaticBussOffManagement::Disabled,
        auto_wake_up: AutomaticWakeUpMode::Disabled,
        pclk_Hz: 8_000_000,
        bitrate: BitRate::_100Kbs,
    };
    let (_, ops) = Can::new(p, &[]);
    assert_eq!(ops[4], RegisterOp::AutoBusOff(false));
    assert_eq!(ops[5], RegisterOp::NoAutoRetransmit(true));
    assert_eq!(ops[6], RegisterOp::AutoWakeUp(false));
    assert_eq!(ops[7], RegisterOp::TestMode { loopback: true, silent: true });
    assert_eq!(ops[8], RegisterOp::BitTiming { sjw: 4, ts1: 3, ts2: 1, brp: 0 });
    assert_eq!(ops[9], RegisterOp::Prescaler(0));
    let p2 = CanParams { work_mode: CanMode::SilentMode, bitrate: BitRate::_500Kbs, pclk_Hz: 24_000_000, ..p };
    let (_, ops2) = Can::new(p2, &[]);
    assert_eq!(ops2[7], RegisterOp::TestMode { loopback: false, silent: true });
    assert_eq!(ops2[8], RegisterOp::BitTiming { sjw: 3, ts1: 4, ts2: 1, brp: 0 });
    assert_eq!(ops2[9], RegisterOp::Prescaler(2));
    let p3 = CanParams { work_mode: CanMode::LoopBackMode, ..p };
    let (_, ops3) = Can::new(p3, &[]);
    assert_eq!(ops3[7], RegisterOp::TestMode { loopback: true, silent: false });
}

#[test]
fn new_programmes_filters() {
    let fs = [filter(0x123, true), Filter { mode: FilterMode::MaskMode, scale_config: FilterScaleConfiguration::_16BitDualConfig, id_or_mask: 0x7FF, enable: false, id_type: IdType::Standard, rtr: false }];
    let (_, ops) = Can::new(params(), &fs);
    assert_eq!(ops.len(), 20 + 1 + 10 + 1);
    assert_eq!(ops[20], RegisterOp::FilterInit(true));
    assert_eq!(ops[21], RegisterOp::FilterActivation { pos: 0, val: 0 });
    assert_eq!(ops[22], RegisterOp::FilterScale { pos: 0, val: 1 });
    assert_eq!(ops[23], RegisterOp::FilterModeSelect { pos: 0, val: 1 });
    assert_eq!(ops[24], RegisterOp::FilterBank { bank: 0, value: 0x91E });
    assert_eq!(ops[25], RegisterOp::FilterActivation { pos: 0, val: 1 });
    assert_eq!(ops[26], RegisterOp::FilterActivation { pos: 1, val: 0 });
    assert_eq!(ops[27], RegisterOp::FilterScale { pos: 1, val: 0 });
    assert_eq!(ops[28], RegisterOp::FilterModeSelect { pos: 1, val: 0 });
    assert_eq!(ops[29], RegisterOp::FilterBank { bank: 1, value: 0x3FF8 });
    assert_eq!(ops[30], RegisterOp::FilterActivation { pos: 1, val: 0 });
    assert_eq!(ops[31], RegisterOp::FilterInit(false));
}

#[test]
fn new_skips_filters_outside_one_to_thirteen() {
    let many = [filter(1, true); 14];
    let (_, ops) = Can::new(params(), &many);
    assert_eq!(ops.len(), 20);
    let thirteen = [filter(1, true); 13];
    let (_, ops13) = Can::new(params(), &thirteen);
    assert_eq!(ops13.len(), 20 + 2 + 5 * 13);
    assert_eq!(ops13[20 + 1 + 5 * 12 + 3], RegisterOp::FilterBank { bank: 12, value: (1 << 3) | 4 | 2 });
}

#[test]
fn init_filter_banks_are_below_fourteen() {
    let thirteen = [filter(0xFFFF_FFFF, true); 13];
    let (_, ops) = Can::new(params(), &thirteen);
    for op in ops {
        match op {
            RegisterOp::FilterActivation { pos, .. } | RegisterOp::FilterScale { pos, .. } | RegisterOp::FilterModeSelect { pos, .. } => assert!(pos < 14),
            RegisterOp::FilterBank { bank, value } => {
                assert!(bank < 14);
                assert_eq!(value, 0xFFFF_FFF8 | 4 | 2);
            }
            _ => {}
        }
    }
}

#[test]
fn wait_gives_up_after_budget() {
    assert_eq!(wait_tick(1), None);
    assert_eq!(wait_tick(2), Some(1));
    let mut budget = WAIT_POLLS;
    let mut misses = 0u32;
    loop {
        misses += 1;
        match wait_tick(budget) {
            Some(b) => budget = b,
            None => break,
        }
    }
    assert_eq!(misses, 1_000_000);
}
