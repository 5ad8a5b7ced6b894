use stm32_can::can::{
    AutomaticBussOffManagement, AutomaticRetransmission, AutomaticWakeUpMode, BitRate, Can, CanMode, CanParams,
    Filter, FilterMode, FilterScaleConfiguration, IdType, RegisterOp,
};
use stm32_can::config::{reg_bit_update_accepts, update_reg_by_bit_pos};
use stm32_can::indicator::{dim, dim_colors, shown_colors, LED_BRIGHTNESS};
use stm32_can::irq::REPLY_ID;
use stm32_can::mailbox::MailboxWrite;

fn params() -> CanParams {
    CanParams {
        work_mode: CanMode::NormalMode,
        automatic_retransmission: AutomaticRetransmission::Enabled,
        automatic_busoff_management: AutomaticBussOffManagement::Enabled,
        auto_wake_up: AutomaticWakeUpMode::Enabled,
        pclk_Hz: 48_000_000,
        bitrate: BitRate::_1Mbs,
    }
}

/// Runs the filter steps of a programme on cleared registers: (FA1R, FS1R, FM1R, banks).
fn run_filters(ops: &[RegisterOp]) -> (u32, u32, u32, [Option<u32>; 14]) {
    let (mut fa1r, mut fs1r, mut fm1r) = (0u32, 0u32, 0u32);
    let mut banks = [None; 14];
    for op in ops {
        match *op {
            RegisterOp::FilterActivation { pos, val } => {
                assert!(reg_bit_update_accepts(fa1r, pos, val));
                fa1r = update_reg_by_bit_pos(fa1r, pos, val);
            }
            RegisterOp::FilterScale { pos, val } => {
                assert!(reg_bit_update_accepts(fs1r, pos, val));
                fs1r = update_reg_by_bit_pos(fs1r, pos, val);
            }
            RegisterOp::FilterModeSelect { pos, val } => {
                assert!(reg_bit_update_accepts(fm1r, pos, val));
                fm1r = update_reg_by_bit_pos(fm1r, pos, val);
            }
            RegisterOp::FilterBank { bank, value } => banks[bank] = Some(value),
            _ => {}
        }
    }
    (fa1r, fs1r, fm1r, banks)
}

#[test]
fn init_leaves_filter_settings_bit_by_bit() {
    let mut fs = Vec::new();
    for i in 0..13u32 {
        fs.push(Filter {
            mode: if i % 3 == 0 { FilterMode::ListMode } else { FilterMode::MaskMode },
            scale_config: if i % 2 == 0 { FilterScaleConfiguration::_32BitSingleConfig } else { FilterScaleConfiguration::_16BitDualConfig },
            id_or_mask: i,
            enable: i % 4 != 1,
            id_type: IdType::Standard,
            rtr: false,
        });
    }
    let (_, ops) = Can::new(params(), &fs);
    let (fa1r, fs1r, fm1r, banks) = run_filters(&ops);
    for (j, f) in fs.iter().enumerate() {
        assert_eq!((fa1r >> j) & 1, f.enable as u32);
        assert_eq!((fs1r >> j) & 1, (f.scale_config == FilterScaleConfiguration::_32BitSingleConfig) as u32);
        assert_eq!((fm1r >> j) & 1, (f.mode == FilterMode::ListMode) as u32);
        assert_eq!(banks[j], Some(f.id_or_mask << 3));
    }
    assert_eq!(fa1r >> 13, 0);
    assert_eq!(fs1r >> 13, 0);
    assert_eq!(fm1r >> 13, 0);
    assert_eq!(banks[13], None);
}

#[test]
fn init_without_filters_leaves_registers_cleared() {
    let (_, ops) = Can::new(params(), &[]);
    assert_eq!(run_filters(&ops), (0, 0, 0, [None; 14]));
}

#[test]
fn bit_chain_of_double_updates() {
    let vals = [1u32, 0, 1, 1, 0, 0, 1];
    let mut r = 0u32;
    for (i, v) in vals.iter().enumerate() {
        r = update_reg_by_bit_pos(r, i as u32, 0);
        r = update_reg_by_bit_pos(r, i as u32, *v);
    }
    assert_eq!(r, 0b100_1101);
}

#[test]
fn update_with_high_bit_differs_from_setting() {
    // The formula adds the register back in, so a bit at or above `pos` counts twice.
    assert_eq!(update_reg_by_bit_pos(2, 0, 0), 4);
}

#[test]
fn answer_after_received_frame() {
    let mut can = Can { available_tx_mailbox: [false, true, true], receive_flag: true };
    let w = can.answer_received_frame();
    assert_eq!(
        w,
        Some(MailboxWrite { mailbox: 1, id_type: IdType::Extended, stid: 0, exid: Some(REPLY_ID), dlc: 0, data_high: None, data_low: None })
    );
    assert_eq!(can.available_tx_mailbox, [false, false, true]);
}

#[test]
fn no_answer_without_received_frame() {
    let mut can = Can { available_tx_mailbox: [true, true, true], receive_flag: false };
    assert_eq!(can.answer_received_frame(), None);
    assert_eq!(can.available_tx_mailbox, [true, true, true]);
    let mut busy = Can { available_tx_mailbox: [false, false, false], receive_flag: true };
    assert_eq!(busy.answer_received_frame(), None);
}

#[test]
fn brightness_scaling_values() {
    assert_eq!(dim(255, 255), 255);
    assert_eq!(dim(255, 100), 100);
    assert_eq!(dim(200, 100), 78);
    assert_eq!(dim(0, 100), 0);
    assert_eq!(dim(1, 0), 0);
    let out = dim_colors([(255, 128, 10); 16], 127);
    assert_eq!(out[15], (127, 64, 5));
}

#[test]
fn shown_colors_follow_frame() {
    let shown = shown_colors(&[255, 200, 3, 9]);
    assert_eq!(LED_BRIGHTNESS, 100);
    for c in shown.iter() {
        assert_eq!(*c, (100, 78, 1));
    }
}

use stm32_can::mailbox::TxOp;
use stm32_can::payload::le_word_at;

#[test]
fn mailbox_steps_extended_long_frame() {
    let mut can = Can { available_tx_mailbox: [true, true, true], receive_flag: false };
    let w = can.write_to_mailbox(IdType::Extended, 0x1ABC_DEF0, &[1, 2, 3, 4, 5]).unwrap();
    assert_eq!(
        w.steps(),
        vec![
            TxOp::DataFrame,
            TxOp::SelectIdType(IdType::Extended),
            TxOp::StandardId((0x1ABC_DEF0u32 >> 18) as u16),
            TxOp::ExtendedId(0x1ABC_DEF0),
            TxOp::DataLength(5),
            TxOp::DataHigh(0x05),
            TxOp::DataLow(0x0403_0201),
            TxOp::RequestTransmit,
        ]
    );
}

#[test]
fn mailbox_steps_standard_empty_frame() {
    let mut can = Can { available_tx_mailbox: [true, true, true], receive_flag: false };
    let w = can.write_to_mailbox(IdType::Standard, 0x42, &[]).unwrap();
    assert_eq!(
        w.steps(),
        vec![TxOp::DataFrame, TxOp::SelectIdType(IdType::Standard), TxOp::StandardId(0x42), TxOp::DataLength(0), TxOp::RequestTransmit]
    );
}

#[test]
fn le_word_at_any_start() {
    assert_eq!(le_word_at(&[1, 2, 3, 4, 5, 6, 7, 8, 9], 6), 0x0009_0807);
    assert_eq!(le_word_at(&[1, 2, 3], usize::MAX), 0);
    assert_eq!(le_word_at(&[1, 2, 3], usize::MAX - 1), 0);
}
