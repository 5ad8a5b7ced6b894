use stm32_can::can::{Can, ErrorState, IdType};
use stm32_can::irq::{IrqAction, IrqStatus, ReceivedFrame, RxMailbox};
use stm32_can::mailbox::MailboxWrite;
use stm32_can::payload::{le_word_at, payload_bytes};

fn idle_rx() -> RxMailbox {
    RxMailbox { extended: false, rir: 0, stid: 0, dlc: 0, rdlr: 0, rdhr: 0 }
}

fn quiet_status() -> IrqStatus {
    IrqStatus {
        fifo_pending: [0, 0],
        error_passive: false,
        error_warning: false,
        bus_off: false,
        request_completed: [false, false, false],
        rx: [idle_rx(), idle_rx()],
    }
}

fn fresh() -> Can {
    Can { available_tx_mailbox: [true, true, true], receive_flag: false }
}

#[test]
fn write_takes_lowest_free_mailbox() {
    let mut can = Can { available_tx_mailbox: [false, true, true], receive_flag: true };
    let w = can.write_to_mailbox(IdType::Standard, 0x123, &[0xAA]).unwrap();
    assert_eq!(w.mailbox, 1);
    assert_eq!(can.available_tx_mailbox, [false, false, true]);
    assert!(can.receive_flag);
    let w2 = can.write_to_mailbox(IdType::Standard, 0x124, &[]).unwrap();
    assert_eq!(w2.mailbox, 2);
    assert_eq!(can.write_to_mailbox(IdType::Standard, 0x125, &[]), None);
    assert_eq!(can.available_tx_mailbox, [false, false, false]);
}

#[test]
fn write_standard_frame_fields() {
    let mut can = fresh();
    let w = can.write_to_mailbox(IdType::Standard, 0x0001_0123, &[1, 2, 3]).unwrap();
    assert_eq!(
        w,
        MailboxWrite { mailbox: 0, id_type: IdType::Standard, stid: 0x0123, exid: None, dlc: 3, data_high: None, data_low: Some(0x0003_0201) }
    );
}

#[test]
fn write_extended_frame_fields() {
    let mut can = fresh();
    let id = 0x1ABC_DEF0u32;
    let w = can.write_to_mailbox(IdType::Extended, id, &[1, 2, 3, 4, 5, 6, 7, 8]).unwrap();
    assert_eq!(w.stid, (id >> 18) as u16);
    assert_eq!(w.exid, Some(id));
    assert_eq!(w.dlc, 8);
    assert_eq!(w.data_low, Some(0x0403_0201));
    assert_eq!(w.data_high, Some(0x0807_0605));
}

#[test]
fn write_empty_frame_has_no_data_words() {
    let mut can = fresh();
    let w = can.write_to_mailbox(IdType::Extended, 1, &[]).unwrap();
    assert_eq!(w.dlc, 0);
    assert_eq!(w.data_low, None);
    assert_eq!(w.data_high, None);
}

#[test]
fn write_five_bytes_pads_high_word_with_zero() {
    let mut can = fresh();
    let w = can.write_to_mailbox(IdType::Standard, 7, &[0x11, 0x22, 0x33, 0x44, 0x55]).unwrap();
    assert_eq!(w.dlc, 5);
    assert_eq!(w.data_high, Some(0x55));
    assert_eq!(w.data_low, Some(0x4433_2211));
}

#[test]
fn write_length_code_wraps_at_256() {
    let mut can = fresh();
    let data = [9u8; 260];
    let w = can.write_to_mailbox(IdType::Standard, 7, &data).unwrap();
    assert_eq!(w.dlc, 4);
    assert_eq!(w.data_high, None);
    assert_eq!(w.data_low, Some(0x0909_0909));
}

#[test]
fn le_word_reads_zero_past_end() {
    assert_eq!(le_word_at(&[0xAB, 0xCD], 0), 0xCDAB);
    assert_eq!(le_word_at(&[1, 2, 3, 4, 5, 6], 4), 0x0605);
    assert_eq!(le_word_at(&[], 4), 0);
}

#[test]
fn quiet_interrupt_changes_nothing_but_flag() {
    let mut can = Can { available_tx_mailbox: [false, true, false], receive_flag: true };
    let actions = can.irq_state_machine(&quiet_status());
    assert!(actions.is_empty());
    assert_eq!(can.available_tx_mailbox, [false, true, false]);
    assert!(!can.receive_flag);
}

#[test]
fn completion_frees_its_mailbox() {
    let mut can = Can { available_tx_mailbox: [false, false, false], receive_flag: false };
    let mut s = quiet_status();
    s.request_completed = [false, true, false];
    let actions = can.irq_state_machine(&s);
    assert_eq!(actions, vec![IrqAction::AckTransmitComplete(1)]);
    assert_eq!(can.available_tx_mailbox, [false, true, false]);
}

#[test]
fn warning_aborts_and_frees_every_mailbox() {
    let mut can = Can { available_tx_mailbox: [false, false, false], receive_flag: false };
    let mut s = quiet_status();
    s.error_warning = true;
    s.error_passive = true;
    s.bus_off = true;
    s.request_completed = [true, false, false];
    let actions = can.irq_state_machine(&s);
    assert_eq!(
        actions,
        vec![
            IrqAction::Report(ErrorState::ErrorPassive),
            IrqAction::ClearErrorInterrupt,
            IrqAction::Report(ErrorState::Warning),
            IrqAction::ClearErrorInterrupt,
            IrqAction::AbortTransmit(0),
            IrqAction::AbortTransmit(1),
            IrqAction::AbortTransmit(2),
            IrqAction::Report(ErrorState::BussOff),
            IrqAction::ClearErrorInterrupt,
            IrqAction::AckTransmitComplete(0),
        ]
    );
    assert_eq!(can.available_tx_mailbox, [true, true, true]);
}

#[test]
fn receive_from_both_fifos() {
    let mut can = fresh();
    let mut s = quiet_status();
    s.fifo_pending = [1, 3];
    s.rx[0] = RxMailbox { extended: false, rir: 0xFFFF_FFFF, stid: 0x321, dlc: 2, rdlr: 0x0000_BBAA, rdhr: 0 };
    s.rx[1] = RxMailbox { extended: true, rir: (0x1234_5678 << 3) | 0b100, stid: 0, dlc: 15, rdlr: 0x0403_0201, rdhr: 0x0807_0605 };
    let actions = can.irq_state_machine(&s);
    assert!(can.receive_flag);
    assert_eq!(actions.len(), 4);
    assert_eq!(actions[0], IrqAction::ReleaseFifo(0));
    assert_eq!(actions[1], IrqAction::Deliver(ReceivedFrame { id: 0x321, len: 2, payload: 0xBBAA }));
    assert_eq!(actions[2], IrqAction::ReleaseFifo(1));
    match actions[3] {
        IrqAction::Deliver(frame) => {
            assert_eq!(frame.id, 0x1234_5678);
            assert_eq!(frame.len, 8);
            assert_eq!(frame.data(), vec![1, 2, 3, 4, 5, 6, 7, 8]);
        }
        _ => panic!("expected a frame"),
    }
}

#[test]
fn receive_only_second_fifo() {
    let mut can = fresh();
    let mut s = quiet_status();
    s.fifo_pending = [0, 1];
    s.rx[1] = RxMailbox { extended: false, rir: 0, stid: 5, dlc: 1, rdlr: 0x99, rdhr: 0 };
    let actions = can.irq_state_machine(&s);
    assert!(can.receive_flag);
    assert_eq!(actions, vec![IrqAction::ReleaseFifo(1), IrqAction::Deliver(ReceivedFrame { id: 5, len: 1, payload: 0x99 })]);
}

#[test]
fn payload_bytes_in_memory_order() {
    assert_eq!(payload_bytes(0x0807_0605_0403_0201, 3), vec![1, 2, 3]);
    assert_eq!(payload_bytes(0xFF00_0000_0000_0000, 8)[7], 0xFF);
    assert!(payload_bytes(0x1234, 0).is_empty());
}

#[test]
fn loopback_frame_round_trip() {
    for len in 1..=8usize {
        let data: Vec<u8> = (0..len as u8).map(|b| b.wrapping_mul(37).wrapping_add(11)).collect();
        let mut tx = fresh();
        let w = tx.write_to_mailbox(IdType::Standard, 0x55, &data).unwrap();
        let mut rx_side = fresh();
        let mut s = quiet_status();
        s.fifo_pending = [1, 0];
        s.rx[0] = RxMailbox { extended: false, rir: 0, stid: w.stid, dlc: w.dlc, rdlr: w.data_low.unwrap(), rdhr: w.data_high.unwrap_or(0xDEAD_BEEF) };
        let actions = rx_side.irq_state_machine(&s);
        match actions[1] {
            IrqAction::Deliver(frame) => {
                assert_eq!(frame.id, 0x55);
                assert_eq!(frame.data(), data);
            }
            _ => panic!("expected a frame"),
        }
    }
}

#[test]
fn taken_mailbox_stays_busy_until_completion() {
    let mut can = fresh();
    let w = can.write_to_mailbox(IdType::Standard, 1, &[]).unwrap();
    let _ = can.irq_state_machine(&quiet_status());
    assert!(!can.available_tx_mailbox[w.mailbox]);
    let mut s = quiet_status();
    s.request_completed[w.mailbox] = true;
    let _ = can.irq_state_machine(&s);
    assert!(can.available_tx_mailbox[w.mailbox]);
}
