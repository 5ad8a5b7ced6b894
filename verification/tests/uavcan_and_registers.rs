use stm32_can::config::{get_uavcan_id, reg_bit_update_accepts, update_reg_by_bit_pos, UAVCAN_PRIORITY};

#[test]
fn uavcan_id_packs_priority_port_and_node() {
    assert_eq!(get_uavcan_id(5, 10, UAVCAN_PRIORITY::UcpNominal), 0x1000_050A);
    assert_eq!(get_uavcan_id(0, 126, UAVCAN_PRIORITY::UCP_Slow), 0x1800_007E);
    assert_eq!(get_uavcan_id(32766, 0, UAVCAN_PRIORITY::UcpExceptional), 32766 << 8);
}

#[test]
fn uavcan_id_is_zero_when_a_field_is_out_of_range() {
    assert_eq!(get_uavcan_id(5, 10, UAVCAN_PRIORITY::UcpOptional), 0);
    assert_eq!(get_uavcan_id(32767, 10, UAVCAN_PRIORITY::UcpHigh), 0);
    assert_eq!(get_uavcan_id(5, 127, UAVCAN_PRIORITY::UcpLow), 0);
}

#[test]
fn uavcan_id_fields_read_back() {
    let id = get_uavcan_id(1234, 77, UAVCAN_PRIORITY::UcpImmediate);
    assert_eq!(id >> 26, 1);
    assert_eq!((id >> 8) & 0x3_FFFF, 1234);
    assert_eq!(id & 0xFF, 77);
    assert_ne!(id, get_uavcan_id(1234, 76, UAVCAN_PRIORITY::UcpImmediate));
}

#[test]
fn priority_levels_count_up() {
    assert_eq!(UAVCAN_PRIORITY::UcpExceptional.value(), 0);
    assert_eq!(UAVCAN_PRIORITY::UcpFast.value(), 2);
    assert_eq!(UAVCAN_PRIORITY::UcpOptional.value(), 7);
}

#[test]
fn reg_update_formula_values() {
    assert_eq!(update_reg_by_bit_pos(0, 3, 1), 8);
    assert_eq!(update_reg_by_bit_pos(1, 0, 1), 2);
    assert_eq!(update_reg_by_bit_pos(0b1010, 1, 0), 20);
    assert_eq!(update_reg_by_bit_pos(0b0111, 2, 0), 0b0100 + 0b0111);
}

#[test]
fn reg_update_keeps_bits_below_position() {
    let src = 0b1011_0110u32;
    let r = update_reg_by_bit_pos(src, 4, 1);
    assert_eq!(r & 0xF, src & 0xF);
}

#[test]
fn reg_update_on_cleared_register_places_value() {
    for pos in 0..13u32 {
        assert_eq!(update_reg_by_bit_pos(0, pos, 1), 1 << pos);
    }
}

#[test]
fn reg_update_acceptance() {
    assert!(reg_bit_update_accepts(0, 3, 1));
    assert!(reg_bit_update_accepts(0x3FFF, 13, 1));
    assert!(!reg_bit_update_accepts(0xFFFF_FFFF, 0, 0));
    assert!(!reg_bit_update_accepts(5, 32, 0));
    assert!(!reg_bit_update_accepts(0x8000_0000, 31, 0));
}
