use vstd::prelude::*;

verus! {

/// Priority levels of a UAVCAN transfer, from the most urgent to the least.
#[allow(non_camel_case_types)]
#[derive(Clone, Copy, Debug, PartialEq, Eq, Structural)]
pub enum UAVCAN_PRIORITY {
    UcpExceptional,
    UcpImmediate,
    UcpFast,
    UcpHigh,
    UcpNominal,
    UcpLow,
    UCP_Slow,
    UcpOptional,
}

impl UAVCAN_PRIORITY {
    /// The numeric level of the priority: 0 for `UcpExceptional` up to 7 for `UcpOptional`.
    pub open spec fn level(self) -> u32 {
        match self {
            UAVCAN_PRIORITY::UcpExceptional => 0,
            UAVCAN_PRIORITY::UcpImmediate => 1,
            UAVCAN_PRIORITY::UcpFast => 2,
            UAVCAN_PRIORITY::UcpHigh => 3,
            UAVCAN_PRIORITY::UcpNominal => 4,
            UAVCAN_PRIORITY::UcpLow => 5,
            UAVCAN_PRIORITY::UCP_Slow => 6,
            UAVCAN_PRIORITY::UcpOptional => 7,
        }
    }

    /// The numeric level of the priority.
    pub fn value(&self) -> (v: u32)
        ensures
            v == self.level(),
    {
        match self {
            UAVCAN_PRIORITY::UcpExceptional => 0,
            UAVCAN_PRIORITY::UcpImmediate => 1,
            UAVCAN_PRIORITY::UcpFast => 2,
            UAVCAN_PRIORITY::UcpHigh => 3,
            UAVCAN_PRIORITY::UcpNominal => 4,
            UAVCAN_PRIORITY::UcpLow => 5,
            UAVCAN_PRIORITY::UCP_Slow => 6,
            UAVCAN_PRIORITY::UcpOptional => 7,
        }
    }
}

/// The inputs from which a UAVCAN identifier is built: a priority level below 7,
/// a port below 32767 and a node id below 127.
pub open spec fn uavcan_fields_valid(port: u32, node_id: u32, level: u32) -> bool {
    level < 7 && port < 32767 && node_id < 127
}

/// The UAVCAN identifier: the priority level from bit 26, the port from bit 8 and
/// the node id in the low byte; 0 when a field is out of range.
pub open spec fn uavcan_id(port: u32, node_id: u32, level: u32) -> int {
    if uavcan_fields_valid(port, node_id, level) {
        level * 0x400_0000 + port * 0x100 + node_id
    } else {
        0
    }
}

/// Builds the 29-bit CAN identifier of a UAVCAN transfer.
pub fn get_uavcan_id(port: u32, node_id: u32, priority: UAVCAN_PRIORITY) -> (id: u32)
    ensures
        id == uavcan_id(port, node_id, priority.level()),
{
    let prio = priority.value();
    if prio < 7 && port < 32767 && node_id < 127 {
        assert((prio << 26) | (port << 8) | node_id == prio * 0x400_0000 + port * 0x100 + node_id)
            by (bit_vector)
            requires
                prio < 7,
                port < 32767,
                node_id < 127,
        ;
        prio << 26 | port << 8 | node_id
    } else {
        0
    }
}

/// The priority level, the port and the node id are read back from an identifier
/// built of valid fields, so two valid field sets never share an identifier.
pub proof fn lemma_uavcan_id_fields(port: u32, node_id: u32, level: u32)
    requires
        uavcan_fields_valid(port, node_id, level),
    ensures
        uavcan_id(port, node_id, level) / 0x400_0000 == level,
        (uavcan_id(port, node_id, level) / 0x100) % 0x4_0000 == port,
        uavcan_id(port, node_id, level) % 0x100 == node_id,
        0 < uavcan_id(port, node_id, level) + 1 <= 0x2000_0000,
{
    let id = uavcan_id(port, node_id, level);
    assert(id == level * 0x400_0000 + port * 0x100 + node_id);
    assert(id / 0x400_0000 == level) by (nonlinear_arith)
        requires
            id == level * 0x400_0000 + port * 0x100 + node_id,
            port < 32767,
            node_id < 127,
    ;
    assert(id % 0x100 == node_id) by (nonlinear_arith)
        requires
            id == level * 0x400_0000 + port * 0x100 + node_id,
            node_id < 127,
    ;
    assert((id / 0x100) % 0x4_0000 == port) by (nonlinear_arith)
        requires
            id == level * 0x400_0000 + port * 0x100 + node_id,
            port < 32767,
            node_id < 127,
    ;
}

/// Two valid field sets that give the same identifier are the same.
pub proof fn lemma_uavcan_id_injective(port1: u32, node1: u32, level1: u32, port2: u32, node2: u32, level2: u32)
    requires
        uavcan_fields_valid(port1, node1, level1),
        uavcan_fields_valid(port2, node2, level2),
        uavcan_id(port1, node1, level1) == uavcan_id(port2, node2, level2),
    ensures
        port1 == port2,
        node1 == node2,
        level1 == level2,
{
    lemma_uavcan_id_fields(port1, node1, level1);
    lemma_uavcan_id_fields(port2, node2, level2);
}

/// The register value that `update_reg_by_bit_pos` computes, before it is known
/// to fit: `((src >> pos) | val) << pos` (shifted within 32 bits) plus `src`.
pub open spec fn reg_bit_update(src: u32, pos: u32, val: u32) -> int {
    (((src >> pos) | val) << pos) + src
}

/// The inputs on which `update_reg_by_bit_pos` neither shifts by 32 or more nor
/// overflows its addition.
pub open spec fn reg_bit_update_fits(src: u32, pos: u32, val: u32) -> bool {
    pos < 32 && reg_bit_update(src, pos, val) <= u32::MAX
}

/// Computes a filter register value from its current value `src`, a bank
/// position `pos` and a value `val`.
pub fn update_reg_by_bit_pos(src: u32, pos: u32, val: u32) -> (r: u32)
    requires
        reg_bit_update_fits(src, pos, val),
    ensures
        r == reg_bit_update(src, pos, val),
{
    let tmp = (src >> pos) | val;
    (tmp << pos) + src
}

/// Tells whether `update_reg_by_bit_pos` accepts these inputs.
pub fn reg_bit_update_accepts(src: u32, pos: u32, val: u32) -> (b: bool)
    ensures
        b == reg_bit_update_fits(src, pos, val),
{
    if pos >= 32 {
        false
    } else {
        let shifted = ((src >> pos) | val) << pos;
        shifted <= u32::MAX - src
    }
}

/// The update leaves every bit below `pos` as it was in `src`.
pub proof fn lemma_reg_bit_update_keeps_low_bits(src: u32, pos: u32, val: u32)
    requires
        reg_bit_update_fits(src, pos, val),
    ensures
        (reg_bit_update(src, pos, val) as u32) & (((1u32 << pos) - 1) as u32)
            == src & (((1u32 << pos) - 1) as u32),
{
    let t: u32 = ((src >> pos) | val) << pos;
    let r: u32 = reg_bit_update(src, pos, val) as u32;
    assert(r == t + src);
    assert(r & (((1u32 << pos) - 1) as u32) == src & (((1u32 << pos) - 1) as u32)) by (bit_vector)
        requires
            pos < 32,
            t == ((src >> pos) | val) << pos,
            r == t + src,
    ;
}

/// On a cleared register the update gives `val` shifted to `pos`.
pub proof fn lemma_reg_bit_update_from_zero(pos: u32, val: u32)
    requires
        pos < 32,
    ensures
        reg_bit_update(0, pos, val) == val << pos,
{
    assert(((0u32 >> pos) | val) << pos == val << pos) by (bit_vector)
        requires
            pos < 32,
    ;
}


/// Bit `j` of a register value.
pub open spec fn reg_bit(r: u32, j: int) -> u32 {
    (r >> (j as u32)) & 1u32
}

/// Below `n` bits: the register holds no bit at position `n` or above.
pub open spec fn below_bits(r: u32, n: nat) -> bool {
    (r as u64) < (1u64 << (n as u64))
}

/// On a register with no bit at or above `pos`, the update with value 0 leaves
/// it as it is.
pub proof fn lemma_reg_bit_update_zero_below(r: u32, pos: u32)
    requires
        pos < 32,
        below_bits(r, pos as nat),
    ensures
        reg_bit_update_fits(r, pos, 0),
        reg_bit_update(r, pos, 0) == r,
{
    let t: u32 = ((r >> pos) | 0u32) << pos;
    assert(t == 0) by (bit_vector)
        requires
            pos < 32,
            (r as u64) < (1u64 << (pos as u64)),
            t == ((r >> pos) | 0u32) << pos,
    ;
}

/// On a register with no bit at or above `pos`, the update with a value of at
/// most 1 sets bit `pos` to that value, keeps the bits below and leaves nothing
/// above `pos`.
pub proof fn lemma_reg_bit_update_sets_next(r: u32, pos: u32, val: u32)
    requires
        pos < 32,
        val <= 1,
        below_bits(r, pos as nat),
    ensures
        reg_bit_update_fits(r, pos, val),
        below_bits(reg_bit_update(r, pos, val) as u32, (pos + 1) as nat),
        reg_bit(reg_bit_update(r, pos, val) as u32, pos as int) == val,
        forall|j: int| 0 <= j < pos ==> #[trigger] reg_bit(reg_bit_update(r, pos, val) as u32, j) == reg_bit(r, j),
{
    let t: u32 = ((r >> pos) | val) << pos;
    assert((t as u64) + (r as u64) < (1u64 << ((pos + 1) as u64)) && (t as u64) + (r as u64) <= 0xffff_ffffu64)
        by (bit_vector)
        requires
            pos < 32,
            val <= 1,
            (r as u64) < (1u64 << (pos as u64)),
            t == ((r >> pos) | val) << pos,
    ;
    let s: u32 = reg_bit_update(r, pos, val) as u32;
    assert(s as u64 == (t as u64) + (r as u64));
    assert((s >> pos) & 1u32 == val) by (bit_vector)
        requires
            pos < 32,
            val <= 1,
            (r as u64) < (1u64 << (pos as u64)),
            t == ((r >> pos) | val) << pos,
            s as u64 == (t as u64) + (r as u64),
    ;
    assert forall|j: int| 0 <= j < pos implies #[trigger] reg_bit(s, j) == reg_bit(r, j) by {
        let jj = j as u32;
        assert((s >> jj) & 1u32 == (r >> jj) & 1u32) by (bit_vector)
            requires
                pos < 32,
                jj < pos,
                val <= 1,
                (r as u64) < (1u64 << (pos as u64)),
                t == ((r >> pos) | val) << pos,
                s as u64 == (t as u64) + (r as u64),
        ;
    }
}

/// A register with no bit at or above `n` reads 0 at every bit from `n` up.
pub proof fn lemma_below_bits_high_zero(r: u32, n: nat)
    requires
        n <= 32,
        below_bits(r, n),
    ensures
        forall|j: int| n <= j < 32 ==> #[trigger] reg_bit(r, j) == 0,
{
    assert forall|j: int| n <= j < 32 implies #[trigger] reg_bit(r, j) == 0 by {
        let jj = j as u32;
        let nn = n as u64;
        assert((r >> jj) & 1u32 == 0) by (bit_vector)
            requires
                nn <= 32,
                nn <= jj as u64,
                jj < 32,
                (r as u64) < (1u64 << nn),
        ;
    }
}

/// The register after positions `0..n` were each updated twice, first with 0
/// and then with `vals[i]`, starting from a cleared register; the activation
/// register of the filters is written this way.
pub open spec fn bit_chain(vals: Seq<u32>, n: nat) -> u32
    decreases n,
{
    if n == 0 {
        0
    } else {
        let r = bit_chain(vals, (n - 1) as nat);
        let cleared = reg_bit_update(r, (n - 1) as u32, 0) as u32;
        reg_bit_update(cleared, (n - 1) as u32, vals[n - 1]) as u32
    }
}

/// Every update of the chain is one that `update_reg_by_bit_pos` accepts.
pub open spec fn bit_chain_fits(vals: Seq<u32>, n: nat) -> bool
    decreases n,
{
    if n == 0 {
        true
    } else {
        let r = bit_chain(vals, (n - 1) as nat);
        let cleared = reg_bit_update(r, (n - 1) as u32, 0) as u32;
        &&& bit_chain_fits(vals, (n - 1) as nat)
        &&& reg_bit_update_fits(r, (n - 1) as u32, 0)
        &&& reg_bit_update_fits(cleared, (n - 1) as u32, vals[n - 1])
    }
}

/// Updating positions 0, 1, ... in turn from a cleared register, each first with
/// 0 and then with a value of at most 1, never overflows, leaves bit `i` equal to
/// the `i`-th value and no bit at or above the number of positions.
pub proof fn lemma_bit_chain(vals: Seq<u32>, n: nat)
    requires
        n <= 32,
        n <= vals.len(),
        forall|i: int| 0 <= i < n ==> #[trigger] vals[i] <= 1,
    ensures
        bit_chain_fits(vals, n),
        below_bits(bit_chain(vals, n), n),
        forall|j: int| 0 <= j < n ==> #[trigger] reg_bit(bit_chain(vals, n), j) == vals[j],
        forall|j: int| n <= j < 32 ==> #[trigger] reg_bit(bit_chain(vals, n), j) == 0,
    decreases n,
{
    if n == 0 {
        assert(0u64 < (1u64 << 0u64)) by (bit_vector);
    } else {
        let m = (n - 1) as nat;
        lemma_bit_chain(vals, m);
        let r = bit_chain(vals, m);
        lemma_reg_bit_update_zero_below(r, m as u32);
        lemma_reg_bit_update_sets_next(r, m as u32, vals[m as int]);
        let s = bit_chain(vals, n);
        assert forall|j: int| 0 <= j < n implies #[trigger] reg_bit(s, j) == vals[j] by {
            if j < m {
                assert(reg_bit(s, j) == reg_bit(r, j));
            }
        }
    }
    lemma_below_bits_high_zero(bit_chain(vals, n), n);
}


/// The priority levels follow the declaration order, strictly increasing from 0
/// for `UcpExceptional` to 7 for `UcpOptional`, so each priority's level is its
/// position in the list.
pub proof fn lemma_priority_levels_in_order()
    ensures
        UAVCAN_PRIORITY::UcpExceptional.level() == 0,
        UAVCAN_PRIORITY::UcpExceptional.level() < UAVCAN_PRIORITY::UcpImmediate.level(),
        UAVCAN_PRIORITY::UcpImmediate.level() < UAVCAN_PRIORITY::UcpFast.level(),
        UAVCAN_PRIORITY::UcpFast.level() < UAVCAN_PRIORITY::UcpHigh.level(),
        UAVCAN_PRIORITY::UcpHigh.level() < UAVCAN_PRIORITY::UcpNominal.level(),
        UAVCAN_PRIORITY::UcpNominal.level() < UAVCAN_PRIORITY::UcpLow.level(),
        UAVCAN_PRIORITY::UcpLow.level() < UAVCAN_PRIORITY::UCP_Slow.level(),
        UAVCAN_PRIORITY::UCP_Slow.level() < UAVCAN_PRIORITY::UcpOptional.level(),
        UAVCAN_PRIORITY::UcpOptional.level() == 7,
{
}

/// A more urgent priority gives a smaller identifier whatever the ports and
/// nodes, so its transfer wins bus arbitration.
pub proof fn lemma_priority_wins_arbitration(port1: u32, node1: u32, level1: u32, port2: u32, node2: u32, level2: u32)
    requires
        uavcan_fields_valid(port1, node1, level1),
        uavcan_fields_valid(port2, node2, level2),
        level1 < level2,
    ensures
        uavcan_id(port1, node1, level1) < uavcan_id(port2, node2, level2),
{
    assert(level1 * 0x400_0000 + 0x400_0000 <= level2 * 0x400_0000) by (nonlinear_arith)
        requires
            level1 < level2,
    ;
}

} // verus!
