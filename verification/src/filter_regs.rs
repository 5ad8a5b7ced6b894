use vstd::prelude::*;
use crate::can::{
    CanParams, Filter, FilterMode, FilterScaleConfiguration, IdType, RegisterOp, controller_ops, filter_bank_value,
    lemma_filter_bank_value_fields,
    filter_programme, filter_steps, filters_steps, init_ops,
};
use crate::config::{
    below_bits, lemma_below_bits_high_zero, lemma_reg_bit_update_sets_next, lemma_reg_bit_update_zero_below,
    reg_bit, reg_bit_update, reg_bit_update_fits,
};

verus! {

/// A filter configuration register that the initialisation updates bit by bit.
#[derive(Clone, Copy, Debug, PartialEq, Eq, Structural)]
pub enum FilterRegister {
    /// FA1R: which banks are active.
    Activation,
    /// FS1R: which banks use a single 32-bit scale.
    Scale,
    /// FM1R: which banks are in list mode.
    ModeSelect,
}

/// What a register step does to one filter configuration register: an update
/// of that register replaces it with `update_reg_by_bit_pos` of its value; every
/// other step leaves it as it is.
pub open spec fn op_effect(which: FilterRegister, r: u32, op: RegisterOp) -> u32 {
    match op {
        RegisterOp::FilterActivation { pos, val } => if which == FilterRegister::Activation {
            reg_bit_update(r, pos, val) as u32
        } else {
            r
        },
        RegisterOp::FilterScale { pos, val } => if which == FilterRegister::Scale {
            reg_bit_update(r, pos, val) as u32
        } else {
            r
        },
        RegisterOp::FilterModeSelect { pos, val } => if which == FilterRegister::ModeSelect {
            reg_bit_update(r, pos, val) as u32
        } else {
            r
        },
        _ => r,
    }
}

/// Whether `update_reg_by_bit_pos` accepts the update that a step makes to the
/// register (steps that do not update it always do).
pub open spec fn op_fits(which: FilterRegister, r: u32, op: RegisterOp) -> bool {
    match op {
        RegisterOp::FilterActivation { pos, val } => which == FilterRegister::Activation ==> reg_bit_update_fits(
            r,
            pos,
            val,
        ),
        RegisterOp::FilterScale { pos, val } => which == FilterRegister::Scale ==> reg_bit_update_fits(r, pos, val),
        RegisterOp::FilterModeSelect { pos, val } => which == FilterRegister::ModeSelect ==> reg_bit_update_fits(
            r,
            pos,
            val,
        ),
        _ => true,
    }
}

/// The register after the steps `ops`, in order, from the value `r`.
pub open spec fn register_after(which: FilterRegister, r: u32, ops: Seq<RegisterOp>) -> u32
    decreases ops.len(),
{
    if ops.len() == 0 {
        r
    } else {
        op_effect(which, register_after(which, r, ops.drop_last()), ops.last())
    }
}

/// Every update that the steps `ops` make to the register, from the value `r`,
/// is one that `update_reg_by_bit_pos` accepts.
pub open spec fn updates_fit(which: FilterRegister, r: u32, ops: Seq<RegisterOp>) -> bool
    decreases ops.len(),
{
    if ops.len() == 0 {
        true
    } else {
        updates_fit(which, r, ops.drop_last()) && op_fits(which, register_after(which, r, ops.drop_last()), ops.last())
    }
}

/// The value that the last write of the steps `ops` to filter bank `bank` left
/// in its two registers, if any.
pub open spec fn bank_after(bank: int, ops: Seq<RegisterOp>) -> Option<u32>
    decreases ops.len(),
{
    if ops.len() == 0 {
        None
    } else {
        match ops.last() {
            RegisterOp::FilterBank { bank: b, value } => if b as int == bank {
                Some(value)
            } else {
                bank_after(bank, ops.drop_last())
            },
            _ => bank_after(bank, ops.drop_last()),
        }
    }
}

/// The bit that a filter asks for in a register.
pub open spec fn filter_setting(which: FilterRegister, f: Filter) -> u32 {
    match which {
        FilterRegister::Activation => if f.enable { 1 } else { 0 },
        FilterRegister::Scale => if f.scale_config == FilterScaleConfiguration::_32BitSingleConfig { 1 } else { 0 },
        FilterRegister::ModeSelect => if f.mode == FilterMode::ListMode { 1 } else { 0 },
    }
}

proof fn lemma_register_after_concat(which: FilterRegister, r: u32, a: Seq<RegisterOp>, b: Seq<RegisterOp>)
    ensures
        register_after(which, r, a + b) == register_after(which, register_after(which, r, a), b),
        updates_fit(which, r, a + b) == (updates_fit(which, r, a) && updates_fit(
            which,
            register_after(which, r, a),
            b,
        )),
    decreases b.len(),
{
    if b.len() == 0 {
        assert(a + b =~= a);
    } else {
        assert((a + b).drop_last() =~= a + b.drop_last());
        assert((a + b).last() == b.last());
        lemma_register_after_concat(which, r, a, b.drop_last());
    }
}

proof fn lemma_bank_after_concat(bank: int, a: Seq<RegisterOp>, b: Seq<RegisterOp>)
    ensures
        bank_after(bank, a + b) == (match bank_after(bank, b) {
            Some(v) => Some(v),
            None => bank_after(bank, a),
        }),
    decreases b.len(),
{
    if b.len() == 0 {
        assert(a + b =~= a);
    } else {
        assert((a + b).drop_last() =~= a + b.drop_last());
        assert((a + b).last() == b.last());
        lemma_bank_after_concat(bank, a, b.drop_last());
    }
}

/// Whether a step writes no filter register nor filter bank.
pub open spec fn touches_no_filter(op: RegisterOp) -> bool {
    match op {
        RegisterOp::FilterActivation { .. } => false,
        RegisterOp::FilterScale { .. } => false,
        RegisterOp::FilterModeSelect { .. } => false,
        RegisterOp::FilterBank { .. } => false,
        _ => true,
    }
}

proof fn lemma_no_filter_ops(which: FilterRegister, r: u32, ops: Seq<RegisterOp>, bank: int)
    requires
        forall|j: int| 0 <= j < ops.len() ==> touches_no_filter(#[trigger] ops[j]),
    ensures
        register_after(which, r, ops) == r,
        updates_fit(which, r, ops),
        bank_after(bank, ops) is None,
    decreases ops.len(),
{
    if ops.len() > 0 {
        assert(touches_no_filter(ops[ops.len() - 1]));
        let rest = ops.drop_last();
        assert forall|j: int| 0 <= j < rest.len() implies touches_no_filter(#[trigger] rest[j]) by {
            assert(rest[j] == ops[j]);
        }
        lemma_no_filter_ops(which, r, rest, bank);
    }
}

/// What the first `n` filters leave in a register cleared beforehand: bit `j` is
/// filter `j`'s setting and no bit at or above `n` is set.
pub open spec fn register_holds_filters(which: FilterRegister, r: u32, fs: Seq<Filter>, n: nat) -> bool {
    &&& below_bits(r, n)
    &&& forall|j: int| 0 <= j < n ==> #[trigger] reg_bit(r, j) == filter_setting(which, fs[j])
}

proof fn lemma_step(which: FilterRegister, r: u32, s: Seq<RegisterOp>, op: RegisterOp, bank: int)
    ensures
        register_after(which, r, s.push(op)) == op_effect(which, register_after(which, r, s), op),
        updates_fit(which, r, s.push(op)) == (updates_fit(which, r, s) && op_fits(which, register_after(which, r, s), op)),
        bank_after(bank, s.push(op)) == (match op {
            RegisterOp::FilterBank { bank: b, value } => if b as int == bank { Some(value) } else { bank_after(bank, s) },
            _ => bank_after(bank, s),
        }),
{
    assert(s.push(op).drop_last() =~= s);
}

proof fn lemma_one_filter(which: FilterRegister, r: u32, fs: Seq<Filter>, n: nat)
    requires
        n < 14,
        n < fs.len(),
        register_holds_filters(which, r, fs, n),
    ensures
        updates_fit(which, r, filter_steps(fs[n as int], n)),
        register_holds_filters(which, register_after(which, r, filter_steps(fs[n as int], n)), fs, n + 1),
{
    let f = fs[n as int];
    let ops = filter_steps(f, n);
    let pos = n as u32;
    let v = filter_setting(which, f);
    lemma_reg_bit_update_zero_below(r, pos);
    lemma_reg_bit_update_sets_next(r, pos, v);
    let p0 = Seq::<RegisterOp>::empty();
    let p1 = p0.push(ops[0]);
    let p2 = p1.push(ops[1]);
    let p3 = p2.push(ops[2]);
    let p4 = p3.push(ops[3]);
    let p5 = p4.push(ops[4]);
    assert(ops =~= p5);
    lemma_step(which, r, p0, ops[0], 0);
    lemma_step(which, r, p1, ops[1], 0);
    lemma_step(which, r, p2, ops[2], 0);
    lemma_step(which, r, p3, ops[3], 0);
    lemma_step(which, r, p4, ops[4], 0);
    let s = reg_bit_update(r, pos, v) as u32;
    assert(register_after(which, r, p0) == r);
    assert(updates_fit(which, r, p0));
    assert forall|j: int| 0 <= j < n + 1 implies #[trigger] reg_bit(s, j) == filter_setting(which, fs[j]) by {
        if j < n {
            assert(reg_bit(s, j) == reg_bit(r, j));
        }
    }
}

proof fn lemma_filters_steps_registers(which: FilterRegister, fs: Seq<Filter>, n: nat)
    requires
        n < 14,
        n <= fs.len(),
    ensures
        updates_fit(which, 0, filters_steps(fs, n)),
        register_holds_filters(which, register_after(which, 0, filters_steps(fs, n)), fs, n),
    decreases n,
{
    if n == 0 {
        assert(0u64 < (1u64 << 0u64)) by (bit_vector);
        assert(register_after(which, 0, filters_steps(fs, 0)) == 0);
    } else {
        let m = (n - 1) as nat;
        lemma_filters_steps_registers(which, fs, m);
        let a = filters_steps(fs, m);
        let b = filter_steps(fs[m as int], m);
        lemma_register_after_concat(which, 0, a, b);
        lemma_one_filter(which, register_after(which, 0, a), fs, m);
    }
}

proof fn lemma_filters_steps_banks(fs: Seq<Filter>, n: nat, bank: int)
    requires
        n < 14,
        n <= fs.len(),
    ensures
        bank_after(bank, filters_steps(fs, n)) == (if 0 <= bank < n {
            Some(filter_bank_value(fs[bank]))
        } else {
            None
        }),
    decreases n,
{
    if n > 0 {
        let m = (n - 1) as nat;
        lemma_filters_steps_banks(fs, m, bank);
        let a = filters_steps(fs, m);
        let b = filter_steps(fs[m as int], m);
        lemma_bank_after_concat(bank, a, b);
        let p0 = Seq::<RegisterOp>::empty();
        let p1 = p0.push(b[0]);
        let p2 = p1.push(b[1]);
        let p3 = p2.push(b[2]);
        let p4 = p3.push(b[3]);
        let p5 = p4.push(b[4]);
        assert(b =~= p5);
        lemma_step(FilterRegister::Activation, 0, p0, b[0], bank);
        lemma_step(FilterRegister::Activation, 0, p1, b[1], bank);
        lemma_step(FilterRegister::Activation, 0, p2, b[2], bank);
        lemma_step(FilterRegister::Activation, 0, p3, b[3], bank);
        lemma_step(FilterRegister::Activation, 0, p4, b[4], bank);
        assert(bank_after(bank, p0) is None);
    }
}

/// From cleared filter registers, the initialisation programme makes only
/// updates that `update_reg_by_bit_pos` accepts. With 1 to 13 filters it leaves
/// in each filter register bit `j` set to filter `j`'s setting and no bit at or
/// above the number of filters, and in each filter bank below that number the
/// filter's identifier value; otherwise it leaves the filter registers and
/// banks untouched.
pub proof fn lemma_init_filter_registers(p: CanParams, fs: Seq<Filter>, which: FilterRegister, bank: int)
    ensures
        updates_fit(which, 0, init_ops(p, fs)),
        0 < fs.len() < 14 ==> register_holds_filters(which, register_after(which, 0, init_ops(p, fs)), fs, fs.len()),
        0 < fs.len() < 14 ==> forall|j: int| fs.len() <= j < 32 ==> #[trigger] reg_bit(
            register_after(which, 0, init_ops(p, fs)),
            j,
        ) == 0,
        !(0 < fs.len() < 14) ==> register_after(which, 0, init_ops(p, fs)) == 0,
        bank_after(bank, init_ops(p, fs)) == (if 0 < fs.len() < 14 && 0 <= bank < fs.len() {
            Some(filter_bank_value(fs[bank]))
        } else {
            None
        }),
{
    let c = controller_ops(p);
    assert forall|j: int| 0 <= j < c.len() implies touches_no_filter(#[trigger] c[j]) by {}
    lemma_no_filter_ops(which, 0, c, bank);
    let f = filter_programme(fs);
    lemma_register_after_concat(which, 0, c, f);
    lemma_bank_after_concat(bank, c, f);
    if 0 < fs.len() < 14 {
        let head = seq![RegisterOp::FilterInit(true)];
        let mid = filters_steps(fs, fs.len());
        let tail = seq![RegisterOp::FilterInit(false)];
        assert forall|j: int| 0 <= j < head.len() implies touches_no_filter(#[trigger] head[j]) by {}
        assert forall|j: int| 0 <= j < tail.len() implies touches_no_filter(#[trigger] tail[j]) by {}
        lemma_no_filter_ops(which, 0, head, bank);
        lemma_filters_steps_registers(which, fs, fs.len());
        lemma_filters_steps_banks(fs, fs.len(), bank);
        let rm = register_after(which, 0, mid);
        lemma_no_filter_ops(which, rm, tail, bank);
        lemma_register_after_concat(which, 0, head, mid);
        lemma_register_after_concat(which, 0, head + mid, tail);
        lemma_bank_after_concat(bank, head, mid);
        lemma_bank_after_concat(bank, head + mid, tail);
        lemma_below_bits_high_zero(register_after(which, 0, init_ops(p, fs)), fs.len());
    } else {
        assert(f =~= Seq::<RegisterOp>::empty());
        assert(register_after(which, 0, f) == 0);
        assert(updates_fit(which, 0, f));
        assert(bank_after(bank, f) is None);
    }
}


/// With 1 to 13 filters, the initialisation leaves in each filter bank below
/// their number a word that holds the filter's identifier or mask (its low 29
/// bits) from bit 3, the extended flag at bit 2, the remote flag at bit 1 and 0
/// at bit 0.
pub proof fn lemma_init_bank_words(p: CanParams, fs: Seq<Filter>, bank: int)
    requires
        0 < fs.len() < 14,
        0 <= bank < fs.len(),
    ensures
        bank_after(bank, init_ops(p, fs)) is Some,
        bank_after(bank, init_ops(p, fs))->0 & 1 == 0,
        (bank_after(bank, init_ops(p, fs))->0 >> 1u32) & 1 == (if fs[bank].rtr { 1u32 } else { 0u32 }),
        (bank_after(bank, init_ops(p, fs))->0 >> 2u32) & 1 == (if fs[bank].id_type == IdType::Extended {
            1u32
        } else {
            0u32
        }),
        bank_after(bank, init_ops(p, fs))->0 >> 3u32 == fs[bank].id_or_mask & 0x1FFF_FFFF,
{
    lemma_init_filter_registers(p, fs, FilterRegister::Activation, bank);
    lemma_filter_bank_value_fields(fs[bank]);
}

} // verus!
