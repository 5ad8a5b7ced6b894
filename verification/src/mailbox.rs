use vstd::prelude::*;
use crate::can::{Can, IdType};
use crate::payload::{le_word, le_word_at};

verus! {

/// What to write into a transmit mailbox to send one frame: the identifier
/// fields of TIR, the data length of TDTR and the data registers TDHR and TDLR
/// (`None` where the register is left as it is).
#[derive(Clone, Copy, Debug, PartialEq, Eq, Structural)]
pub struct MailboxWrite {
    pub mailbox: usize,
    pub id_type: IdType,
    pub stid: u16,
    pub exid: Option<u32>,
    pub dlc: u8,
    pub data_high: Option<u32>,
    pub data_low: Option<u32>,
}

/// One register step of a transmit mailbox write.
#[derive(Clone, Copy, Debug, PartialEq, Eq, Structural)]
pub enum TxOp {
    /// TIR.RTR: a data frame.
    DataFrame,
    /// TIR.IDE: a standard or an extended identifier.
    SelectIdType(IdType),
    /// TIR.STID.
    StandardId(u16),
    /// TIR.EXID.
    ExtendedId(u32),
    /// TDTR written with DLC.
    DataLength(u8),
    /// TDHR written.
    DataHigh(u32),
    /// TDLR written.
    DataLow(u32),
    /// TIR.TXRQ set: the mailbox is handed to the controller.
    RequestTransmit,
}

/// The steps of a mailbox write, in order: a data frame, the identifier type,
/// the standard identifier field, the extended one where there is one, the data
/// length, the high and then the low data word where they are written, and the
/// transmit request last.
pub open spec fn mailbox_steps(w: MailboxWrite) -> Seq<TxOp> {
    seq![TxOp::DataFrame, TxOp::SelectIdType(w.id_type), TxOp::StandardId(w.stid)] + (match w.exid {
        Some(e) => seq![TxOp::ExtendedId(e)],
        None => Seq::empty(),
    }) + seq![TxOp::DataLength(w.dlc)] + (match w.data_high {
        Some(h) => seq![TxOp::DataHigh(h)],
        None => Seq::empty(),
    }) + (match w.data_low {
        Some(l) => seq![TxOp::DataLow(l)],
        None => Seq::empty(),
    }) + seq![TxOp::RequestTransmit]
}

impl MailboxWrite {
    /// The register steps that carry the write out, in order.
    pub fn steps(&self) -> (v: Vec<TxOp>)
        ensures
            v@ == mailbox_steps(*self),
    {
        let mut v: Vec<TxOp> = Vec::new();
        v.push(TxOp::DataFrame);
        v.push(TxOp::SelectIdType(self.id_type));
        v.push(TxOp::StandardId(self.stid));
        if let Some(e) = self.exid {
            v.push(TxOp::ExtendedId(e));
        }
        v.push(TxOp::DataLength(self.dlc));
        if let Some(h) = self.data_high {
            v.push(TxOp::DataHigh(h));
        }
        if let Some(l) = self.data_low {
            v.push(TxOp::DataLow(l));
        }
        v.push(TxOp::RequestTransmit);
        assert(v@ =~= mailbox_steps(*self));
        v
    }
}

/// The first free mailbox at or after `k`.
pub open spec fn first_free_from(m: Seq<bool>, k: int) -> Option<int>
    decreases m.len() - k,
{
    if k < 0 || k >= m.len() {
        None
    } else if m[k] {
        Some(k)
    } else {
        first_free_from(m, k + 1)
    }
}

/// The lowest free mailbox, if any.
pub open spec fn first_free(m: Seq<bool>) -> Option<int> {
    first_free_from(m, 0)
}

/// The mailboxes after a frame was handed to the lowest free one.
pub open spec fn mailboxes_after_write(m: Seq<bool>) -> Seq<bool> {
    match first_free(m) {
        Some(k) => m.update(k, false),
        None => m,
    }
}

/// The data length code of a frame: its length modulo 256.
pub open spec fn frame_dlc(data: Seq<u8>) -> u8 {
    (data.len() % 256) as u8
}

/// The mailbox contents for a frame with identifier `id` and bytes `data`. A
/// standard identifier goes to STID as its low 16 bits; an extended one gives
/// STID its bits from 18 up and EXID the whole value. Both data words are
/// written for more than four bytes, the low one alone for one to four.
pub open spec fn mailbox_write(mailbox: int, id_type: IdType, id: u32, data: Seq<u8>) -> MailboxWrite {
    MailboxWrite {
        mailbox: mailbox as usize,
        id_type,
        stid: match id_type {
            IdType::Standard => id as u16,
            IdType::Extended => (id >> 18u32) as u16,
        },
        exid: match id_type {
            IdType::Standard => None,
            IdType::Extended => Some(id),
        },
        dlc: frame_dlc(data),
        data_high: if frame_dlc(data) > 4 { Some(le_word(data, 4)) } else { None },
        data_low: if frame_dlc(data) > 0 { Some(le_word(data, 0)) } else { None },
    }
}

impl Can {
    /// Hands a frame to the lowest free transmit mailbox and marks it busy;
    /// with every mailbox busy nothing happens and `None` comes back.
    pub fn write_to_mailbox(&mut self, id_type: IdType, transmit_id: u32, data: &[u8]) -> (w:
        Option<MailboxWrite>)
        ensures
            final(self).available_tx_mailbox@ == mailboxes_after_write(old(self).available_tx_mailbox@),
            final(self).receive_flag == old(self).receive_flag,
            w == (match first_free(old(self).available_tx_mailbox@) {
                Some(k) => Some(mailbox_write(k, id_type, transmit_id, data@)),
                None => None,
            }),
    {
        let ghost m = self.available_tx_mailbox@;
        let mut i: usize = 0;
        while i < 3
            invariant
                i <= 3,
                m.len() == 3,
                self.available_tx_mailbox@ == m,
                self.receive_flag == old(self).receive_flag,
                m == old(self).available_tx_mailbox@,
                first_free(m) == first_free_from(m, i as int),
            decreases 3 - i,
        {
            if self.available_tx_mailbox[i] {
                let stid: u16;
                let exid: Option<u32>;
                match id_type {
                    IdType::Standard => {
                        stid = transmit_id as u16;
                        exid = None;
                    },
                    IdType::Extended => {
                        stid = (transmit_id >> 18u32) as u16;
                        exid = Some(transmit_id);
                    },
                }
                let dlc = (data.len() % 256) as u8;
                let data_high: Option<u32>;
                let data_low: Option<u32>;
                if dlc > 4 {
                    data_high = Some(le_word_at(data, 4));
                    data_low = Some(le_word_at(data, 0));
                } else if dlc > 0 {
                    data_high = None;
                    data_low = Some(le_word_at(data, 0));
                } else {
                    data_high = None;
                    data_low = None;
                }
                self.available_tx_mailbox[i] = false;
                assert(self.available_tx_mailbox@ =~= m.update(i as int, false));
                return Some(MailboxWrite { mailbox: i, id_type, stid, exid, dlc, data_high, data_low });
            }
            i = i + 1;
        }
        None
    }
}

proof fn lemma_first_free_from(m: Seq<bool>, i: int)
    requires
        0 <= i <= m.len(),
    ensures
        match first_free_from(m, i) {
            Some(k) => i <= k < m.len() && m[k] && forall|j: int| i <= j < k ==> !m[j],
            None => forall|j: int| i <= j < m.len() ==> !m[j],
        },
    decreases m.len() - i,
{
    if i < m.len() && !m[i] {
        lemma_first_free_from(m, i + 1);
    }
}

/// The mailbox that a write takes is the lowest free one; a write finds none
/// only when every mailbox is busy.
pub proof fn lemma_first_free_is_lowest(m: Seq<bool>)
    ensures
        match first_free(m) {
            Some(k) => 0 <= k < m.len() && m[k] && forall|j: int| 0 <= j < k ==> !m[j],
            None => forall|j: int| 0 <= j < m.len() ==> !m[j],
        },
{
    lemma_first_free_from(m, 0);
}

/// A write occupies exactly the mailbox it takes and leaves the others as they
/// were, so it never frees a mailbox.
pub proof fn lemma_write_occupies_one(m: Seq<bool>)
    ensures
        mailboxes_after_write(m).len() == m.len(),
        match first_free(m) {
            Some(k) => !mailboxes_after_write(m)[k] && forall|j: int|
                0 <= j < m.len() && j != k ==> mailboxes_after_write(m)[j] == m[j],
            None => mailboxes_after_write(m) == m,
        },
{
    lemma_first_free_is_lowest(m);
}


/// A frame's mailbox write starts by choosing a data frame and the identifier
/// type, writes the extended identifier exactly for an extended identifier and
/// the high data word exactly for more than four bytes, writes the low data word
/// whenever there is data, and requests the transmission last and only there.
pub proof fn lemma_mailbox_steps_order(k: int, id_type: IdType, id: u32, data: Seq<u8>)
    ensures
        mailbox_steps(mailbox_write(k, id_type, id, data))[0] == TxOp::DataFrame,
        mailbox_steps(mailbox_write(k, id_type, id, data))[1] == TxOp::SelectIdType(id_type),
        mailbox_steps(mailbox_write(k, id_type, id, data)).last() == TxOp::RequestTransmit,
        forall|j: int|
            0 <= j < mailbox_steps(mailbox_write(k, id_type, id, data)).len() - 1 ==> #[trigger] mailbox_steps(
                mailbox_write(k, id_type, id, data),
            )[j] != TxOp::RequestTransmit,
        mailbox_steps(mailbox_write(k, id_type, id, data)).contains(TxOp::ExtendedId(id)) <==> id_type
            == IdType::Extended,
        mailbox_steps(mailbox_write(k, id_type, id, data)).contains(TxOp::DataHigh(le_word(data, 4)))
            <==> frame_dlc(data) > 4,
        mailbox_steps(mailbox_write(k, id_type, id, data)).contains(TxOp::DataLow(le_word(data, 0)))
            <==> frame_dlc(data) > 0,
{
    let w = mailbox_write(k, id_type, id, data);
    let s = mailbox_steps(w);
    let a = seq![TxOp::DataFrame, TxOp::SelectIdType(w.id_type), TxOp::StandardId(w.stid)];
    let e: Seq<TxOp> = match w.exid {
        Some(x) => seq![TxOp::ExtendedId(x)],
        None => Seq::empty(),
    };
    let d = seq![TxOp::DataLength(w.dlc)];
    let h: Seq<TxOp> = match w.data_high {
        Some(x) => seq![TxOp::DataHigh(x)],
        None => Seq::empty(),
    };
    let l: Seq<TxOp> = match w.data_low {
        Some(x) => seq![TxOp::DataLow(x)],
        None => Seq::empty(),
    };
    let t = seq![TxOp::RequestTransmit];
    let body = a + e + d + h + l;
    assert(s == body + t);
    assert(s[0] == a[0]);
    assert(s[1] == a[1]);
    assert forall|j: int| 0 <= j < s.len() - 1 implies #[trigger] s[j] != TxOp::RequestTransmit by {
        assert(s[j] == body[j]);
        assert(body == a + e + d + h + l);
        if j < a.len() {
            assert(body[j] == a[j]);
        } else if j < a.len() + e.len() {
            assert(body[j] == e[j - a.len()]);
        } else if j < a.len() + e.len() + d.len() {
            assert(body[j] == d[j - a.len() - e.len()]);
        } else if j < a.len() + e.len() + d.len() + h.len() {
            assert(body[j] == h[j - a.len() - e.len() - d.len()]);
        } else {
            assert(body[j] == l[j - a.len() - e.len() - d.len() - h.len()]);
        }
    }
    if id_type == IdType::Extended {
        assert(s[3] == TxOp::ExtendedId(id));
    } else {
        assert forall|j: int| 0 <= j < s.len() implies s[j] != TxOp::ExtendedId(id) by {
            if j < a.len() {
                assert(s[j] == a[j]);
            } else if j < a.len() + d.len() {
                assert(s[j] == d[j - a.len()]);
            } else if j < a.len() + d.len() + h.len() {
                assert(s[j] == h[j - a.len() - d.len()]);
            } else if j < a.len() + d.len() + h.len() + l.len() {
                assert(s[j] == l[j - a.len() - d.len() - h.len()]);
            } else {
                assert(s[j] == t[j - a.len() - d.len() - h.len() - l.len()]);
            }
        }
    }
    if frame_dlc(data) > 4 {
        assert(s[(a.len() + e.len() + d.len()) as int] == TxOp::DataHigh(le_word(data, 4)));
    } else {
        assert forall|j: int| 0 <= j < s.len() implies s[j] != TxOp::DataHigh(le_word(data, 4)) by {
            if j < a.len() {
                assert(s[j] == a[j]);
            } else if j < a.len() + e.len() {
                assert(s[j] == e[j - a.len()]);
            } else if j < a.len() + e.len() + d.len() {
                assert(s[j] == d[j - a.len() - e.len()]);
            } else if j < a.len() + e.len() + d.len() + l.len() {
                assert(s[j] == l[j - a.len() - e.len() - d.len()]);
            } else {
                assert(s[j] == t[j - a.len() - e.len() - d.len() - l.len()]);
            }
        }
    }
    if frame_dlc(data) > 0 {
        assert(s[(a.len() + e.len() + d.len() + h.len()) as int] == TxOp::DataLow(le_word(data, 0)));
    } else {
        assert(h.len() == 0);
        assert forall|j: int| 0 <= j < s.len() implies s[j] != TxOp::DataLow(le_word(data, 0)) by {
            if j < a.len() {
                assert(s[j] == a[j]);
            } else if j < a.len() + e.len() {
                assert(s[j] == e[j - a.len()]);
            } else if j < a.len() + e.len() + d.len() {
                assert(s[j] == d[j - a.len() - e.len()]);
            } else {
                assert(s[j] == t[j - a.len() - e.len() - d.len()]);
            }
        }
    }
}


/// The identifier fields of a mailbox write: a standard identifier fills STID
/// with its low 16 bits, so one below 0x800 is kept whole, and writes no EXID;
/// an extended identifier puts its bits from 18 up in STID and the whole value
/// in EXID.
pub proof fn lemma_mailbox_identifier_fields(k: int, id_type: IdType, id: u32, data: Seq<u8>)
    ensures
        id_type == IdType::Standard ==> mailbox_write(k, id_type, id, data).stid as u32 == id & 0xFFFF,
        id_type == IdType::Standard && id < 0x800 ==> mailbox_write(k, id_type, id, data).stid == id,
        id_type == IdType::Standard ==> mailbox_write(k, id_type, id, data).exid is None,
        id_type == IdType::Extended ==> mailbox_write(k, id_type, id, data).stid as u32 == id >> 18u32,
        id_type == IdType::Extended ==> mailbox_write(k, id_type, id, data).exid == Some(id),
        mailbox_write(k, id_type, id, data).id_type == id_type,
        mailbox_write(k, id_type, id, data).mailbox == k as usize,
        mailbox_write(k, id_type, id, data).dlc as int == data.len() % 256,
{
    assert((id as u16) as u32 == id & 0xFFFF) by (bit_vector);
    assert(((id >> 18u32) as u16) as u32 == id >> 18u32) by (bit_vector);
    if id < 0x800 {
        assert((id as u16) as u32 == id) by (bit_vector)
            requires
                id < 0x800,
        ;
    }
}

} // verus!
