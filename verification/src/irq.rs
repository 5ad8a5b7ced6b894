use vstd::prelude::*;
use crate::can::{Can, ErrorState, IdType};
use crate::mailbox::{first_free, mailboxes_after_write, mailbox_write, lemma_first_free_is_lowest, MailboxWrite};
use crate::payload::{le_word, lemma_payload_round_trip};
use crate::payload::{rx_payload, frame_bytes, payload_bytes};

verus! {

/// The registers of a receive FIFO's output mailbox, as the interrupt handler
/// reads them: RIR.IDE, the whole of RIR, RIR.STID, RDTR.DLC, RDLR and RDHR.
#[derive(Clone, Copy, Debug, PartialEq, Eq, Structural)]
pub struct RxMailbox {
    pub extended: bool,
    pub rir: u32,
    pub stid: u16,
    pub dlc: u8,
    pub rdlr: u32,
    pub rdhr: u32,
}

/// What the interrupt handler reads: the pending count RFR.FMP of both receive
/// FIFOs, the error flags ESR.EPVF, ESR.EWGF and ESR.BOFF, the request-completed
/// flags TSR.RQCP0..2 and the output mailboxes of both FIFOs.
#[derive(Clone, Copy, Debug)]
pub struct IrqStatus {
    pub fifo_pending: [u8; 2],
    pub error_passive: bool,
    pub error_warning: bool,
    pub bus_off: bool,
    pub request_completed: [bool; 3],
    pub rx: [RxMailbox; 2],
}

/// A received frame: its identifier, its length and its data bytes packed in
/// memory order.
#[derive(Clone, Copy, Debug, PartialEq, Eq, Structural)]
pub struct ReceivedFrame {
    pub id: u32,
    pub len: usize,
    pub payload: u64,
}

impl ReceivedFrame {
    /// The data bytes of the frame.
    pub fn data(&self) -> (v: Vec<u8>)
        requires
            self.len <= 8,
        ensures
            v@ == frame_bytes(self.payload, self.len as nat),
    {
        payload_bytes(self.payload, self.len)
    }
}

/// One step that the interrupt handler asks of the caller, in order.
#[derive(Clone, Copy, Debug, PartialEq, Eq, Structural)]
pub enum IrqAction {
    /// Log the error state.
    Report(ErrorState),
    /// Clear MSR.ERRI.
    ClearErrorInterrupt,
    /// Set TSR.ABRQ of a transmit mailbox.
    AbortTransmit(usize),
    /// Write 1 to TSR.RQCP of a transmit mailbox.
    AckTransmitComplete(usize),
    /// Set RFR.RFOM of a receive FIFO.
    ReleaseFifo(usize),
    /// Hand a received frame to the user.
    Deliver(ReceivedFrame),
}

/// The frame in a receive mailbox: an extended identifier is RIR without its
/// three low bits, a standard one is STID; at most eight data bytes are taken.
pub open spec fn received_frame(rx: RxMailbox) -> ReceivedFrame {
    ReceivedFrame {
        id: if rx.extended { rx.rir >> 3u32 } else { rx.stid as u32 },
        len: if rx.dlc <= 8 { rx.dlc as usize } else { 8 },
        payload: rx_payload(rx.rdlr, rx.rdhr),
    }
}

/// Steps for the error flags: error passive, then warning (which aborts all
/// three transmissions), then bus-off.
pub open spec fn error_actions(s: IrqStatus) -> Seq<IrqAction> {
    (if s.error_passive {
        seq![IrqAction::Report(ErrorState::ErrorPassive), IrqAction::ClearErrorInterrupt]
    } else {
        Seq::empty()
    }) + (if s.error_warning {
        seq![
            IrqAction::Report(ErrorState::Warning),
            IrqAction::ClearErrorInterrupt,
            IrqAction::AbortTransmit(0),
            IrqAction::AbortTransmit(1),
            IrqAction::AbortTransmit(2),
        ]
    } else {
        Seq::empty()
    }) + (if s.bus_off {
        seq![IrqAction::Report(ErrorState::BussOff), IrqAction::ClearErrorInterrupt]
    } else {
        Seq::empty()
    })
}

/// The acknowledgement of a completed request of mailbox `k`, if it completed.
pub open spec fn completion_action(s: IrqStatus, k: int) -> Seq<IrqAction> {
    if s.request_completed@[k] {
        seq![IrqAction::AckTransmitComplete(k as usize)]
    } else {
        Seq::empty()
    }
}

/// The steps for receive FIFO `i`: when it holds a frame, release its output
/// mailbox and deliver the frame.
pub open spec fn fifo_actions(s: IrqStatus, i: int) -> Seq<IrqAction> {
    if s.fifo_pending@[i] != 0 {
        seq![IrqAction::ReleaseFifo(i as usize), IrqAction::Deliver(received_frame(s.rx@[i]))]
    } else {
        Seq::empty()
    }
}

/// Everything the interrupt handler asks for, in order.
pub open spec fn irq_actions(s: IrqStatus) -> Seq<IrqAction> {
    error_actions(s) + completion_action(s, 0) + completion_action(s, 1) + completion_action(s, 2)
        + fifo_actions(s, 0) + fifo_actions(s, 1)
}

/// The mailboxes after an interrupt: a mailbox is free when it was, when the
/// error warning aborted every transmission, or when its request completed.
pub open spec fn mailboxes_after_irq(m: Seq<bool>, s: IrqStatus) -> Seq<bool> {
    Seq::new(3, |k: int| m[k] || s.error_warning || s.request_completed@[k])
}

/// Whether an interrupt found a frame in either receive FIFO.
pub open spec fn irq_receives(s: IrqStatus) -> bool {
    s.fifo_pending@[0] != 0 || s.fifo_pending@[1] != 0
}

impl Can {
    fn push_error_actions(&mut self, status: &IrqStatus, actions: &mut Vec<IrqAction>)
        ensures
            final(actions)@ == old(actions)@ + error_actions(*status),
            final(self).available_tx_mailbox@ == (if status.error_warning {
                seq![true, true, true]
            } else {
                old(self).available_tx_mailbox@
            }),
            final(self).receive_flag == old(self).receive_flag,
    {
        let ghost start = actions@;
        if status.error_passive {
            actions.push(IrqAction::Report(ErrorState::ErrorPassive));
            actions.push(IrqAction::ClearErrorInterrupt);
        }
        if status.error_warning {
            actions.push(IrqAction::Report(ErrorState::Warning));
            actions.push(IrqAction::ClearErrorInterrupt);
            actions.push(IrqAction::AbortTransmit(0));
            actions.push(IrqAction::AbortTransmit(1));
            actions.push(IrqAction::AbortTransmit(2));
            self.available_tx_mailbox[0] = true;
            self.available_tx_mailbox[1] = true;
            self.available_tx_mailbox[2] = true;
            assert(self.available_tx_mailbox@ =~= seq![true, true, true]);
        }
        if status.bus_off {
            actions.push(IrqAction::Report(ErrorState::BussOff));
            actions.push(IrqAction::ClearErrorInterrupt);
        }
        assert(actions@ =~= start + error_actions(*status));
    }

    fn push_completion_action(&mut self, status: &IrqStatus, k: usize, actions: &mut Vec<IrqAction>)
        requires
            k < 3,
        ensures
            final(actions)@ == old(actions)@ + completion_action(*status, k as int),
            final(self).available_tx_mailbox@ == (if status.request_completed@[k as int] {
                old(self).available_tx_mailbox@.update(k as int, true)
            } else {
                old(self).available_tx_mailbox@
            }),
            final(self).receive_flag == old(self).receive_flag,
    {
        if status.request_completed[k] {
            self.available_tx_mailbox[k] = true;
            actions.push(IrqAction::AckTransmitComplete(k));
        }
        assert(actions@ =~= old(actions)@ + completion_action(*status, k as int));
    }

    fn push_fifo_actions(&mut self, status: &IrqStatus, i: usize, actions: &mut Vec<IrqAction>)
        requires
            i < 2,
        ensures
            final(actions)@ == old(actions)@ + fifo_actions(*status, i as int),
            final(self).available_tx_mailbox@ == old(self).available_tx_mailbox@,
            final(self).receive_flag == (old(self).receive_flag || status.fifo_pending@[i as int] != 0),
    {
        if status.fifo_pending[i] != 0b00 {
            let rx = status.rx[i];
            let rx_id: u32;
            if rx.extended {
                rx_id = rx.rir >> 3u32;
            } else {
                rx_id = rx.stid as u32;
            }
            let len: usize = if rx.dlc <= 8 { rx.dlc as usize } else { 8 };
            let payload: u64 = ((rx.rdhr as u64) << 32u64) | (rx.rdlr as u64);
            actions.push(IrqAction::ReleaseFifo(i));
            self.receive_flag = true;
            actions.push(IrqAction::Deliver(ReceivedFrame { id: rx_id, len, payload }));
        }
        assert(actions@ =~= old(actions)@ + fifo_actions(*status, i as int));
    }

    /// One run of the interrupt handler on the status it read: the steps it asks
    /// for, the mailboxes it frees, and whether it received a frame.
    pub fn irq_state_machine(&mut self, status: &IrqStatus) -> (actions: Vec<IrqAction>)
        ensures
            actions@ == irq_actions(*status),
            final(self).available_tx_mailbox@ == mailboxes_after_irq(old(self).available_tx_mailbox@, *status),
            final(self).receive_flag == irq_receives(*status),
    {
        let ghost m = self.available_tx_mailbox@;
        let mut actions: Vec<IrqAction> = Vec::new();
        self.receive_flag = false;
        self.push_error_actions(status, &mut actions);
        self.push_completion_action(status, 0, &mut actions);
        self.push_completion_action(status, 1, &mut actions);
        self.push_completion_action(status, 2, &mut actions);
        assert(self.available_tx_mailbox@ =~= mailboxes_after_irq(m, *status));
        let ghost head = actions@;
        let mut i: usize = 0;
        while i < 2
            invariant
                i <= 2,
                head == error_actions(*status) + completion_action(*status, 0) + completion_action(*status, 1)
                    + completion_action(*status, 2),
                i == 0 ==> actions@ == head,
                i == 1 ==> actions@ == head + fifo_actions(*status, 0),
                i == 2 ==> actions@ == head + fifo_actions(*status, 0) + fifo_actions(*status, 1),
                i == 0 ==> !self.receive_flag,
                i == 1 ==> self.receive_flag == (status.fifo_pending@[0] != 0),
                i == 2 ==> self.receive_flag == irq_receives(*status),
                self.available_tx_mailbox@ == mailboxes_after_irq(m, *status),
            decreases 2 - i,
        {
            self.push_fifo_actions(status, i, &mut actions);
            i = i + 1;
        }
        actions
    }
}

/// An interrupt never occupies a mailbox: what was free stays free.
pub proof fn lemma_irq_keeps_free_mailboxes(m: Seq<bool>, s: IrqStatus, k: int)
    requires
        m.len() == 3,
        0 <= k < 3,
        m[k],
    ensures
        mailboxes_after_irq(m, s)[k],
{
}

/// The mailbox a write took stays busy through an interrupt unless that
/// interrupt reports its request complete or the error warning aborted every
/// transmission.
pub proof fn lemma_taken_mailbox_freed_by_completion(m: Seq<bool>, s: IrqStatus)
    requires
        m.len() == 3,
        first_free(m) is Some,
    ensures
        mailboxes_after_irq(mailboxes_after_write(m), s)[first_free(m)->0] == (s.error_warning
            || s.request_completed@[first_free(m)->0]),
{
    lemma_first_free_is_lowest(m);
}

/// A frame of one to eight bytes written to a transmit mailbox comes back whole
/// from a receive mailbox that holds the same length and data words (as in
/// loopback mode); of a frame of at most four bytes the high word is not
/// written, so the receive side may hold anything there.
pub proof fn lemma_loopback_payload(k: int, id_type: IdType, id: u32, data: Seq<u8>, rx: RxMailbox)
    requires
        1 <= data.len() <= 8,
        rx.dlc == mailbox_write(k, id_type, id, data).dlc,
        Some(rx.rdlr) == mailbox_write(k, id_type, id, data).data_low,
        data.len() > 4 ==> Some(rx.rdhr) == mailbox_write(k, id_type, id, data).data_high,
    ensures
        received_frame(rx).len == data.len(),
        frame_bytes(received_frame(rx).payload, received_frame(rx).len as nat) == data,
{
    assert(rx.dlc as int == data.len());
    assert(rx.rdlr == le_word(data, 0));
    lemma_payload_round_trip(data, rx.rdhr);
}


/// The identifier of the empty extended frame that answers a received frame.
pub const REPLY_ID: u32 = 0x0000_0001;

impl Can {
    /// After an interrupt that received a frame, hands an empty extended frame
    /// with identifier `REPLY_ID` to the lowest free transmit mailbox; after one
    /// that received none, does nothing.
    pub fn answer_received_frame(&mut self) -> (w: Option<MailboxWrite>)
        ensures
            old(self).receive_flag ==> w == (match first_free(old(self).available_tx_mailbox@) {
                Some(k) => Some(mailbox_write(k, IdType::Extended, REPLY_ID, Seq::empty())),
                None => None,
            }),
            old(self).receive_flag ==> final(self).available_tx_mailbox@ == mailboxes_after_write(
                old(self).available_tx_mailbox@,
            ),
            !old(self).receive_flag ==> w is None,
            !old(self).receive_flag ==> final(self).available_tx_mailbox@ == old(self).available_tx_mailbox@,
            final(self).receive_flag == old(self).receive_flag,
    {
        if self.receive_flag {
            let empty: Vec<u8> = Vec::new();
            self.write_to_mailbox(IdType::Extended, REPLY_ID, empty.as_slice())
        } else {
            None
        }
    }
}


/// Whether an interrupt step releases a receive FIFO or delivers a frame.
pub open spec fn is_receive_action(a: IrqAction) -> bool {
    match a {
        IrqAction::ReleaseFifo(_) => true,
        IrqAction::Deliver(_) => true,
        _ => false,
    }
}

proof fn lemma_no_receive_concat(a: Seq<IrqAction>, b: Seq<IrqAction>)
    requires
        forall|j: int| 0 <= j < a.len() ==> !is_receive_action(#[trigger] a[j]),
        forall|j: int| 0 <= j < b.len() ==> !is_receive_action(#[trigger] b[j]),
    ensures
        forall|j: int| 0 <= j < (a + b).len() ==> !is_receive_action(#[trigger] (a + b)[j]),
{
    assert forall|j: int| 0 <= j < (a + b).len() implies !is_receive_action(#[trigger] (a + b)[j]) by {
        if j < a.len() {
            assert((a + b)[j] == a[j]);
        } else {
            assert((a + b)[j] == b[j - a.len()]);
        }
    }
}

proof fn lemma_status_steps_not_receive(s: IrqStatus)
    ensures
        forall|j: int|
            0 <= j < (error_actions(s) + completion_action(s, 0) + completion_action(s, 1) + completion_action(
                s,
                2,
            )).len() ==> !is_receive_action(
                #[trigger] (error_actions(s) + completion_action(s, 0) + completion_action(s, 1) + completion_action(
                    s,
                    2,
                ))[j],
            ),
{
    let e1: Seq<IrqAction> = if s.error_passive {
        seq![IrqAction::Report(ErrorState::ErrorPassive), IrqAction::ClearErrorInterrupt]
    } else {
        Seq::empty()
    };
    let e2: Seq<IrqAction> = if s.error_warning {
        seq![
            IrqAction::Report(ErrorState::Warning),
            IrqAction::ClearErrorInterrupt,
            IrqAction::AbortTransmit(0),
            IrqAction::AbortTransmit(1),
            IrqAction::AbortTransmit(2),
        ]
    } else {
        Seq::empty()
    };
    let e3: Seq<IrqAction> = if s.bus_off {
        seq![IrqAction::Report(ErrorState::BussOff), IrqAction::ClearErrorInterrupt]
    } else {
        Seq::empty()
    };
    assert(error_actions(s) == e1 + e2 + e3);
    assert forall|j: int| 0 <= j < e1.len() implies !is_receive_action(#[trigger] e1[j]) by {}
    assert forall|j: int| 0 <= j < e2.len() implies !is_receive_action(#[trigger] e2[j]) by {}
    assert forall|j: int| 0 <= j < e3.len() implies !is_receive_action(#[trigger] e3[j]) by {}
    lemma_no_receive_concat(e1, e2);
    lemma_no_receive_concat(e1 + e2, e3);
    let c0 = completion_action(s, 0);
    let c1 = completion_action(s, 1);
    let c2 = completion_action(s, 2);
    assert forall|j: int| 0 <= j < c0.len() implies !is_receive_action(#[trigger] c0[j]) by {}
    assert forall|j: int| 0 <= j < c1.len() implies !is_receive_action(#[trigger] c1[j]) by {}
    assert forall|j: int| 0 <= j < c2.len() implies !is_receive_action(#[trigger] c2[j]) by {}
    lemma_no_receive_concat(error_actions(s), c0);
    lemma_no_receive_concat(error_actions(s) + c0, c1);
    lemma_no_receive_concat(error_actions(s) + c0 + c1, c2);
}

/// Every receive FIFO holding at least one frame (a pending count of 1, 2 or 3)
/// is served: its output mailbox is released and, right after, the frame in it
/// is delivered. A FIFO holding none is never released. Every delivery comes
/// right after the release of a FIFO that held a frame, and carries that FIFO's
/// frame; with both FIFOs empty nothing is delivered.
pub proof fn lemma_irq_serves_pending_fifos(s: IrqStatus)
    ensures
        forall|i: int|
            0 <= i < 2 && s.fifo_pending@[i] != 0 ==> exists|j: int|
                0 <= j && j + 1 < irq_actions(s).len() && #[trigger] irq_actions(s)[j] == IrqAction::ReleaseFifo(
                    i as usize,
                ) && irq_actions(s)[j + 1] == IrqAction::Deliver(received_frame(s.rx@[i])),
        forall|i: int|
            0 <= i < 2 && s.fifo_pending@[i] == 0 ==> !irq_actions(s).contains(
                IrqAction::ReleaseFifo(i as usize),
            ),
        forall|j: int|
            0 <= j < irq_actions(s).len() && (#[trigger] irq_actions(s)[j] is Deliver) ==> 1 <= j && exists|i: int|
                0 <= i < 2 && s.fifo_pending@[i] != 0 && irq_actions(s)[j - 1] == IrqAction::ReleaseFifo(
                    i as usize,
                ) && irq_actions(s)[j] == IrqAction::Deliver(received_frame(#[trigger] s.rx@[i])),
{
    let p = error_actions(s) + completion_action(s, 0) + completion_action(s, 1) + completion_action(s, 2);
    lemma_status_steps_not_receive(s);
    let f0 = fifo_actions(s, 0);
    let f1 = fifo_actions(s, 1);
    let a = irq_actions(s);
    assert(a == p + f0 + f1);
    let n = p.len() as int;
    assert forall|j: int| 0 <= j < n implies a[j] == p[j] && !is_receive_action(#[trigger] a[j]) by {
        assert(!is_receive_action(p[j]));
    }
    // positions of the receive steps
    if s.fifo_pending@[0] != 0 {
        assert(a[n] == IrqAction::ReleaseFifo(0));
        assert(a[n + 1] == IrqAction::Deliver(received_frame(s.rx@[0])));
    }
    let m = n + f0.len();
    if s.fifo_pending@[1] != 0 {
        assert(a[m] == IrqAction::ReleaseFifo(1));
        assert(a[m + 1] == IrqAction::Deliver(received_frame(s.rx@[1])));
    }
    assert forall|j: int| n <= j < m implies #[trigger] a[j] == f0[j - n] by {}
    assert forall|j: int| m <= j < a.len() implies #[trigger] a[j] == f1[j - m] by {}
    assert forall|i: int| 0 <= i < 2 && s.fifo_pending@[i] == 0 implies !a.contains(
        IrqAction::ReleaseFifo(i as usize),
    ) by {
        assert forall|j: int| 0 <= j < a.len() implies a[j] != IrqAction::ReleaseFifo(i as usize) by {
            if j < n {
                assert(!is_receive_action(a[j]));
            } else if j < m {
                assert(a[j] == f0[j - n]);
            } else {
                assert(a[j] == f1[j - m]);
            }
        }
    }
    assert forall|j: int|
        0 <= j < a.len() && (#[trigger] a[j] is Deliver) implies 1 <= j && exists|i: int|
        0 <= i < 2 && s.fifo_pending@[i] != 0 && a[j - 1] == IrqAction::ReleaseFifo(i as usize) && a[j]
            == IrqAction::Deliver(received_frame(#[trigger] s.rx@[i])) by {
        if j < n {
            assert(!is_receive_action(a[j]));
        } else if j < m {
            assert(a[j] == f0[j - n]);
            assert(j == n + 1);
            assert(s.fifo_pending@[0] != 0 && a[j - 1] == IrqAction::ReleaseFifo(0 as usize) && a[j]
                == IrqAction::Deliver(received_frame(s.rx@[0])));
        } else {
            assert(a[j] == f1[j - m]);
            assert(j == m + 1);
            assert(s.fifo_pending@[1] != 0 && a[j - 1] == IrqAction::ReleaseFifo(1 as usize) && a[j]
                == IrqAction::Deliver(received_frame(s.rx@[1])));
        }
    }
}

/// A frame looped back keeps its identifier: a standard identifier below 0x800
/// written to STID comes back as the frame's identifier from a standard receive
/// mailbox with that STID, and an extended identifier below 2^29 comes back from
/// an extended receive mailbox whose RIR holds it above the IDE bit.
pub proof fn lemma_loopback_identifier(k: int, id_type: IdType, id: u32, data: Seq<u8>, rx: RxMailbox)
    ensures
        id_type == IdType::Standard && id < 0x800 && !rx.extended && rx.stid == mailbox_write(
            k,
            id_type,
            id,
            data,
        ).stid ==> received_frame(rx).id == id,
        id_type == IdType::Extended && id < 0x2000_0000 && rx.extended && rx.rir == ((id << 3u32) | 4u32)
            ==> received_frame(rx).id == id,
{
    if id_type == IdType::Standard && id < 0x800 {
        assert((id as u16) as u32 == id) by (bit_vector)
            requires
                id < 0x800,
        ;
    }
    if id_type == IdType::Extended && id < 0x2000_0000 {
        assert(((id << 3u32) | 4u32) >> 3u32 == id) by (bit_vector)
            requires
                id < 0x2000_0000,
        ;
    }
}


proof fn lemma_contains_concat(a: Seq<IrqAction>, b: Seq<IrqAction>, x: IrqAction)
    ensures
        (a + b).contains(x) <==> (a.contains(x) || b.contains(x)),
{
    if a.contains(x) {
        let j = choose|j: int| 0 <= j < a.len() && a[j] == x;
        assert((a + b)[j] == x);
    }
    if b.contains(x) {
        let j = choose|j: int| 0 <= j < b.len() && b[j] == x;
        assert((a + b)[a.len() + j] == x);
    }
    if (a + b).contains(x) {
        let j = choose|j: int| 0 <= j < (a + b).len() && (a + b)[j] == x;
        if j < a.len() {
            assert(a[j] == x);
        } else {
            assert(b[j - a.len()] == x);
        }
    }
}

/// What the handler does about the error and completion flags: it reports
/// each error state exactly when its flag is set, clears the error interrupt
/// exactly when some error flag is set, aborts the three transmissions exactly
/// on the error warning (which frees every mailbox), and acknowledges a
/// mailbox's completed request exactly when that mailbox reports one.
pub proof fn lemma_irq_status_steps(s: IrqStatus, m: Seq<bool>)
    requires
        m.len() == 3,
    ensures
        irq_actions(s).contains(IrqAction::Report(ErrorState::ErrorPassive)) <==> s.error_passive,
        irq_actions(s).contains(IrqAction::Report(ErrorState::Warning)) <==> s.error_warning,
        irq_actions(s).contains(IrqAction::Report(ErrorState::BussOff)) <==> s.bus_off,
        !irq_actions(s).contains(IrqAction::Report(ErrorState::NoError)),
        irq_actions(s).contains(IrqAction::ClearErrorInterrupt) <==> (s.error_passive || s.error_warning
            || s.bus_off),
        forall|k: int|
            0 <= k < 3 ==> (#[trigger] irq_actions(s).contains(IrqAction::AbortTransmit(k as usize))
                <==> s.error_warning),
        forall|k: int|
            0 <= k < 3 ==> (#[trigger] irq_actions(s).contains(IrqAction::AckTransmitComplete(k as usize))
                <==> s.request_completed@[k]),
        s.error_warning ==> mailboxes_after_irq(m, s) == seq![true, true, true],
        forall|k: int| 0 <= k < 3 && s.request_completed@[k] ==> #[trigger] mailboxes_after_irq(m, s)[k],
        forall|k: int|
            0 <= k < 3 && !m[k] && !s.error_warning && !s.request_completed@[k] ==> !#[trigger] mailboxes_after_irq(
                m,
                s,
            )[k],
{
    let e1: Seq<IrqAction> = if s.error_passive {
        seq![IrqAction::Report(ErrorState::ErrorPassive), IrqAction::ClearErrorInterrupt]
    } else {
        Seq::empty()
    };
    let e2: Seq<IrqAction> = if s.error_warning {
        seq![
            IrqAction::Report(ErrorState::Warning),
            IrqAction::ClearErrorInterrupt,
            IrqAction::AbortTransmit(0),
            IrqAction::AbortTransmit(1),
            IrqAction::AbortTransmit(2),
        ]
    } else {
        Seq::empty()
    };
    let e3: Seq<IrqAction> = if s.bus_off {
        seq![IrqAction::Report(ErrorState::BussOff), IrqAction::ClearErrorInterrupt]
    } else {
        Seq::empty()
    };
    let c0 = completion_action(s, 0);
    let c1 = completion_action(s, 1);
    let c2 = completion_action(s, 2);
    let f0 = fifo_actions(s, 0);
    let f1 = fifo_actions(s, 1);
    let a = irq_actions(s);
    assert(a == e1 + e2 + e3 + c0 + c1 + c2 + f0 + f1);
    assert forall|x: IrqAction| #[trigger] a.contains(x) <==> (e1.contains(x) || e2.contains(x) || e3.contains(x)
        || c0.contains(x) || c1.contains(x) || c2.contains(x) || f0.contains(x) || f1.contains(x)) by {
        lemma_contains_concat(e1, e2, x);
        lemma_contains_concat(e1 + e2, e3, x);
        lemma_contains_concat(e1 + e2 + e3, c0, x);
        lemma_contains_concat(e1 + e2 + e3 + c0, c1, x);
        lemma_contains_concat(e1 + e2 + e3 + c0 + c1, c2, x);
        lemma_contains_concat(e1 + e2 + e3 + c0 + c1 + c2, f0, x);
        lemma_contains_concat(e1 + e2 + e3 + c0 + c1 + c2 + f0, f1, x);
    }
    // each piece's members, written out
    assert forall|x: IrqAction| #[trigger] e1.contains(x) <==> (s.error_passive && (x == IrqAction::Report(
        ErrorState::ErrorPassive) || x == IrqAction::ClearErrorInterrupt)) by {
        if s.error_passive && x == IrqAction::ClearErrorInterrupt {
            assert(e1[1] == x);
        }
        if s.error_passive && x == IrqAction::Report(ErrorState::ErrorPassive) {
            assert(e1[0] == x);
        }
    }
    assert forall|x: IrqAction| #[trigger] e2.contains(x) <==> (s.error_warning && (x == IrqAction::Report(
        ErrorState::Warning) || x == IrqAction::ClearErrorInterrupt || x == IrqAction::AbortTransmit(0)
        || x == IrqAction::AbortTransmit(1) || x == IrqAction::AbortTransmit(2))) by {
        if s.error_warning {
            if x == IrqAction::Report(ErrorState::Warning) {
                assert(e2[0] == x);
            }
            if x == IrqAction::ClearErrorInterrupt {
                assert(e2[1] == x);
            }
            if x == IrqAction::AbortTransmit(0) {
                assert(e2[2] == x);
            }
            if x == IrqAction::AbortTransmit(1) {
                assert(e2[3] == x);
            }
            if x == IrqAction::AbortTransmit(2) {
                assert(e2[4] == x);
            }
        }
    }
    assert forall|x: IrqAction| #[trigger] e3.contains(x) <==> (s.bus_off && (x == IrqAction::Report(
        ErrorState::BussOff) || x == IrqAction::ClearErrorInterrupt)) by {
        if s.bus_off && x == IrqAction::ClearErrorInterrupt {
            assert(e3[1] == x);
        }
        if s.bus_off && x == IrqAction::Report(ErrorState::BussOff) {
            assert(e3[0] == x);
        }
    }
    assert forall|x: IrqAction| #[trigger] c0.contains(x) <==> (s.request_completed@[0] && x
        == IrqAction::AckTransmitComplete(0)) by {
        if s.request_completed@[0] && x == IrqAction::AckTransmitComplete(0) {
            assert(c0[0] == x);
        }
    }
    assert forall|x: IrqAction| #[trigger] c1.contains(x) <==> (s.request_completed@[1] && x
        == IrqAction::AckTransmitComplete(1)) by {
        if s.request_completed@[1] && x == IrqAction::AckTransmitComplete(1) {
            assert(c1[0] == x);
        }
    }
    assert forall|x: IrqAction| #[trigger] c2.contains(x) <==> (s.request_completed@[2] && x
        == IrqAction::AckTransmitComplete(2)) by {
        if s.request_completed@[2] && x == IrqAction::AckTransmitComplete(2) {
            assert(c2[0] == x);
        }
    }
    assert forall|x: IrqAction| #[trigger] f0.contains(x) implies is_receive_action(x) by {
        let j = choose|j: int| 0 <= j < f0.len() && f0[j] == x;
    }
    assert forall|x: IrqAction| #[trigger] f1.contains(x) implies is_receive_action(x) by {
        let j = choose|j: int| 0 <= j < f1.len() && f1[j] == x;
    }
    assert(a.contains(IrqAction::Report(ErrorState::ErrorPassive)) <==> s.error_passive);
    assert(a.contains(IrqAction::Report(ErrorState::Warning)) <==> s.error_warning);
    assert(a.contains(IrqAction::Report(ErrorState::BussOff)) <==> s.bus_off);
    assert(!a.contains(IrqAction::Report(ErrorState::NoError)));
    assert(a.contains(IrqAction::ClearErrorInterrupt) <==> (s.error_passive || s.error_warning || s.bus_off));
    assert forall|k: int| 0 <= k < 3 implies (#[trigger] a.contains(IrqAction::AbortTransmit(k as usize))
        <==> s.error_warning) by {
        assert(a.contains(IrqAction::AbortTransmit(k as usize)) <==> e2.contains(IrqAction::AbortTransmit(k as usize)));
    }
    assert forall|k: int| 0 <= k < 3 implies (#[trigger] a.contains(IrqAction::AckTransmitComplete(k as usize))
        <==> s.request_completed@[k]) by {
        let x = IrqAction::AckTransmitComplete(k as usize);
        assert(a.contains(x) <==> (c0.contains(x) || c1.contains(x) || c2.contains(x)));
    }
    if s.error_warning {
        assert(mailboxes_after_irq(m, s) =~= seq![true, true, true]);
    }
}

/// The receive flag is set after an interrupt exactly when the handler
/// delivered a frame.
pub proof fn lemma_receive_flag_means_delivery(s: IrqStatus)
    ensures
        irq_receives(s) <==> exists|j: int| 0 <= j < irq_actions(s).len() && (#[trigger] irq_actions(s)[j] is Deliver),
{
    lemma_irq_serves_pending_fifos(s);
    if irq_receives(s) {
        if s.fifo_pending@[0] != 0 {
            let j = choose|j: int|
                0 <= j && j + 1 < irq_actions(s).len() && #[trigger] irq_actions(s)[j] == IrqAction::ReleaseFifo(
                    0 as usize,
                ) && irq_actions(s)[j + 1] == IrqAction::Deliver(received_frame(s.rx@[0]));
            assert(irq_actions(s)[j + 1] is Deliver);
        } else {
            let j = choose|j: int|
                0 <= j && j + 1 < irq_actions(s).len() && #[trigger] irq_actions(s)[j] == IrqAction::ReleaseFifo(
                    1 as usize,
                ) && irq_actions(s)[j + 1] == IrqAction::Deliver(received_frame(s.rx@[1]));
            assert(irq_actions(s)[j + 1] is Deliver);
        }
    }
}


/// A received frame never claims more than the eight bytes its payload holds,
/// and a data length code of at most eight is taken as the frame's length.
pub proof fn lemma_received_length(rx: RxMailbox)
    ensures
        received_frame(rx).len <= 8,
        rx.dlc <= 8 ==> received_frame(rx).len == rx.dlc,
        rx.dlc > 8 ==> received_frame(rx).len == 8,
{
}

} // verus!
