//! Payments: what outgoing tasks pay, and which payments incoming tasks must
//! show.

use vstd::prelude::*;
use crate::agent::{Task, TaskView};
use crate::node::{LmaoNode, NodeState, PaymentView};
use crate::text::{contains_text, same_text, texts};

verus! {

/// What `str::to_lowercase` makes of a text.
pub uninterp spec fn lowercase(s: Seq<char>) -> Seq<char>;

/// `str::to_lowercase`: the lower-case form, which depends on the text alone.
#[verifier::external_body]
fn to_lowercase(s: &str) -> (res: String)
    ensures
        res@ == lowercase(s@),
{
    s.to_lowercase()
}

/// What the chain says of a transfer.
#[derive(Debug)]
pub struct TransferDetails {
    pub from: String,
    pub to: String,
    pub amount: u64,
    pub block_number: u64,
}

/// What is to be done about a task's payment.
#[derive(Debug)]
pub enum PaymentCheck {
    /// The task is accepted.
    Accept,
    /// The task is rejected.
    Reject,
    /// The transfer with this hash is to be looked up on chain.
    LookUp(String),
}

/// What a [`PaymentCheck`] says.
#[verifier::ext_equal]
pub enum CheckView {
    Accept,
    Reject,
    LookUp(Seq<char>),
}

impl View for PaymentCheck {
    type V = CheckView;

    open spec fn view(&self) -> CheckView {
        match self {
            PaymentCheck::Accept => CheckView::Accept,
            PaymentCheck::Reject => CheckView::Reject,
            PaymentCheck::LookUp(tx) => CheckView::LookUp(tx@),
        }
    }
}

/// Whether a payment is asked for at all.
pub open spec fn asks_payment(st: NodeState) -> bool {
    st.payment is Some && st.payment->0.required_amount > 0
}

/// What is to be done about a task's payment: nothing where none is asked for;
/// otherwise the task must name a transfer that was not used before, and either
/// claim enough or have the transfer looked up.
pub open spec fn payment_check(st: NodeState, task: TaskView) -> CheckView {
    if !asks_payment(st) {
        CheckView::Accept
    } else if task.payment_tx is None || task.payment_tx->0.len() == 0 {
        CheckView::Reject
    } else if st.seen_payments.contains(task.payment_tx->0) {
        CheckView::Reject
    } else if st.payment->0.verify_on_chain {
        CheckView::LookUp(task.payment_tx->0)
    } else if task.payment_amount is Some && task.payment_amount->0
        >= st.payment->0.required_amount {
        CheckView::Accept
    } else {
        CheckView::Reject
    }
}

/// The node with one more payment used up.
pub open spec fn with_payment_seen(st: NodeState, tx: Seq<char>) -> NodeState {
    NodeState {
        seen_payments: if st.seen_payments.contains(tx) {
            st.seen_payments
        } else {
            st.seen_payments.push(tx)
        },
        ..st
    }
}

/// The node after a task's payment was checked: an accepted payment is used up.
pub open spec fn after_check(st: NodeState, task: TaskView) -> NodeState {
    if asks_payment(st) && payment_check(st, task) is Accept {
        with_payment_seen(st, task.payment_tx->0)
    } else {
        st
    }
}

/// Whether a transfer that was looked up pays: it was found, moved enough, and
/// went to the account that is asked for, whatever the case of its letters.
pub open spec fn transfer_pays(
    payment: PaymentView,
    transfer: Result<TransferDetails, String>,
) -> bool {
    match transfer {
        Ok(details) => details.amount >= payment.required_amount && (
        payment.receiving_account.len() == 0 || lowercase(details.to@) == lowercase(
            payment.receiving_account,
        )),
        Err(_) => false,
    }
}

/// The amount that an outgoing task pays, if any.
pub open spec fn amount_to_pay(st: NodeState) -> Option<u64> {
    match st.payment {
        Some(p) => if p.auto_pay && p.auto_pay_amount > 0 {
            Some(p.auto_pay_amount)
        } else {
            None
        },
        None => None,
    }
}

/// A task with the proof of its payment.
pub open spec fn paid(task: TaskView, tx: Seq<char>, amount: u64) -> TaskView {
    TaskView { payment_tx: Some(tx), payment_amount: Some(amount), ..task }
}

/// Attaches the proof of a payment to a task.
pub fn attach_payment(task: &Task, tx_hash: String, amount: u64) -> (res: Task)
    ensures
        res@ == paid(task@, tx_hash@, amount),
{
    let mut out = task.clone();
    out.payment_tx = Some(tx_hash);
    out.payment_amount = Some(amount);
    out
}

impl<T> LmaoNode<T> {
    /// The amount that an outgoing task is to pay its recipient, if any.
    pub fn auto_pay_amount(&self) -> (res: Option<u64>)
        ensures
            res == amount_to_pay(self@),
    {
        match &self.payment {
            Some(p) => {
                if p.auto_pay && p.auto_pay_amount > 0 {
                    Some(p.auto_pay_amount)
                } else {
                    None
                }
            },
            None => None,
        }
    }

    /// Checks the payment of an incoming task as far as that can be done without
    /// looking at the chain. An accepted payment cannot be used again.
    pub fn verify_payment(&mut self, task: &Task) -> (res: PaymentCheck)
        requires
            old(self).wf(),
        ensures
            final(self).wf(),
            final(self).carrier() == old(self).carrier(),
            res@ == payment_check(old(self)@, task@),
            final(self)@ == after_check(old(self)@, task@),
    {
        let (required, on_chain): (u64, bool) = match &self.payment {
            Some(p) => (p.required_amount, p.verify_on_chain),
            None => return PaymentCheck::Accept,
        };
        if required == 0 {
            return PaymentCheck::Accept;
        }
        let tx_hash = match &task.payment_tx {
            Some(tx) => {
                if tx.as_str().is_empty() {
                    return PaymentCheck::Reject;
                }
                tx.clone()
            },
            None => return PaymentCheck::Reject,
        };
        if contains_text(&self.seen_payments, tx_hash.as_str()) {
            return PaymentCheck::Reject;
        }
        if on_chain {
            return PaymentCheck::LookUp(tx_hash);
        }
        match task.payment_amount {
            Some(amount) => {
                if amount >= required {
                    self.mark_payment(tx_hash);
                    PaymentCheck::Accept
                } else {
                    PaymentCheck::Reject
                }
            },
            None => PaymentCheck::Reject,
        }
    }

    /// Decides about a payment that was looked up on chain. An accepted payment
    /// cannot be used again.
    pub fn settle_payment(
        &mut self,
        tx_hash: &str,
        transfer: Result<TransferDetails, String>,
    ) -> (res: bool)
        requires
            old(self).wf(),
        ensures
            final(self).wf(),
            final(self).carrier() == old(self).carrier(),
            match old(self)@.payment {
                Some(p) => {
                    &&& res == transfer_pays(p, transfer)
                    &&& final(self)@ == if res {
                        with_payment_seen(old(self)@, tx_hash@)
                    } else {
                        old(self)@
                    }
                },
                None => res && final(self)@ == old(self)@,
            },
    {
        let pays = match &self.payment {
            Some(p) => match &transfer {
                Ok(details) => {
                    if details.amount < p.required_amount {
                        false
                    } else if p.receiving_account.as_str().is_empty() {
                        true
                    } else {
                        same_text(
                            to_lowercase(details.to.as_str()).as_str(),
                            to_lowercase(p.receiving_account.as_str()).as_str(),
                        )
                    }
                },
                Err(_) => false,
            },
            None => return true,
        };
        if pays {
            self.mark_payment(tx_hash.to_owned());
        }
        pays
    }

    /// Marks a payment as used up.
    fn mark_payment(&mut self, tx_hash: String)
        requires
            old(self).wf(),
        ensures
            final(self).wf(),
            final(self).carrier() == old(self).carrier(),
            final(self)@ == with_payment_seen(old(self)@, tx_hash@),
    {
        if !contains_text(&self.seen_payments, tx_hash.as_str()) {
            let ghost before = texts(self.seen_payments@);
            self.seen_payments.push(tx_hash);
            assert(texts(self.seen_payments@) =~= before.push(tx_hash@));
        }
        assert(self@ =~= with_payment_seen(old(self)@, tx_hash@));
    }
}

/// A payment is accepted at most once: after a task was accepted for it, by claim
/// or by look-up, no task with the same payment passes the check.
pub proof fn payments_cannot_be_replayed(st: NodeState, task: TaskView, later: TaskView)
    requires
        asks_payment(st),
        task.payment_tx is Some,
        later.payment_tx == task.payment_tx,
    ensures
        payment_check(st, task) is Accept ==> payment_check(after_check(st, task), later)
            is Reject,
        payment_check(with_payment_seen(st, task.payment_tx->0), later) is Reject,
{
    let tx = task.payment_tx->0;
    let after = with_payment_seen(st, tx);
    if !st.seen_payments.contains(tx) {
        assert(after.seen_payments[st.seen_payments.len() as int] == tx);
    }
    assert(after.seen_payments.contains(tx));
}

/// What was used up stays used up, whatever is checked later.
pub proof fn payments_stay_seen(st: NodeState, task: TaskView, tx: Seq<char>)
    requires
        st.seen_payments.contains(tx),
    ensures
        after_check(st, task).seen_payments.contains(tx),
        with_payment_seen(st, task.payment_tx->0).seen_payments.contains(tx),
{
    let i = choose|i: int| 0 <= i < st.seen_payments.len() && st.seen_payments[i] == tx;
    let other = task.payment_tx->0;
    assert(st.seen_payments.push(other)[i] == tx);
}

/// A task that passes without a look-up, where payment is asked for, names a
/// transfer and claims enough.
pub proof fn accepted_claims_enough(st: NodeState, task: TaskView)
    requires
        asks_payment(st),
        payment_check(st, task) is Accept,
    ensures
        task.payment_tx is Some && task.payment_tx->0.len() > 0,
        task.payment_amount is Some && task.payment_amount->0 >= st.payment->0.required_amount,
        !st.payment->0.verify_on_chain,
{
}

} // verus!
