//! Payment orders handed to a driver, read with the documents they pay.
use vstd::prelude::*;
use crate::dao::debit_note::{contains_text, texts_view};
use crate::dao::invoice::select_by;
use crate::ledger::{has_key, Ledger};
use crate::models::clone_opt;
use crate::text::text_eq;

verus! {

/// A payment order: what the payer pays the payee through a driver, for an invoice or a
/// debit note, from an allocation.
#[derive(Debug)]
pub struct OrderRow {
    pub id: String,
    pub driver: String,
    pub amount: i128,
    pub payee_id: String,
    pub payer_id: String,
    pub payee_addr: String,
    pub payer_addr: String,
    pub payment_platform: String,
    pub invoice_id: Option<String>,
    pub debit_note_id: Option<String>,
    pub allocation_id: String,
    pub is_paid: bool,
}

impl OrderRow {
    pub fn duplicate(&self) -> (r: Self)
        ensures
            r == *self,
    {
        OrderRow {
            id: self.id.clone(),
            driver: self.driver.clone(),
            amount: self.amount,
            payee_id: self.payee_id.clone(),
            payer_id: self.payer_id.clone(),
            payee_addr: self.payee_addr.clone(),
            payer_addr: self.payer_addr.clone(),
            payment_platform: self.payment_platform.clone(),
            invoice_id: clone_opt(&self.invoice_id),
            debit_note_id: clone_opt(&self.debit_note_id),
            allocation_id: self.allocation_id.clone(),
            is_paid: self.is_paid,
        }
    }
}

/// An order with the agreement of its invoice and the activity of its debit note, where the
/// payer keeps them.
#[derive(Debug)]
pub struct OrderRead {
    pub order: OrderRow,
    pub agreement_id: Option<String>,
    pub activity_id: Option<String>,
}

/// The payment orders a node keeps.
#[derive(Debug)]
pub struct OrderDao {
    pub orders: Vec<OrderRow>,
}

/// The agreement of the invoice that order `o` pays, where its payer keeps that invoice.
pub open spec fn order_agreement(l: &Ledger, o: OrderRow) -> Option<String> {
    match o.invoice_id {
        Some(i) => if has_key(l.invoices@, i@, o.payer_id@) {
            Some(l.invoice(i@, o.payer_id@).agreement_id)
        } else {
            None
        },
        None => None,
    }
}

/// The activity of the debit note that order `o` pays, where its payer keeps that note.
pub open spec fn order_activity(l: &Ledger, o: OrderRow) -> Option<String> {
    match o.debit_note_id {
        Some(i) => if has_key(l.debit_notes@, i@, o.payer_id@) {
            Some(l.debit_note(i@, o.payer_id@).activity_id)
        } else {
            None
        },
        None => None,
    }
}

/// `r` reads the orders `s`, one for one, in order.
pub open spec fn order_reads(l: &Ledger, r: Seq<OrderRead>, s: Seq<OrderRow>) -> bool {
    &&& r.len() == s.len()
    &&& forall|k: int|
        0 <= k < s.len() ==> (#[trigger] r[k]).order == s[k] && r[k].agreement_id == order_agreement(l, s[k])
            && r[k].activity_id == order_activity(l, s[k])
}

impl OrderDao {
    /// The orders through `driver` named in `ids`, in stored order, each with the agreement
    /// of its invoice and the activity of its debit note.
    pub fn get_many(&self, ledger: &Ledger, ids: &Vec<String>, driver: &str) -> (r: Vec<OrderRead>)
        requires
            ledger.wf(),
        ensures
            order_reads(
                ledger,
                r@,
                select_by(
                    self.orders@,
                    |o: OrderRow| texts_view(ids@).contains(o.id@) && o.driver@ == driver@,
                ),
            ),
    {
        let ghost p = |o: OrderRow| texts_view(ids@).contains(o.id@) && o.driver@ == driver@;
        let ghost picked: Seq<OrderRow> = Seq::empty();
        let mut r: Vec<OrderRead> = Vec::new();
        let mut k: usize = 0;
        while k < self.orders.len()
            invariant
                0 <= k <= self.orders.len(),
                ledger.wf(),
                p == (|o: OrderRow| texts_view(ids@).contains(o.id@) && o.driver@ == driver@),
                order_reads(ledger, r@, select_by(self.orders@.take(k as int), p)),
            decreases self.orders.len() - k,
        {
            proof {
                assert(self.orders@.take(k + 1).drop_last() =~= self.orders@.take(k as int));
                assert(self.orders@.take(k + 1).last() == self.orders@[k as int]);
            }
            let o = &self.orders[k];
            if contains_text(ids, o.id.as_str()) && text_eq(o.driver.as_str(), driver) {
                let agreement_id = match &o.invoice_id {
                    Some(i) => match crate::dao::invoice::locate_invoice(ledger, i.as_str(), o.payer_id.as_str()) {
                        Some(x) => Some(ledger.invoices[x].agreement_id.clone()),
                        None => None,
                    },
                    None => None,
                };
                let activity_id = match &o.debit_note_id {
                    Some(i) => match crate::dao::debit_note::locate_note(ledger, i.as_str(), o.payer_id.as_str()) {
                        Some(x) => Some(ledger.debit_notes[x].activity_id.clone()),
                        None => None,
                    },
                    None => None,
                };
                let ghost before = r@;
                r.push(OrderRead { order: o.duplicate(), agreement_id, activity_id });
                proof {
                    assert forall|j: int| 0 <= j < r@.len() implies (#[trigger] r@[j]).order
                        == select_by(self.orders@.take(k + 1), p)[j] && r@[j].agreement_id == order_agreement(
                        ledger,
                        select_by(self.orders@.take(k + 1), p)[j],
                    ) && r@[j].activity_id == order_activity(ledger, select_by(self.orders@.take(k + 1), p)[j]) by {
                        if j < before.len() {
                            assert(r@[j] == before[j]);
                        }
                    }
                }
            }
            k = k + 1;
        }
        proof {
            assert(self.orders@.take(k as int) =~= self.orders@);
        }
        r
    }
}

} // verus!
