//! The import of an account.
//!
//! An import reads every subscription, customer and charge of an account,
//! stores them, and rebuilds the facts of every member that it came across.
use vstd::prelude::*;
use vstd::utf8::encode_utf8;
use crate::bytes::{utf8_of, utf8_text};
use crate::error::{outcome, AppError, ErrorModel};
use crate::services::crypto::{decrypt, opened, CryptoError};
use crate::services::stripe::{payments, total_or_zero, ChargeTotals};
use crate::services::stripe_wire::RawChargeModel;
use crate::text_map::{every_key_has_an_entry, TextMap};

verus! {

/// What a stored key decrypts to.
pub open spec fn key_text(session_secret: Seq<char>, enc: Seq<u8>) -> Result<
    Seq<char>,
    ErrorModel,
> {
    match opened(session_secret, enc) {
        Ok(plain) => match utf8_of(plain) {
            Some(t) => Ok(t),
            None => Err(ErrorModel::Internal("Stripe key is not valid UTF-8"@)),
        },
        Err(_) => Err(ErrorModel::Internal("failed to decrypt Stripe key"@)),
    }
}

/// Decrypts the key of a connected account.
pub fn decrypt_key(session_secret: &str, enc: &[u8]) -> (r: Result<String, AppError>)
    ensures
        outcome(r) == key_text(session_secret@, enc@),
{
    match decrypt(session_secret, enc) {
        Ok(plain) => match utf8_text(plain) {
            Some(key) => Ok(key),
            None => Err(AppError::Internal("Stripe key is not valid UTF-8".to_owned())),
        },
        Err(_) => Err(AppError::Internal("failed to decrypt Stripe key".to_owned())),
    }
}

/// A key that was encrypted is the key that is decrypted.
pub proof fn encrypted_key_reads_back(session_secret: Seq<char>, enc: Seq<u8>, key: Seq<char>)
    requires
        opened(session_secret, enc) == Ok::<Seq<u8>, CryptoError>(encode_utf8(key)),
    ensures
        key_text(session_secret, enc) == Ok::<Seq<char>, ErrorModel>(key),
{
    vstd::utf8::encode_utf8_valid_utf8(key);
    vstd::utf8::encode_utf8_decode_utf8(key);
}

// ---------------------------------------------------------------------------
// The phases of an import
// ---------------------------------------------------------------------------

/// Where an import stands.
#[derive(Debug, Clone, Copy, PartialEq, Eq, Structural)]
pub enum ImportPhase {
    /// The subscriptions are read and stored.
    Subscriptions,
    /// The customers are read and stored.
    Customers,
    /// The charges are read and what each customer paid is stored.
    Charges,
    /// The facts of the members are rebuilt.
    Facts,
    /// The time of the import is stored.
    Stamp,
    /// The role links of the account are put up for a new evaluation.
    FanOut,
    Done,
    Failed,
}

impl ImportPhase {
    /// The phase that comes after this one was finished or failed. An import
    /// goes on without the charges, which the key need not be able to read, and
    /// without facts that could not be rebuilt.
    pub open spec fn next(self, finished: bool) -> ImportPhase {
        match self {
            ImportPhase::Subscriptions => if finished {
                ImportPhase::Customers
            } else {
                ImportPhase::Failed
            },
            ImportPhase::Customers => if finished {
                ImportPhase::Charges
            } else {
                ImportPhase::Failed
            },
            ImportPhase::Charges => ImportPhase::Facts,
            ImportPhase::Facts => ImportPhase::Stamp,
            ImportPhase::Stamp => if finished {
                ImportPhase::FanOut
            } else {
                ImportPhase::Failed
            },
            ImportPhase::FanOut => if finished {
                ImportPhase::Done
            } else {
                ImportPhase::Failed
            },
            ImportPhase::Done => ImportPhase::Done,
            ImportPhase::Failed => ImportPhase::Failed,
        }
    }

    /// Goes on to the next phase.
    pub fn after(self, finished: bool) -> (r: ImportPhase)
        ensures
            r == self.next(finished),
    {
        match self {
            ImportPhase::Subscriptions if finished => ImportPhase::Customers,
            ImportPhase::Customers if finished => ImportPhase::Charges,
            ImportPhase::Charges => ImportPhase::Facts,
            ImportPhase::Facts => ImportPhase::Stamp,
            ImportPhase::Stamp if finished => ImportPhase::FanOut,
            ImportPhase::FanOut if finished => ImportPhase::Done,
            ImportPhase::Done => ImportPhase::Done,
            _ => ImportPhase::Failed,
        }
    }
}

// ---------------------------------------------------------------------------
// The members that an import came across
// ---------------------------------------------------------------------------

/// The ids of the members that an import came across, each once.
#[derive(Debug)]
pub struct TouchedMembers {
    ids: TextMap<()>,
}

impl View for TouchedMembers {
    type V = Set<Seq<char>>;

    closed spec fn view(&self) -> Set<Seq<char>> {
        self.ids@.dom()
    }
}

impl TouchedMembers {
    /// The ids in the order in which they came.
    pub closed spec fn listed(&self) -> Seq<Seq<char>> {
        self.ids.entries_model().map_values(|e: (String, ())| e.0@)
    }

    pub fn new() -> (r: TouchedMembers)
        ensures
            r@ == Set::<Seq<char>>::empty(),
    {
        let r = TouchedMembers { ids: TextMap::new() };
        proof {
            assert(r@ =~= Set::<Seq<char>>::empty());
        }
        r
    }

    /// Adds a member, where there is one.
    pub fn touch(&mut self, discord_id: Option<String>)
        ensures
            final(self)@ == match discord_id {
                Some(id) => old(self)@.insert(id@),
                None => old(self)@,
            },
    {
        match discord_id {
            Some(id) => {
                let ghost before = self@;
                self.ids.insert(id.as_str(), ());
                proof {
                    assert(self@ =~= before.insert(id@));
                }
            },
            None => {},
        }
    }

    /// How many members there are. None of them is listed twice.
    pub fn len(&self) -> (r: usize)
        ensures
            r == self.listed().len(),
            self.listed().no_duplicates(),
    {
        let n = self.ids.len();
        proof {
            let entries = self.ids.entries_model();
            assert forall|i: int, j: int|
                0 <= i < self.listed().len() && 0 <= j < self.listed().len() && i
                    != j implies self.listed()[i] != self.listed()[j] by {
                assert(entries[i].0@ != entries[j].0@);
            }
        }
        n
    }

    /// The member at a place.
    pub fn member(&self, i: usize) -> (r: &str)
        requires
            i < self.listed().len(),
        ensures
            r@ == self.listed()[i as int],
            self@.contains(r@),
    {
        let (id, _) = self.ids.entry(i);
        id
    }
}

/// Every member that was touched is listed.
pub proof fn touched_members_are_listed(t: &TouchedMembers, id: Seq<char>)
    requires
        t@.contains(id),
    ensures
        t.listed().contains(id),
{
    every_key_has_an_entry(&t.ids, id);
    let i = choose|i: int|
        0 <= i < t.ids.entries_model().len() && #[trigger] t.ids.entries_model()[i].0@ == id;
    assert(t.listed()[i] == id);
}

// ---------------------------------------------------------------------------
// What each customer paid
// ---------------------------------------------------------------------------

/// What is stored of what a customer paid.
#[derive(Debug)]
pub struct SpendUpdate {
    pub customer_id: String,
    pub amount_cents: i64,
    pub payments: i32,
}

/// The updates are those of the totals: each customer with a charge that counts
/// has one, with what they paid and how often.
pub open spec fn updates_of(updates: Seq<SpendUpdate>, totals: ChargeTotals) -> bool {
    &&& forall|i: int|
        0 <= i < updates.len() ==> {
            let u = #[trigger] updates[i];
            &&& totals.spend@.dom().contains(u.customer_id@)
            &&& u.amount_cents == totals.spend@[u.customer_id@]
            &&& u.payments == total_or_zero(totals.count@, u.customer_id@) as i32
        }
    &&& forall|customer: Seq<char>| #[trigger]
        totals.spend@.dom().contains(customer) ==> has_update(updates, customer)
    &&& forall|i: int, j: int|
        0 <= i < j < updates.len() ==> (#[trigger] updates[i]).customer_id@ != (
        #[trigger] updates[j]).customer_id@
}

pub open spec fn has_update(updates: Seq<SpendUpdate>, customer: Seq<char>) -> bool {
    exists|i: int| 0 <= i < updates.len() && (#[trigger] updates[i]).customer_id@ == customer
}

/// What is to be stored of the totals: one update for each customer.
pub fn spend_updates(totals: &ChargeTotals) -> (r: Vec<SpendUpdate>)
    ensures
        updates_of(r@, *totals),
        r@.len() == totals.spend.entries_model().len(),
        forall|i: int|
            0 <= i < r@.len() ==> (#[trigger] r@[i]).customer_id@
                == totals.spend.entries_model()[i].0@,
{
    let ghost entries = totals.spend.entries_model();
    let mut out: Vec<SpendUpdate> = Vec::new();
    let n: usize = totals.spend.len();
    let mut i: usize = 0;
    while i < n
        invariant
            entries == totals.spend.entries_model(),
            n == entries.len(),
            i <= n,
            out@.len() == i,
            forall|k: int|
                0 <= k < out@.len() ==> {
                    let u = #[trigger] out@[k];
                    &&& u.customer_id@ == entries[k].0@
                    &&& totals.spend@.dom().contains(u.customer_id@)
                    &&& u.amount_cents == totals.spend@[u.customer_id@]
                    &&& u.payments == total_or_zero(totals.count@, u.customer_id@) as i32
                },
        decreases n - i,
    {
        let (customer, amount) = totals.spend.entry(i);
        let times: i64 = match totals.count.get(customer) {
            Some(v) => *v,
            None => 0,
        };
        out.push(
            SpendUpdate {
                customer_id: customer.to_owned(),
                amount_cents: *amount,
                payments: #[verifier::truncate]
                (times as i32),
            },
        );
        i = i + 1;
    }
    proof {
        assert forall|customer: Seq<char>| #[trigger]
            totals.spend@.dom().contains(customer) implies has_update(out@, customer) by {
            every_key_has_an_entry(&totals.spend, customer);
            let k = choose|k: int|
                0 <= k < entries.len() && #[trigger] entries[k].0@ == customer;
            assert(out@[k].customer_id@ == customer);
        }
        assert forall|i: int, j: int| 0 <= i < j < out@.len() implies (
        #[trigger] out@[i]).customer_id@ != (#[trigger] out@[j]).customer_id@ by {
            assert(entries[i].0@ != entries[j].0@);
        }
    }
    out
}

/// A second import that reads the same charges stores the same of each customer:
/// the same customers have an update, and with the same numbers.
pub proof fn same_charges_store_the_same(
    charges: Seq<RawChargeModel>,
    first: ChargeTotals,
    first_updates: Seq<SpendUpdate>,
    second: ChargeTotals,
    second_updates: Seq<SpendUpdate>,
)
    requires
        first.totals_of(charges),
        second.totals_of(charges),
        updates_of(first_updates, first),
        updates_of(second_updates, second),
    ensures
        forall|customer: Seq<char>| #[trigger]
            has_update(first_updates, customer) <==> has_update(second_updates, customer),
        forall|i: int, j: int|
            0 <= i < first_updates.len() && 0 <= j < second_updates.len() && (
            #[trigger] first_updates[i]).customer_id@ == (
            #[trigger] second_updates[j]).customer_id@ ==> first_updates[i].amount_cents
                == second_updates[j].amount_cents && first_updates[i].payments
                == second_updates[j].payments,
{
    assert forall|customer: Seq<char>|
        first.spend@.dom().contains(customer) <==> second.spend@.dom().contains(customer) by {
        assert(first.spend@.dom().contains(customer) <==> payments(charges, customer) > 0);
        assert(second.spend@.dom().contains(customer) <==> payments(charges, customer) > 0);
    }
    assert forall|customer: Seq<char>| #[trigger]
        has_update(first_updates, customer) <==> has_update(second_updates, customer) by {
        if has_update(first_updates, customer) {
            let i = choose|i: int|
                0 <= i < first_updates.len() && (#[trigger] first_updates[i]).customer_id@
                    == customer;
            assert(first.spend@.dom().contains(customer));
            assert(second.spend@.dom().contains(customer));
        }
        if has_update(second_updates, customer) {
            let i = choose|i: int|
                0 <= i < second_updates.len() && (#[trigger] second_updates[i]).customer_id@
                    == customer;
            assert(second.spend@.dom().contains(customer));
            assert(first.spend@.dom().contains(customer));
        }
    }
}

/// The statement that stores the time of an import; a first one is marked.
pub fn stamp_sql(mark_backfill: bool) -> (r: &'static str)
    ensures
        r@ == if mark_backfill {
            "UPDATE stripe_accounts SET last_synced_at = now(), last_backfill_at = now(), updated_at = now() WHERE id = $1"@
        } else {
            "UPDATE stripe_accounts SET last_synced_at = now(), updated_at = now() WHERE id = $1"@
        },
{
    if mark_backfill {
        "UPDATE stripe_accounts SET last_synced_at = now(), last_backfill_at = now(), updated_at = now() WHERE id = $1"
    } else {
        "UPDATE stripe_accounts SET last_synced_at = now(), updated_at = now() WHERE id = $1"
    }
}

} // verus!
