use vstd::prelude::*;

verus! {

/// An amount of value, in the smallest unit of the payment rail.
pub type Balance = u128;

/// An opaque, already-authenticated account identifier. Accounts are only
/// ever compared for equality.
#[derive(Clone, Copy, Debug, PartialEq, Eq, Structural, Hash)]
pub struct AccountId(pub u64);

/// A ticket record as the registry stores it.
#[derive(Debug)]
pub struct Ticket {
    pub id: u64,
    pub event_name: String,
    /// Stored for reference; no operation enforces it.
    pub expiration_date: u64,
    pub owner: AccountId,
}

/// The mathematical content of a [`Ticket`].
pub struct TicketView {
    pub id: u64,
    pub event_name: Seq<char>,
    pub expiration_date: u64,
    pub owner: AccountId,
}

impl View for Ticket {
    type V = TicketView;

    open spec fn view(&self) -> TicketView {
        TicketView {
            id: self.id,
            event_name: self.event_name@,
            expiration_date: self.expiration_date,
            owner: self.owner,
        }
    }
}

impl Ticket {
    /// A field-by-field copy of the record.
    pub fn duplicate(&self) -> (r: Ticket)
        ensures
            r@ == self@,
    {
        Ticket {
            id: self.id,
            event_name: self.event_name.clone(),
            expiration_date: self.expiration_date,
            owner: self.owner,
        }
    }
}

/// A ticket was created and handed to its first owner.
#[derive(Clone, Copy, Debug, PartialEq, Eq, Structural)]
pub struct TicketIssued {
    pub ticket_id: u64,
    pub owner: AccountId,
}

/// A ticket changed hands by a direct transfer.
#[derive(Clone, Copy, Debug, PartialEq, Eq, Structural)]
pub struct TicketTransferred {
    pub ticket_id: u64,
    pub from: AccountId,
    pub to: AccountId,
}

/// A ticket was put up for resale, or its asking price was replaced.
#[derive(Clone, Copy, Debug, PartialEq, Eq, Structural)]
pub struct TicketListed {
    pub ticket_id: u64,
    pub price: Balance,
}

/// A listed ticket was bought and paid for.
#[derive(Clone, Copy, Debug, PartialEq, Eq, Structural)]
pub struct TicketSold {
    pub ticket_id: u64,
    pub buyer: AccountId,
    pub price: Balance,
}

/// The domain events, one per successful mutating operation.
#[derive(Clone, Copy, Debug, PartialEq, Eq, Structural)]
pub enum Event {
    Issued(TicketIssued),
    Transferred(TicketTransferred),
    Listed(TicketListed),
    Sold(TicketSold),
}

/// Why an operation was refused. Every refusal leaves the registry unchanged.
#[derive(Clone, Copy, Debug, PartialEq, Eq, Structural)]
pub enum TicketError {
    /// The ticket, or its listing, does not exist.
    NotFound,
    /// The caller does not own the ticket.
    NotOwner,
    /// The attached payment differs from the asking price.
    PriceMismatch,
    /// The payment rail did not move the funds to the seller.
    PaymentSettlementFailed,
}

/// What the payment rail must move to settle a purchase.
#[derive(Clone, Copy, Debug, PartialEq, Eq, Structural)]
pub struct Payout {
    pub payee: AccountId,
    pub amount: Balance,
}

} // verus!
