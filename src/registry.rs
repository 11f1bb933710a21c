use std::collections::HashMap;
use vstd::prelude::*;

use crate::model::{
    lemma_delisted_wf, lemma_issued_wf, lemma_listed_wf, lemma_logged_wf, lemma_reassigned_wf,
    owned_in, without_id, RegistryView,
};
use crate::types::{
    AccountId, Balance, Event, Ticket, TicketError, TicketIssued, TicketListed, TicketSold,
    TicketTransferred, TicketView, Payout,
};

verus! {

broadcast use vstd::std_specs::hash::group_hash_axioms;

/// The ticket registry: the ticket table, the owner index, the resale
/// listings, the id counter and the log of events not yet handed out.
///
/// Every operation either applies all of its changes and records one event,
/// or changes nothing and reports why.
pub struct EventTicketSystem {
    tickets: Vec<Ticket>,
    ticket_owners: HashMap<u64, Vec<u64>>,
    marketplace_listings: HashMap<u64, Balance>,
    next_ticket_id: u64,
    events: Vec<Event>,
}

impl View for EventTicketSystem {
    type V = RegistryView;

    closed spec fn view(&self) -> RegistryView {
        RegistryView {
            tickets: self.tickets@.map_values(|t: Ticket| t@),
            owners: Map::new(
                |a: AccountId| self.ticket_owners@.contains_key(a.0),
                |a: AccountId| self.ticket_owners@[a.0]@,
            ),
            listings: self.marketplace_listings@,
            events: self.events@,
        }
    }
}

impl EventTicketSystem {
    /// The registry's invariant: the abstract tables are consistent and the
    /// counter equals the number of tickets.
    pub closed spec fn wf(&self) -> bool {
        &&& self@.wf()
        &&& self.next_ticket_id == self.tickets@.len()
    }

    /// An empty registry whose counter starts at 0.
    pub fn new() -> (r: Self)
        ensures
            r.wf(),
            r@ == RegistryView::empty(),
    {
        let r = EventTicketSystem {
            tickets: Vec::new(),
            ticket_owners: HashMap::new(),
            marketplace_listings: HashMap::new(),
            next_ticket_id: 0,
            events: Vec::new(),
        };
        assert(r@.tickets =~= Seq::<TicketView>::empty());
        assert(r@.owners =~= Map::<AccountId, Seq<u64>>::empty());
        r
    }

    /// The id the next issuance hands out; also the number of tickets issued.
    pub fn next_ticket_id(&self) -> (r: u64)
        requires
            self.wf(),
        ensures
            r == self@.next_id(),
    {
        self.next_ticket_id
    }

    /// Issues a new ticket to `caller` and returns its id, which is the
    /// number of tickets issued before. The counter must not be exhausted.
    pub fn issue_ticket(&mut self, caller: AccountId, event_name: String, expiration_date: u64) -> (id: u64)
        requires
            old(self).wf(),
            old(self)@.next_id() < u64::MAX,
        ensures
            final(self).wf(),
            id == old(self)@.next_id(),
            final(self)@ == old(self)@.issued(caller, event_name@, expiration_date).logged(
                Event::Issued(TicketIssued { ticket_id: id, owner: caller }),
            ),
    {
        let ghost v = self@;
        let ghost name = event_name@;
        let ticket_id = self.next_ticket_id;
        self.next_ticket_id = self.next_ticket_id.saturating_add(1);
        let ticket = Ticket { id: ticket_id, event_name, expiration_date, owner: caller };
        self.tickets.push(ticket);
        assert(self@.tickets =~= v.tickets.push(
            TicketView { id: ticket_id, event_name: name, expiration_date, owner: caller },
        ));
        let mut ids = self.take_owned(caller);
        assert(ids@ == v.owned(caller));
        ids.push(ticket_id);
        self.put_owned(caller, ids);
        proof {
            lemma_issued_wf(v, caller, name, expiration_date);
            assert(self@.owners =~= v.owners.insert(caller, v.owned(caller).push(ticket_id)));
            assert(self@ == v.issued(caller, name, expiration_date));
        }
        self.emit(Event::Issued(TicketIssued { ticket_id, owner: caller }));
        ticket_id
    }

    /// Hands ticket `ticket_id` from `caller` to `to`.
    ///
    /// Refused with `NotFound` when the ticket does not exist and with
    /// `NotOwner` when `caller` does not own it. A listing of the ticket is
    /// left in place: whether a transfer should close it is a product
    /// decision that is still open, and until it is made a later purchase
    /// can take the ticket from its new owner at the old asking price.
    pub fn transfer_ticket(&mut self, caller: AccountId, ticket_id: u64, to: AccountId) -> (r: Result<(), TicketError>)
        requires
            old(self).wf(),
        ensures
            final(self).wf(),
            r is Err ==> final(self)@ == old(self)@,
            !old(self)@.has_ticket(ticket_id) ==> r == Err::<(), TicketError>(TicketError::NotFound),
            old(self)@.has_ticket(ticket_id) && old(self)@.owner_of(ticket_id) != caller
                ==> r == Err::<(), TicketError>(TicketError::NotOwner),
            old(self)@.has_ticket(ticket_id) && old(self)@.owner_of(ticket_id) == caller ==> {
                &&& r == Ok::<(), TicketError>(())
                &&& final(self)@ == old(self)@.reassigned(ticket_id, to).logged(
                    Event::Transferred(TicketTransferred { ticket_id, from: caller, to }),
                )
            },
    {
        if ticket_id >= self.next_ticket_id {
            return Err(TicketError::NotFound);
        }
        if self.owner_at(ticket_id) != caller {
            return Err(TicketError::NotOwner);
        }
        self.reassign(ticket_id, to);
        self.emit(Event::Transferred(TicketTransferred { ticket_id, from: caller, to }));
        Ok(())
    }

    /// Lists ticket `ticket_id` for resale at `price`, replacing any earlier
    /// asking price.
    ///
    /// Refused with `NotFound` when the ticket does not exist and with
    /// `NotOwner` when `caller` does not own it.
    pub fn list_ticket(&mut self, caller: AccountId, ticket_id: u64, price: Balance) -> (r: Result<(), TicketError>)
        requires
            old(self).wf(),
        ensures
            final(self).wf(),
            r is Err ==> final(self)@ == old(self)@,
            !old(self)@.has_ticket(ticket_id) ==> r == Err::<(), TicketError>(TicketError::NotFound),
            old(self)@.has_ticket(ticket_id) && old(self)@.owner_of(ticket_id) != caller
                ==> r == Err::<(), TicketError>(TicketError::NotOwner),
            old(self)@.has_ticket(ticket_id) && old(self)@.owner_of(ticket_id) == caller ==> {
                &&& r == Ok::<(), TicketError>(())
                &&& final(self)@ == old(self)@.listed(ticket_id, price).logged(
                    Event::Listed(TicketListed { ticket_id, price }),
                )
            },
    {
        if ticket_id >= self.next_ticket_id {
            return Err(TicketError::NotFound);
        }
        if self.owner_at(ticket_id) != caller {
            return Err(TicketError::NotOwner);
        }
        proof {
            lemma_listed_wf(self@, ticket_id, price);
        }
        self.marketplace_listings.insert(ticket_id, price);
        assert(self@ == old(self)@.listed(ticket_id, price));
        self.emit(Event::Listed(TicketListed { ticket_id, price }));
        Ok(())
    }

    /// What the payment rail has to move for `payment` to buy ticket
    /// `ticket_id`: the whole payment, to the ticket's current owner.
    ///
    /// Refused with `NotFound` when the ticket is not listed and with
    /// `PriceMismatch` when `payment` differs from the asking price.
    pub fn purchase_payout(&self, ticket_id: u64, payment: Balance) -> (r: Result<Payout, TicketError>)
        requires
            self.wf(),
        ensures
            !self@.listings.contains_key(ticket_id) ==> r == Err::<Payout, TicketError>(TicketError::NotFound),
            self@.listings.contains_key(ticket_id) && self@.listings[ticket_id] != payment
                ==> r == Err::<Payout, TicketError>(TicketError::PriceMismatch),
            self@.listings.contains_key(ticket_id) && self@.listings[ticket_id] == payment
                ==> r == Ok::<Payout, TicketError>(
                (Payout { payee: self@.owner_of(ticket_id), amount: payment }),
            ),
    {
        let price = match self.marketplace_listings.get(&ticket_id) {
            Some(p) => *p,
            None => return Err(TicketError::NotFound),
        };
        if payment != price {
            return Err(TicketError::PriceMismatch);
        }
        if ticket_id >= self.next_ticket_id {
            return Err(TicketError::NotFound);
        }
        Ok(Payout { payee: self.owner_at(ticket_id), amount: payment })
    }

    /// Settles the purchase of listed ticket `ticket_id` by `buyer` for
    /// `payment`. `settled` reports whether the payment rail moved the payout
    /// that [`Self::purchase_payout`] gave for the same arguments.
    ///
    /// Refused, in this order, with `NotFound` when the ticket is not listed,
    /// `PriceMismatch` when `payment` differs from the asking price, and
    /// `PaymentSettlementFailed` when the funds did not move. On success the
    /// ticket passes to `buyer` and its listing is closed.
    pub fn buy_ticket(&mut self, buyer: AccountId, ticket_id: u64, payment: Balance, settled: bool) -> (r: Result<(), TicketError>)
        requires
            old(self).wf(),
        ensures
            final(self).wf(),
            r is Err ==> final(self)@ == old(self)@,
            !old(self)@.listings.contains_key(ticket_id) ==> r == Err::<(), TicketError>(TicketError::NotFound),
            old(self)@.listings.contains_key(ticket_id) && old(self)@.listings[ticket_id] != payment
                ==> r == Err::<(), TicketError>(TicketError::PriceMismatch),
            old(self)@.listings.contains_key(ticket_id) && old(self)@.listings[ticket_id] == payment && !settled
                ==> r == Err::<(), TicketError>(TicketError::PaymentSettlementFailed),
            old(self)@.listings.contains_key(ticket_id) && old(self)@.listings[ticket_id] == payment && settled
                ==> {
                &&& r == Ok::<(), TicketError>(())
                &&& final(self)@ == old(self)@.sold(ticket_id, buyer, payment)
            },
    {
        match self.purchase_payout(ticket_id, payment) {
            Err(e) => return Err(e),
            Ok(_) => {},
        }
        if !settled {
            return Err(TicketError::PaymentSettlementFailed);
        }
        self.reassign(ticket_id, buyer);
        let ghost mid = self@;
        proof {
            lemma_delisted_wf(mid, ticket_id);
        }
        self.marketplace_listings.remove(&ticket_id);
        assert(self@ == mid.delisted(ticket_id));
        self.emit(Event::Sold(TicketSold { ticket_id, buyer, price: payment }));
        Ok(())
    }

    /// Whether ticket `ticket_id` exists.
    pub fn verify_ticket(&self, ticket_id: u64) -> (r: bool)
        requires
            self.wf(),
        ensures
            r == self@.has_ticket(ticket_id),
    {
        ticket_id < self.next_ticket_id
    }

    /// A copy of the record of ticket `ticket_id`, if it exists.
    pub fn get_ticket(&self, ticket_id: u64) -> (r: Option<Ticket>)
        requires
            self.wf(),
        ensures
            !self@.has_ticket(ticket_id) ==> r is None,
            self@.has_ticket(ticket_id) ==> r is Some && r->Some_0@ == self@.tickets[ticket_id as int],
    {
        if ticket_id < self.next_ticket_id {
            Some(self.ticket_at(ticket_id).duplicate())
        } else {
            None
        }
    }

    /// The ids `user` owns, in the order they were acquired; empty for an
    /// account that never owned a ticket.
    pub fn get_user_tickets(&self, user: AccountId) -> (r: Vec<u64>)
        requires
            self.wf(),
        ensures
            r@ == self@.owned(user),
    {
        match self.ticket_owners.get(&user.0) {
            Some(ids) => copy_ids(ids),
            None => Vec::new(),
        }
    }

    /// The asking price of ticket `ticket_id`, if it is listed.
    pub fn get_ticket_price(&self, ticket_id: u64) -> (r: Option<Balance>)
        requires
            self.wf(),
        ensures
            r == if self@.listings.contains_key(ticket_id) {
                Some(self@.listings[ticket_id])
            } else {
                None::<Balance>
            },
    {
        match self.marketplace_listings.get(&ticket_id) {
            Some(p) => Some(*p),
            None => None,
        }
    }

    /// Hands out the events recorded so far, oldest first, and clears the log.
    pub fn take_events(&mut self) -> (r: Vec<Event>)
        requires
            old(self).wf(),
        ensures
            final(self).wf(),
            r@ == old(self)@.events,
            final(self)@ == (RegistryView { events: Seq::empty(), ..old(self)@ }),
    {
        let mut out: Vec<Event> = Vec::new();
        std::mem::swap(&mut out, &mut self.events);
        proof {
            let w = self@;
            assert forall|a: AccountId| #[trigger] w.owned(a) == old(self)@.owned(a) by {}
        }
        assert(self@ == (RegistryView { events: Seq::empty(), ..old(self)@ }));
        out
    }

    /// The stored record of an existing ticket.
    fn ticket_at(&self, ticket_id: u64) -> (r: &Ticket)
        requires
            self.wf(),
            self@.has_ticket(ticket_id),
        ensures
            r@ == self@.tickets[ticket_id as int],
    {
        assert(ticket_id < self.tickets.len());
        &self.tickets[ticket_id as usize]
    }

    /// The current owner of an existing ticket.
    fn owner_at(&self, ticket_id: u64) -> (r: AccountId)
        requires
            self.wf(),
            self@.has_ticket(ticket_id),
        ensures
            r == self@.owner_of(ticket_id),
    {
        self.ticket_at(ticket_id).owner
    }

    /// Takes `a`'s entry out of the owner index, as a vector of ids.
    fn take_owned(&mut self, a: AccountId) -> (r: Vec<u64>)
        ensures
            r@ == old(self)@.owned(a),
            final(self).ticket_owners@ == old(self).ticket_owners@.remove(a.0),
            final(self).tickets == old(self).tickets,
            final(self).marketplace_listings == old(self).marketplace_listings,
            final(self).next_ticket_id == old(self).next_ticket_id,
            final(self).events == old(self).events,
    {
        match self.ticket_owners.remove(&a.0) {
            Some(v) => v,
            None => Vec::new(),
        }
    }

    /// Gives `a` the index entry `ids`.
    fn put_owned(&mut self, a: AccountId, ids: Vec<u64>)
        ensures
            final(self)@.owners == old(self)@.owners.insert(a, ids@),
            final(self)@.tickets == old(self)@.tickets,
            final(self)@.listings == old(self)@.listings,
            final(self)@.events == old(self)@.events,
            final(self).next_ticket_id == old(self).next_ticket_id,
            final(self).tickets@.len() == old(self).tickets@.len(),
    {
        self.ticket_owners.insert(a.0, ids);
        assert(self@.owners =~= old(self)@.owners.insert(a, ids@));
    }

    /// Hands ticket `ticket_id` to `to`, updating both owners' index entries.
    fn reassign(&mut self, ticket_id: u64, to: AccountId)
        requires
            old(self).wf(),
            old(self)@.has_ticket(ticket_id),
        ensures
            final(self).wf(),
            final(self)@ == old(self)@.reassigned(ticket_id, to),
    {
        let ghost v = self@;
        assert(ticket_id < self.tickets.len());
        let i = ticket_id as usize;
        assert(i as int == ticket_id as int);
        let mut t = self.tickets[i].duplicate();
        let from = t.owner;
        t.owner = to;
        self.tickets.set(i, t);
        assert(self@.tickets =~= v.tickets.update(
            ticket_id as int,
            TicketView { owner: to, ..v.tickets[ticket_id as int] },
        ));
        let from_ids = self.take_owned(from);
        assert(from_ids@ == v.owned(from));
        let kept = remove_id(&from_ids, ticket_id);
        self.put_owned(from, kept);
        assert(self@.owners =~= v.owners.insert(from, without_id(v.owned(from), ticket_id)));
        let ghost owners1 = self@.owners;
        let mut to_ids = self.take_owned(to);
        assert(to_ids@ == owned_in(owners1, to));
        assert(self@.owners =~= owners1.remove(to));
        to_ids.push(ticket_id);
        self.put_owned(to, to_ids);
        assert(self@.owners =~= owners1.insert(to, owned_in(owners1, to).push(ticket_id)));
        proof {
            lemma_reassigned_wf(v, ticket_id, to);
            assert(self@ == v.reassigned(ticket_id, to));
        }
    }

    /// Appends `e` to the event log.
    fn emit(&mut self, e: Event)
        requires
            old(self).wf(),
        ensures
            final(self).wf(),
            final(self)@ == old(self)@.logged(e),
    {
        proof {
            lemma_logged_wf(self@, e);
        }
        self.events.push(e);
        assert(self@ == old(self)@.logged(e));
    }
}

/// A copy of `ids`.
fn copy_ids(ids: &Vec<u64>) -> (r: Vec<u64>)
    ensures
        r@ == ids@,
{
    let mut out: Vec<u64> = Vec::new();
    let mut i: usize = 0;
    while i < ids.len()
        invariant
            i <= ids@.len(),
            out@ == ids@.take(i as int),
        decreases ids@.len() - i,
    {
        out.push(ids[i]);
        i += 1;
        assert(out@ =~= ids@.take(i as int));
    }
    assert(ids@.take(i as int) =~= ids@);
    out
}

/// The ids of `ids` other than `id`, in their order.
fn remove_id(ids: &Vec<u64>, id: u64) -> (r: Vec<u64>)
    ensures
        r@ == without_id(ids@, id),
{
    let mut kept: Vec<u64> = Vec::new();
    let mut i: usize = 0;
    while i < ids.len()
        invariant
            i <= ids@.len(),
            kept@ == without_id(ids@.take(i as int), id),
        decreases ids@.len() - i,
    {
        proof {
            reveal(Seq::filter);
            assert(ids@.take(i + 1).drop_last() =~= ids@.take(i as int));
        }
        if ids[i] != id {
            kept.push(ids[i]);
        }
        i += 1;
    }
    assert(ids@.take(i as int) =~= ids@);
    kept
}

impl Default for EventTicketSystem {
    fn default() -> (r: Self)
        ensures
            r.wf(),
            r@ == RegistryView::empty(),
    {
        Self::new()
    }
}

} // verus!
