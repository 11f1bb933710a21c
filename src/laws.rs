use vstd::prelude::*;

use crate::model::{lemma_reassigned_wf, lemma_delisted_wf, lemma_logged_wf, RegistryView};
use crate::types::{AccountId, Balance, Event, TicketIssued, TicketSold};

verus! {

/// One issuance request: the owner, the event name and the expiration date.
pub type IssueRequest = (AccountId, Seq<char>, u64);

/// The state after each request of `reqs` is issued in turn, starting from `v`,
/// as `issue_ticket` does it.
pub open spec fn issue_all(v: RegistryView, reqs: Seq<IssueRequest>) -> RegistryView
    decreases reqs.len(),
{
    if reqs.len() == 0 {
        v
    } else {
        let before = issue_all(v, reqs.drop_last());
        let (owner, name, exp) = reqs.last();
        before.issued(owner, name, exp).logged(
            Event::Issued(TicketIssued { ticket_id: before.next_id() as u64, owner }),
        )
    }
}

/// Issuing N tickets into an empty registry hands out the ids 0, 1, ..., N-1
/// in that order: the k-th ticket (and the k-th event) carries id k, so the
/// ids are distinct and strictly increasing.
pub proof fn lemma_issue_ids_sequential(reqs: Seq<IssueRequest>)
    requires
        reqs.len() <= u64::MAX,
    ensures
        ({
            let w = issue_all(RegistryView::empty(), reqs);
            &&& w.next_id() == reqs.len()
            &&& w.events.len() == reqs.len()
            &&& forall|k: int| 0 <= k < reqs.len() ==> {
                &&& #[trigger] w.tickets[k].id == k
                &&& w.tickets[k].owner == reqs[k].0
                &&& w.events[k] == Event::Issued(TicketIssued { ticket_id: k as u64, owner: reqs[k].0 })
            }
            &&& forall|i: int, j: int|
                0 <= i < j < reqs.len() ==> #[trigger] w.tickets[i].id < #[trigger] w.tickets[j].id
        }),
    decreases reqs.len(),
{
    let w = issue_all(RegistryView::empty(), reqs);
    if reqs.len() > 0 {
        let prev = reqs.drop_last();
        lemma_issue_ids_sequential(prev);
        let before = issue_all(RegistryView::empty(), prev);
        assert forall|k: int| 0 <= k < reqs.len() implies {
            &&& #[trigger] w.tickets[k].id == k
            &&& w.tickets[k].owner == reqs[k].0
            &&& w.events[k] == Event::Issued(TicketIssued { ticket_id: k as u64, owner: reqs[k].0 })
        } by {
            if k < prev.len() {
                assert(prev[k] == reqs[k]);
                assert(w.tickets[k] == before.tickets[k]);
                assert(w.events[k] == before.events[k]);
            }
        }
    }
}

/// Every existing ticket is in exactly one owner's index: the account that
/// owns it.
pub proof fn lemma_single_owner_index(v: RegistryView, id: u64, a: AccountId)
    requires
        v.wf(),
        v.has_ticket(id),
    ensures
        v.owned(a).contains(id) <==> a == v.owner_of(id),
{
    if v.owned(a).contains(id) {
        let k = choose|k: int| 0 <= k < v.owned(a).len() && v.owned(a)[k] == id;
        assert(v.tickets[v.owned(a)[k] as int].owner == a);
    }
    assert(v.owned(v.tickets[id as int].owner).contains((id as int) as u64));
}

/// A transfer moves the ticket between the two index entries: afterwards
/// `to` owns it and its index lists it, no other account's index lists it,
/// every other ticket keeps its owner, and the listings are untouched.
pub proof fn lemma_transfer_moves_ticket(v: RegistryView, id: u64, to: AccountId)
    requires
        v.wf(),
        v.has_ticket(id),
    ensures
        ({
            let w = v.reassigned(id, to);
            &&& w.wf()
            &&& w.owner_of(id) == to
            &&& w.owned(to).contains(id)
            &&& forall|a: AccountId| a != to ==> !(#[trigger] w.owned(a)).contains(id)
            &&& forall|i: u64| v.has_ticket(i) && i != id ==> #[trigger] w.owner_of(i) == v.owner_of(i)
            &&& w.next_id() == v.next_id()
            &&& w.listings == v.listings
        }),
{
    let w = v.reassigned(id, to);
    lemma_reassigned_wf(v, id, to);
    lemma_single_owner_index(w, id, to);
    assert forall|a: AccountId| a != to implies !(#[trigger] w.owned(a)).contains(id) by {
        lemma_single_owner_index(w, id, a);
    }
}

/// A sale hands the ticket to the buyer and closes its listing; the tables
/// stay consistent.
pub proof fn lemma_sale_closes_listing(v: RegistryView, id: u64, buyer: AccountId, price: Balance)
    requires
        v.wf(),
        v.listings.contains_key(id),
    ensures
        ({
            let w = v.sold(id, buyer, price);
            &&& w.wf()
            &&& !w.listings.contains_key(id)
            &&& w.owner_of(id) == buyer
            &&& w.owned(buyer).contains(id)
            &&& w.events == v.events.push(Event::Sold(TicketSold { ticket_id: id, buyer, price }))
        }),
{
    let m = v.reassigned(id, buyer);
    lemma_transfer_moves_ticket(v, id, buyer);
    lemma_delisted_wf(m, id);
    lemma_logged_wf(m.delisted(id), Event::Sold(TicketSold { ticket_id: id, buyer, price }));
    let w = v.sold(id, buyer, price);
    assert forall|a: AccountId| #[trigger] w.owned(a) == m.owned(a) by {}
}

/// Only listing opens a listing: issuing, transferring, selling another
/// ticket and recording events never make an unlisted ticket listed.
pub proof fn lemma_only_listing_opens_listing(
    v: RegistryView,
    id: u64,
    other: u64,
    to: AccountId,
    event_name: Seq<char>,
    expiration_date: u64,
    price: Balance,
)
    requires
        v.wf(),
        !v.listings.contains_key(id),
        v.has_ticket(other),
    ensures
        !v.issued(to, event_name, expiration_date).listings.contains_key(id),
        !v.reassigned(other, to).listings.contains_key(id),
        !v.sold(other, to, price).listings.contains_key(id),
        !v.listed(other, price).listings.contains_key(id) <==> other != id,
{
}

} // verus!
