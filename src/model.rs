use vstd::prelude::*;

use crate::types::{AccountId, Balance, Event, TicketSold, TicketView};

verus! {

/// The ids an owner index lists for `a`; an account without an entry owns nothing.
pub open spec fn owned_in(owners: Map<AccountId, Seq<u64>>, a: AccountId) -> Seq<u64> {
    if owners.contains_key(a) {
        owners[a]
    } else {
        Seq::empty()
    }
}

/// `s` with every occurrence of `id` taken out, the rest in order.
pub open spec fn without_id(s: Seq<u64>, id: u64) -> Seq<u64> {
    s.filter(|x: u64| x != id)
}

/// The abstract state of the registry: the ticket table (indexed by id), the
/// owner index, the listing book and the log of emitted events.
pub struct RegistryView {
    pub tickets: Seq<TicketView>,
    pub owners: Map<AccountId, Seq<u64>>,
    pub listings: Map<u64, Balance>,
    pub events: Seq<Event>,
}

impl RegistryView {
    /// The id the next issuance hands out.
    pub open spec fn next_id(self) -> nat {
        self.tickets.len()
    }

    pub open spec fn has_ticket(self, id: u64) -> bool {
        id < self.tickets.len()
    }

    pub open spec fn owner_of(self, id: u64) -> AccountId {
        self.tickets[id as int].owner
    }

    pub open spec fn owned(self, a: AccountId) -> Seq<u64> {
        owned_in(self.owners, a)
    }

    /// The three tables agree: ids are dense and match their slot, every
    /// ticket is listed in its owner's index, every index entry names a
    /// ticket that account owns, no index lists an id twice, and only
    /// existing tickets are listed for sale.
    pub open spec fn wf(self) -> bool {
        &&& self.tickets.len() <= u64::MAX
        &&& forall|i: int| 0 <= i < self.tickets.len() ==> #[trigger] self.tickets[i].id == i
        &&& forall|i: int|
            0 <= i < self.tickets.len() ==> #[trigger] self.owned(self.tickets[i].owner).contains(
                i as u64,
            )
        &&& forall|a: AccountId, j: int|
            0 <= j < self.owned(a).len() ==> {
                let id = #[trigger] self.owned(a)[j];
                &&& id < self.tickets.len()
                &&& self.tickets[id as int].owner == a
            }
        &&& forall|a: AccountId| #[trigger] self.owned(a).no_duplicates()
        &&& forall|id: u64| #[trigger] self.listings.contains_key(id) ==> id < self.tickets.len()
    }

    /// The empty registry: no tickets, no index entries, no listings, no events.
    pub open spec fn empty() -> RegistryView {
        RegistryView {
            tickets: Seq::empty(),
            owners: Map::empty(),
            listings: Map::empty(),
            events: Seq::empty(),
        }
    }

    pub open spec fn logged(self, e: Event) -> RegistryView {
        RegistryView { events: self.events.push(e), ..self }
    }

    /// The state after `owner` is issued a new ticket.
    pub open spec fn issued(self, owner: AccountId, event_name: Seq<char>, expiration_date: u64) -> RegistryView {
        let id = self.next_id() as u64;
        RegistryView {
            tickets: self.tickets.push(
                TicketView { id, event_name, expiration_date, owner },
            ),
            owners: self.owners.insert(owner, self.owned(owner).push(id)),
            ..self
        }
    }

    /// The state after ticket `id` changes owner to `to`: its record names
    /// `to`, the previous owner's index drops it and `to`'s index gains it at
    /// the end. Listings and events are untouched.
    pub open spec fn reassigned(self, id: u64, to: AccountId) -> RegistryView {
        let from = self.owner_of(id);
        let owners1 = self.owners.insert(from, without_id(self.owned(from), id));
        RegistryView {
            tickets: self.tickets.update(id as int, TicketView { owner: to, ..self.tickets[id as int] }),
            owners: owners1.insert(to, owned_in(owners1, to).push(id)),
            ..self
        }
    }

    pub open spec fn listed(self, id: u64, price: Balance) -> RegistryView {
        RegistryView { listings: self.listings.insert(id, price), ..self }
    }

    pub open spec fn delisted(self, id: u64) -> RegistryView {
        RegistryView { listings: self.listings.remove(id), ..self }
    }

    /// The state after `buyer` buys listed ticket `id` for `price`: the
    /// ticket changes hands, its listing is closed and the sale is logged.
    pub open spec fn sold(self, id: u64, buyer: AccountId, price: Balance) -> RegistryView {
        self.reassigned(id, buyer).delisted(id).logged(
            Event::Sold(TicketSold { ticket_id: id, buyer, price }),
        )
    }
}

/// Filtering out one id keeps exactly the other members, and keeps a
/// duplicate-free sequence duplicate-free.
pub proof fn lemma_without_id(s: Seq<u64>, id: u64)
    ensures
        forall|x: u64| #[trigger] without_id(s, id).contains(x) <==> (s.contains(x) && x != id),
        s.no_duplicates() ==> without_id(s, id).no_duplicates(),
    decreases s.len(),
{
    reveal(Seq::filter);
    if s.len() > 0 {
        let rest = s.drop_last();
        let last = s.last();
        lemma_without_id(rest, id);
        assert(s =~= rest.push(last));
        let sub = without_id(rest, id);
        assert(without_id(s, id) == if last != id { sub.push(last) } else { sub });
        assert forall|x: u64| #[trigger] without_id(s, id).contains(x) <==> (s.contains(x) && x != id) by {
            if s.contains(x) && x != id {
                let k = choose|k: int| 0 <= k < s.len() && s[k] == x;
                if k < s.len() - 1 {
                    assert(rest[k] == x);
                }
            }
            if last != id && sub.push(last).contains(x) {
                let k = choose|k: int| 0 <= k < sub.len() + 1 && sub.push(last)[k] == x;
                if k < sub.len() {
                    assert(sub[k] == x);
                }
            }
            if sub.contains(x) {
                let k = choose|k: int| 0 <= k < rest.len() && rest[k] == x;
                assert(s[k] == x);
            }
        }
        if s.no_duplicates() {
            assert(rest.no_duplicates()) by {
                assert forall|i: int, j: int| 0 <= i < rest.len() && 0 <= j < rest.len() && i != j
                    implies rest[i] != rest[j] by {
                    assert(rest[i] == s[i] && rest[j] == s[j]);
                }
            }
            if last != id {
                assert(!rest.contains(last)) by {
                    if rest.contains(last) {
                        let k = choose|k: int| 0 <= k < rest.len() && rest[k] == last;
                        assert(s[k] == s[s.len() - 1]);
                    }
                }
                assert(!sub.contains(last));
                assert forall|i: int, j: int|
                    0 <= i < sub.len() + 1 && 0 <= j < sub.len() + 1 && i != j
                    implies sub.push(last)[i] != sub.push(last)[j] by {
                    if i == sub.len() {
                        assert(sub.contains(sub.push(last)[j]) ==> sub.push(last)[j] != last);
                        assert(sub[j] == sub.push(last)[j]);
                    } else if j == sub.len() {
                        assert(sub[i] == sub.push(last)[i]);
                    }
                }
            }
        }
    }
}

/// Pushing a fresh id onto a duplicate-free sequence keeps it duplicate-free.
pub proof fn lemma_push_fresh(s: Seq<u64>, id: u64)
    requires
        s.no_duplicates(),
        !s.contains(id),
    ensures
        s.push(id).no_duplicates(),
        forall|x: u64| #[trigger] s.push(id).contains(x) <==> (s.contains(x) || x == id),
{
    assert forall|i: int, j: int| 0 <= i < s.len() + 1 && 0 <= j < s.len() + 1 && i != j
        implies s.push(id)[i] != s.push(id)[j] by {
        if i == s.len() {
            assert(s[j] == s.push(id)[j]);
        } else if j == s.len() {
            assert(s[i] == s.push(id)[i]);
        } else {
            assert(s[i] == s.push(id)[i] && s[j] == s.push(id)[j]);
        }
    }
    assert forall|x: u64| #[trigger] s.push(id).contains(x) <==> (s.contains(x) || x == id) by {
        if s.contains(x) {
            let k = choose|k: int| 0 <= k < s.len() && s[k] == x;
            assert(s.push(id)[k] == x);
        }
        if x == id {
            assert(s.push(id)[s.len() as int] == x);
        }
        if s.push(id).contains(x) {
            let k = choose|k: int| 0 <= k < s.len() + 1 && s.push(id)[k] == x;
            if k < s.len() {
                assert(s[k] == x);
            }
        }
    }
}

/// Issuing keeps the tables consistent.
pub proof fn lemma_issued_wf(v: RegistryView, owner: AccountId, event_name: Seq<char>, expiration_date: u64)
    requires
        v.wf(),
        v.next_id() < u64::MAX,
    ensures
        v.issued(owner, event_name, expiration_date).wf(),
{
    let id = v.next_id() as u64;
    let w = v.issued(owner, event_name, expiration_date);
    assert(!v.owned(owner).contains(id)) by {
        if v.owned(owner).contains(id) {
            let k = choose|k: int| 0 <= k < v.owned(owner).len() && v.owned(owner)[k] == id;
        }
    }
    lemma_push_fresh(v.owned(owner), id);
    assert forall|a: AccountId| w.owned(a) == if a == owner { v.owned(owner).push(id) } else { v.owned(a) } by {}
    assert forall|i: int| 0 <= i < w.tickets.len() implies #[trigger] w.owned(w.tickets[i].owner).contains(i as u64) by {
        if i < v.tickets.len() {
            assert(w.tickets[i] == v.tickets[i]);
            assert(v.owned(v.tickets[i].owner).contains(i as u64));
        }
    }
    assert forall|a: AccountId, j: int| 0 <= j < w.owned(a).len() implies {
        let x = #[trigger] w.owned(a)[j];
        &&& x < w.tickets.len()
        &&& w.tickets[x as int].owner == a
    } by {
        if a == owner && j == v.owned(owner).len() {
        } else {
            assert(w.owned(a)[j] == v.owned(a)[j]);
        }
    }
    assert forall|a: AccountId| #[trigger] w.owned(a).no_duplicates() by {
        assert(v.owned(a).no_duplicates());
    }
}

/// Moving a ticket to a new owner keeps the tables consistent.
pub proof fn lemma_reassigned_wf(v: RegistryView, id: u64, to: AccountId)
    requires
        v.wf(),
        v.has_ticket(id),
    ensures
        v.reassigned(id, to).wf(),
{
    let w = v.reassigned(id, to);
    let from = v.owner_of(id);
    let kept = without_id(v.owned(from), id);
    let base = if to == from { kept } else { v.owned(to) };
    lemma_without_id(v.owned(from), id);
    assert(v.owned(from).no_duplicates());
    assert(!base.contains(id)) by {
        if to != from && v.owned(to).contains(id) {
            let k = choose|k: int| 0 <= k < v.owned(to).len() && v.owned(to)[k] == id;
            assert(v.tickets[v.owned(to)[k] as int].owner == to);
        }
    }
    assert(base.no_duplicates()) by {
        assert(v.owned(to).no_duplicates());
    }
    lemma_push_fresh(base, id);
    assert forall|a: AccountId| #[trigger] w.owned(a) == if a == to {
        base.push(id)
    } else if a == from {
        kept
    } else {
        v.owned(a)
    } by {}
    assert forall|i: int| 0 <= i < w.tickets.len() implies #[trigger] w.owned(w.tickets[i].owner).contains(i as u64) by {
        if i != id as int {
            let o = v.tickets[i].owner;
            assert(w.tickets[i].owner == o);
            assert(v.owned(o).contains(i as u64));
            assert(v.tickets[i].id == i);
            if o == from {
                assert(kept.contains(i as u64));
            }
            if o == to {
                assert(base.contains(i as u64));
            }
        } else {
            assert(base.push(id).contains(id));
        }
    }
    assert forall|a: AccountId, j: int| 0 <= j < w.owned(a).len() implies {
        let x = #[trigger] w.owned(a)[j];
        &&& x < w.tickets.len()
        &&& w.tickets[x as int].owner == a
    } by {
        let x = w.owned(a)[j];
        if a == to {
            if j < base.len() {
                assert(base[j] == x);
                assert(base.contains(x));
                if to == from {
                    assert(v.owned(from).contains(x));
                    let k = choose|k: int| 0 <= k < v.owned(from).len() && v.owned(from)[k] == x;
                } else {
                    assert(v.owned(to)[j] == x);
                }
            }
        } else if a == from {
            assert(kept.contains(x));
            let k = choose|k: int| 0 <= k < v.owned(from).len() && v.owned(from)[k] == x;
        } else {
            assert(v.owned(a)[j] == x);
        }
    }
    assert forall|a: AccountId| #[trigger] w.owned(a).no_duplicates() by {
        assert(v.owned(a).no_duplicates());
    }
}

/// Putting an existing ticket up for sale keeps the tables consistent.
pub proof fn lemma_listed_wf(v: RegistryView, id: u64, price: Balance)
    requires
        v.wf(),
        v.has_ticket(id),
    ensures
        v.listed(id, price).wf(),
{
    let w = v.listed(id, price);
    assert forall|a: AccountId| #[trigger] w.owned(a) == v.owned(a) by {}
}

/// Closing a listing keeps the tables consistent.
pub proof fn lemma_delisted_wf(v: RegistryView, id: u64)
    requires
        v.wf(),
    ensures
        v.delisted(id).wf(),
{
    let w = v.delisted(id);
    assert forall|a: AccountId| #[trigger] w.owned(a) == v.owned(a) by {}
}

/// Recording an event keeps the tables consistent.
pub proof fn lemma_logged_wf(v: RegistryView, e: Event)
    requires
        v.wf(),
    ensures
        v.logged(e).wf(),
{
    let w = v.logged(e);
    assert forall|a: AccountId| #[trigger] w.owned(a) == v.owned(a) by {}
}

} // verus!
