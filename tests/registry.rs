use event_ticket_system::registry::EventTicketSystem;
use event_ticket_system::types::{
    AccountId, Event, Payout, TicketError, TicketIssued, TicketListed, TicketSold,
    TicketTransferred,
};

const ALICE: AccountId = AccountId(1);
const BOB: AccountId = AccountId(2);
const CHARLIE: AccountId = AccountId(3);
const DJANGO: AccountId = AccountId(4);

/// Buys through the two-step settlement, with the payment rail reporting `paid`.
fn buy(contract: &mut EventTicketSystem, buyer: AccountId, id: u64, payment: u128, paid: bool) -> Result<(), TicketError> {
    match contract.purchase_payout(id, payment) {
        Ok(_) => contract.buy_ticket(buyer, id, payment, paid),
        Err(e) => Err(e),
    }
}

/// Every ticket is in its owner's list and in nobody else's.
fn assert_index_consistent(contract: &EventTicketSystem, accounts: &[AccountId]) {
    for id in 0..contract.next_ticket_id() {
        let owner = contract.get_ticket(id).unwrap().owner;
        for a in accounts {
            let listed = contract.get_user_tickets(*a).contains(&id);
            assert_eq!(listed, *a == owner, "ticket {} account {:?}", id, a);
        }
    }
}

#[test]
fn issue_ticket_works() {
    let mut contract = EventTicketSystem::new();
    let ticket_id = contract.issue_ticket(ALICE, "Concert".into(), 1625097600);
    assert_eq!(ticket_id, 0);
    assert!(contract.verify_ticket(ticket_id));
    let issued_ticket = contract.get_ticket(ticket_id).unwrap();
    assert_eq!(issued_ticket.owner, ALICE);
}

#[test]
fn transfer_ticket_works() {
    let mut contract = EventTicketSystem::new();
    let ticket_id = contract.issue_ticket(ALICE, "Concert".into(), 1625097600);
    assert!(contract.transfer_ticket(ALICE, ticket_id, BOB).is_ok());
    let transferred_ticket = contract.get_ticket(ticket_id).unwrap();
    assert_eq!(transferred_ticket.owner, BOB);
}

#[test]
fn marketplace_works() {
    let mut contract = EventTicketSystem::new();
    let ticket_id = contract.issue_ticket(ALICE, "Concert".into(), 1625097600);
    assert!(contract.list_ticket(ALICE, ticket_id, 1000).is_ok());
    assert_eq!(contract.get_ticket_price(ticket_id), Some(1000));
    assert!(buy(&mut contract, BOB, ticket_id, 1000, true).is_ok());
    let bought_ticket = contract.get_ticket(ticket_id).unwrap();
    assert_eq!(bought_ticket.owner, BOB);
}

#[test]
fn issued_ids_count_up_from_zero() {
    let mut contract = EventTicketSystem::new();
    let mut ids = Vec::new();
    for k in 0..5u64 {
        ids.push(contract.issue_ticket(if k % 2 == 0 { ALICE } else { BOB }, "Show".into(), 7));
    }
    assert_eq!(ids, vec![0, 1, 2, 3, 4]);
    assert_eq!(contract.next_ticket_id(), 5);
    assert_eq!(contract.get_user_tickets(ALICE), vec![0, 2, 4]);
    assert_eq!(contract.get_user_tickets(BOB), vec![1, 3]);
}

#[test]
fn issued_record_keeps_its_fields() {
    let mut contract = EventTicketSystem::new();
    contract.issue_ticket(ALICE, "Opera".into(), 42);
    let t = contract.get_ticket(0).unwrap();
    assert_eq!(t.id, 0);
    assert_eq!(t.event_name, "Opera");
    assert_eq!(t.expiration_date, 42);
    assert_eq!(t.owner, ALICE);
}

#[test]
fn empty_registry_has_nothing() {
    let contract = EventTicketSystem::default();
    assert_eq!(contract.next_ticket_id(), 0);
    assert!(!contract.verify_ticket(0));
    assert!(contract.get_ticket(0).is_none());
    assert!(contract.get_user_tickets(ALICE).is_empty());
    assert_eq!(contract.get_ticket_price(0), None);
}

#[test]
fn each_ticket_sits_in_exactly_one_index() {
    let mut contract = EventTicketSystem::new();
    let all = [ALICE, BOB, CHARLIE, DJANGO];
    for _ in 0..4 {
        contract.issue_ticket(ALICE, "Gig".into(), 1);
    }
    assert_index_consistent(&contract, &all);
    contract.transfer_ticket(ALICE, 1, BOB).unwrap();
    assert_index_consistent(&contract, &all);
    contract.transfer_ticket(ALICE, 2, ALICE).unwrap();
    assert_index_consistent(&contract, &all);
    contract.list_ticket(BOB, 1, 50).unwrap();
    buy(&mut contract, CHARLIE, 1, 50, true).unwrap();
    assert_index_consistent(&contract, &all);
    assert_eq!(buy(&mut contract, DJANGO, 3, 50, true), Err(TicketError::NotFound));
    assert_index_consistent(&contract, &all);
}

#[test]
fn transfer_moves_id_between_lists_and_logs_once() {
    let mut contract = EventTicketSystem::new();
    contract.issue_ticket(ALICE, "Concert".into(), 1625097600);
    contract.issue_ticket(ALICE, "Concert".into(), 1625097600);
    contract.take_events();
    assert_eq!(contract.transfer_ticket(ALICE, 0, BOB), Ok(()));
    assert_eq!(contract.get_user_tickets(ALICE), vec![1]);
    assert_eq!(contract.get_user_tickets(BOB), vec![0]);
    assert_eq!(
        contract.take_events(),
        vec![Event::Transferred(TicketTransferred { ticket_id: 0, from: ALICE, to: BOB })]
    );
}

#[test]
fn transfer_to_self_keeps_single_entry() {
    let mut contract = EventTicketSystem::new();
    contract.issue_ticket(ALICE, "A".into(), 1);
    contract.issue_ticket(ALICE, "B".into(), 1);
    assert_eq!(contract.transfer_ticket(ALICE, 0, ALICE), Ok(()));
    assert_eq!(contract.get_user_tickets(ALICE), vec![1, 0]);
}

#[test]
fn transfer_by_non_owner_is_refused() {
    let mut contract = EventTicketSystem::new();
    contract.issue_ticket(ALICE, "Concert".into(), 1625097600);
    contract.take_events();
    assert_eq!(contract.transfer_ticket(DJANGO, 0, CHARLIE), Err(TicketError::NotOwner));
    assert_eq!(contract.get_ticket(0).unwrap().owner, ALICE);
    assert_eq!(contract.get_user_tickets(ALICE), vec![0]);
    assert!(contract.get_user_tickets(CHARLIE).is_empty());
    assert!(contract.take_events().is_empty());
}

#[test]
fn transfer_of_missing_ticket_is_refused() {
    let mut contract = EventTicketSystem::new();
    assert_eq!(contract.transfer_ticket(ALICE, 0, BOB), Err(TicketError::NotFound));
    assert!(contract.get_user_tickets(BOB).is_empty());
}

#[test]
fn list_requires_owner_and_ticket() {
    let mut contract = EventTicketSystem::new();
    contract.issue_ticket(ALICE, "Concert".into(), 1);
    assert_eq!(contract.list_ticket(BOB, 0, 10), Err(TicketError::NotOwner));
    assert_eq!(contract.list_ticket(ALICE, 9, 10), Err(TicketError::NotFound));
    assert_eq!(contract.get_ticket_price(0), None);
    assert_eq!(contract.list_ticket(ALICE, 0, 10), Ok(()));
    assert_eq!(contract.list_ticket(ALICE, 0, 25), Ok(()));
    assert_eq!(contract.get_ticket_price(0), Some(25));
}

#[test]
fn purchase_payout_names_seller_and_amount() {
    let mut contract = EventTicketSystem::new();
    contract.issue_ticket(ALICE, "Concert".into(), 1);
    assert_eq!(contract.purchase_payout(0, 5), Err(TicketError::NotFound));
    contract.list_ticket(ALICE, 0, 5).unwrap();
    assert_eq!(contract.purchase_payout(0, 4), Err(TicketError::PriceMismatch));
    assert_eq!(contract.purchase_payout(0, 5), Ok(Payout { payee: ALICE, amount: 5 }));
}

#[test]
fn buy_with_wrong_price_changes_nothing() {
    let mut contract = EventTicketSystem::new();
    contract.issue_ticket(ALICE, "Concert".into(), 1625097600);
    contract.list_ticket(ALICE, 0, 1000).unwrap();
    contract.take_events();
    assert_eq!(contract.buy_ticket(BOB, 0, 999, true), Err(TicketError::PriceMismatch));
    assert_eq!(contract.buy_ticket(BOB, 0, 1001, true), Err(TicketError::PriceMismatch));
    assert_eq!(contract.get_ticket_price(0), Some(1000));
    assert_eq!(contract.get_ticket(0).unwrap().owner, ALICE);
    assert_eq!(contract.get_user_tickets(ALICE), vec![0]);
    assert!(contract.get_user_tickets(BOB).is_empty());
    assert!(contract.take_events().is_empty());
}

#[test]
fn buy_without_listing_changes_nothing() {
    let mut contract = EventTicketSystem::new();
    contract.issue_ticket(ALICE, "Concert".into(), 1);
    assert_eq!(contract.buy_ticket(BOB, 0, 0, true), Err(TicketError::NotFound));
    assert_eq!(contract.get_ticket(0).unwrap().owner, ALICE);
    assert_eq!(contract.get_ticket_price(0), None);
}

#[test]
fn failed_settlement_rolls_back() {
    let mut contract = EventTicketSystem::new();
    contract.issue_ticket(ALICE, "Concert".into(), 1);
    contract.list_ticket(ALICE, 0, 300).unwrap();
    contract.take_events();
    assert_eq!(buy(&mut contract, BOB, 0, 300, false), Err(TicketError::PaymentSettlementFailed));
    assert_eq!(contract.get_ticket(0).unwrap().owner, ALICE);
    assert_eq!(contract.get_ticket_price(0), Some(300));
    assert_eq!(contract.get_user_tickets(ALICE), vec![0]);
    assert!(contract.get_user_tickets(BOB).is_empty());
    assert!(contract.take_events().is_empty());
}

#[test]
fn resale_scenario() {
    let mut contract = EventTicketSystem::new();
    let id = contract.issue_ticket(ALICE, "Concert".into(), 1625097600);
    assert_eq!(id, 0);
    assert_eq!(contract.get_ticket(0).unwrap().owner, ALICE);
    assert_eq!(contract.list_ticket(ALICE, 0, 1000), Ok(()));
    assert_eq!(contract.get_ticket_price(0), Some(1000));
    assert!(buy(&mut contract, BOB, 0, 999, true).is_err());
    assert_eq!(contract.get_ticket_price(0), Some(1000));
    assert_eq!(buy(&mut contract, BOB, 0, 1000, true), Ok(()));
    assert_eq!(contract.get_ticket(0).unwrap().owner, BOB);
    assert_eq!(contract.get_ticket_price(0), None);
    assert_eq!(contract.get_user_tickets(BOB), vec![0]);
    assert!(contract.get_user_tickets(ALICE).is_empty());
    assert_eq!(
        contract.take_events(),
        vec![
            Event::Issued(TicketIssued { ticket_id: 0, owner: ALICE }),
            Event::Listed(TicketListed { ticket_id: 0, price: 1000 }),
            Event::Sold(TicketSold { ticket_id: 0, buyer: BOB, price: 1000 }),
        ]
    );
    assert!(contract.take_events().is_empty());
}

#[test]
fn sold_listing_stays_closed() {
    let mut contract = EventTicketSystem::new();
    contract.issue_ticket(ALICE, "Concert".into(), 1);
    contract.list_ticket(ALICE, 0, 7).unwrap();
    buy(&mut contract, BOB, 0, 7, true).unwrap();
    assert_eq!(buy(&mut contract, CHARLIE, 0, 7, true), Err(TicketError::NotFound));
    contract.transfer_ticket(BOB, 0, CHARLIE).unwrap();
    contract.issue_ticket(ALICE, "Concert".into(), 1);
    assert_eq!(contract.get_ticket_price(0), None);
    assert_eq!(contract.get_ticket(0).unwrap().owner, CHARLIE);
}

#[test]
fn listing_survives_transfer() {
    let mut contract = EventTicketSystem::new();
    contract.issue_ticket(ALICE, "Concert".into(), 1);
    contract.list_ticket(ALICE, 0, 7).unwrap();
    contract.transfer_ticket(ALICE, 0, BOB).unwrap();
    assert_eq!(contract.get_ticket_price(0), Some(7));
    assert_eq!(contract.purchase_payout(0, 7), Ok(Payout { payee: BOB, amount: 7 }));
}
