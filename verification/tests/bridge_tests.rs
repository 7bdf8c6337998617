use minimint_bridge::errors::BridgeError;
use minimint_bridge::facade::balance;
use minimint_bridge::facade::decode_invoice;
use minimint_bridge::facade::fetch_payment;
use minimint_bridge::facade::init;
use minimint_bridge::facade::invoice;
use minimint_bridge::facade::join_federation;
use minimint_bridge::facade::leave_federation;
use minimint_bridge::facade::list_payments;
use minimint_bridge::facade::pay;
use minimint_bridge::facade::sync_once;
use minimint_bridge::facade::ConfigFetch;
use minimint_bridge::facade::LoadOutcome;
use minimint_bridge::facade::LoadedState;
use minimint_bridge::ledger::PaymentStatus;
use minimint_bridge::registry::Registry;

fn sample_hash() -> Vec<u8> {
    let mut v = Vec::new();
    for i in 0..32u8 {
        v.push(i);
    }
    v
}

fn sample_hash_hex() -> String {
    let mut s = String::new();
    for i in 0..32u8 {
        s.push_str(&format!("{:02x}", i));
    }
    s
}

fn other_hash() -> Vec<u8> {
    vec![0xab; 32]
}

fn other_hash_hex() -> String {
    "ab".repeat(32)
}

// Scenario: initializing over a fresh empty directory finds no membership
// and installs nothing, so client-requiring calls fail.
#[test]
fn init_fresh_directory_installs_nothing() {
    let mut reg = Registry::new();
    assert_eq!(init(&mut reg, LoadOutcome::NoPriorState), Ok(false));
    assert_eq!(balance(&reg), Err(BridgeError::NoActiveFederation));
}

#[test]
fn init_unreadable_state_is_a_storage_error() {
    let mut reg = Registry::new();
    assert_eq!(init(&mut reg, LoadOutcome::Unreadable), Err(BridgeError::StorageError));
    assert_eq!(balance(&reg), Err(BridgeError::NoActiveFederation));
}

#[test]
fn init_prior_membership_restores_the_client() {
    let mut reg = Registry::new();
    let loaded = LoadedState { balance: 5000, payments: Vec::new() };
    assert_eq!(init(&mut reg, LoadOutcome::PriorState(loaded)), Ok(true));
    assert_eq!(balance(&reg), Ok(5000));
}

// Scenario: joining a reachable federation succeeds and the fresh
// membership starts at balance zero.
#[test]
fn join_starts_with_zero_balance() {
    let mut reg = Registry::new();
    assert!(join_federation(&mut reg, ConfigFetch::Connected).is_ok());
    assert_eq!(balance(&reg), Ok(0));
    assert_eq!(list_payments(&reg, 0).unwrap().len(), 0);
}

#[test]
fn join_failures_keep_the_registry_as_it_was() {
    let mut reg = Registry::new();
    assert_eq!(
        join_federation(&mut reg, ConfigFetch::Unreachable),
        Err(BridgeError::FederationUnreachable)
    );
    assert_eq!(
        join_federation(&mut reg, ConfigFetch::InvalidConfig),
        Err(BridgeError::ConfigInvalid)
    );
    assert_eq!(balance(&reg), Err(BridgeError::NoActiveFederation));
}

#[test]
fn leave_clears_and_is_idempotent() {
    let mut reg = Registry::new();
    join_federation(&mut reg, ConfigFetch::Connected).unwrap();
    assert_eq!(leave_federation(&mut reg), Ok(()));
    assert_eq!(balance(&reg), Err(BridgeError::NoActiveFederation));
    assert_eq!(leave_federation(&mut reg), Ok(()));
}

// Scenario: issuing an invoice returns its encoded form; decoding shows
// the amount; fetching by its hash shows a pending, unsettled payment.
#[test]
fn issued_invoice_decodes_and_is_pending() {
    let mut reg = Registry::new();
    join_federation(&mut reg, ConfigFetch::Connected).unwrap();
    let now = 1_600_000_000u64;
    let s = invoice(&mut reg, 1000, "coffee".to_string(), sample_hash(), now).unwrap();
    let human = decode_invoice(s).unwrap();
    assert!(human.contains("1000"));
    assert!(human.contains("coffee"));
    let bp = fetch_payment(&reg, sample_hash_hex(), now).unwrap();
    assert_eq!(bp.status, PaymentStatus::Pending);
    assert!(!bp.paid);
    assert_eq!(bp.created_at, now);
    assert_eq!(bp.invoice, human);
}

// Scenario: once the federation reports settlement, the next synchronizer
// cycle makes the payment read as paid.
#[test]
fn settlement_arrives_through_the_synchronizer() {
    let mut reg = Registry::new();
    let handle = join_federation(&mut reg, ConfigFetch::Connected).unwrap();
    let now = 1_600_000_000u64;
    invoice(&mut reg, 1000, "coffee".to_string(), sample_hash(), now).unwrap();
    let ran = sync_once(&mut reg, handle, &vec![sample_hash()], 1000);
    assert!(ran);
    let bp = fetch_payment(&reg, sample_hash_hex(), now).unwrap();
    assert!(bp.paid);
    assert_eq!(bp.status, PaymentStatus::Paid);
    assert_eq!(balance(&reg), Ok(1000));
}

#[test]
fn a_superseded_synchronizer_does_nothing() {
    let mut reg = Registry::new();
    let old_handle = join_federation(&mut reg, ConfigFetch::Connected).unwrap();
    let now = 1_600_000_000u64;
    invoice(&mut reg, 1000, "coffee".to_string(), sample_hash(), now).unwrap();
    // A new join supersedes the first client and its synchronizer.
    let new_handle = join_federation(&mut reg, ConfigFetch::Connected).unwrap();
    assert_ne!(old_handle, new_handle);
    let ran = sync_once(&mut reg, old_handle, &vec![sample_hash()], 9999);
    assert!(!ran);
    assert_eq!(balance(&reg), Ok(0));
    // A cleared registry stops the current synchronizer too.
    leave_federation(&mut reg).unwrap();
    assert!(!sync_once(&mut reg, new_handle, &Vec::new(), 1));
}

// Scenario: paying an invoice that exceeds the balance fails and moves
// nothing.
#[test]
fn pay_beyond_balance_fails_and_balance_is_unchanged() {
    let mut reg = Registry::new();
    join_federation(&mut reg, ConfigFetch::Connected).unwrap();
    let bolt11 =
        minimint_bridge::codec::encode_invoice(1000, 2_000_000_000, &sample_hash(), "rent");
    assert_eq!(pay(&mut reg, bolt11, true, 7), Err(BridgeError::PaymentFailed));
    assert_eq!(balance(&reg), Ok(0));
    assert_eq!(list_payments(&reg, 7).unwrap().len(), 0);
}

#[test]
fn pay_within_balance_records_a_settled_payment() {
    let mut reg = Registry::new();
    let loaded = LoadedState { balance: 5000, payments: Vec::new() };
    init(&mut reg, LoadOutcome::PriorState(loaded)).unwrap();
    let now = 42u64;
    let bolt11 =
        minimint_bridge::codec::encode_invoice(1000, 2_000_000_000, &sample_hash(), "rent");
    assert_eq!(pay(&mut reg, bolt11, true, now), Ok(()));
    assert_eq!(balance(&reg), Ok(4000));
    let bp = fetch_payment(&reg, sample_hash_hex(), now).unwrap();
    assert!(bp.paid);
    assert_eq!(bp.status, PaymentStatus::Paid);
    assert_eq!(bp.created_at, now);
}

#[test]
fn pay_rejected_by_the_federation_moves_nothing() {
    let mut reg = Registry::new();
    let loaded = LoadedState { balance: 5000, payments: Vec::new() };
    init(&mut reg, LoadOutcome::PriorState(loaded)).unwrap();
    let bolt11 =
        minimint_bridge::codec::encode_invoice(1000, 2_000_000_000, &sample_hash(), "rent");
    assert_eq!(pay(&mut reg, bolt11, false, 7), Err(BridgeError::PaymentFailed));
    assert_eq!(balance(&reg), Ok(5000));
}

#[test]
fn pay_malformed_invoice_fails() {
    let mut reg = Registry::new();
    join_federation(&mut reg, ConfigFetch::Connected).unwrap();
    assert_eq!(
        pay(&mut reg, "not an invoice".to_string(), true, 7),
        Err(BridgeError::PaymentFailed)
    );
}

#[test]
fn client_requiring_calls_fail_before_any_join() {
    let mut reg = Registry::new();
    assert_eq!(balance(&reg), Err(BridgeError::NoActiveFederation));
    assert_eq!(
        pay(&mut reg, "fm:1:1:00:x".to_string(), true, 0),
        Err(BridgeError::NoActiveFederation)
    );
    assert_eq!(
        invoice(&mut reg, 1, "x".to_string(), sample_hash(), 0),
        Err(BridgeError::NoActiveFederation)
    );
    assert!(matches!(
        fetch_payment(&reg, sample_hash_hex(), 0),
        Err(BridgeError::NoActiveFederation)
    ));
    assert!(matches!(list_payments(&reg, 0), Err(BridgeError::NoActiveFederation)));
}

#[test]
fn fetch_payment_misses_are_not_found() {
    let mut reg = Registry::new();
    join_federation(&mut reg, ConfigFetch::Connected).unwrap();
    // A well-formed hash with no record behind it.
    assert!(matches!(
        fetch_payment(&reg, other_hash_hex(), 0),
        Err(BridgeError::PaymentNotFound)
    ));
    // A string that is not a hash names no record either.
    assert!(matches!(
        fetch_payment(&reg, "xyz".to_string(), 0),
        Err(BridgeError::PaymentNotFound)
    ));
}

#[test]
fn invoice_rejects_descriptions_the_grammar_cannot_carry() {
    let mut reg = Registry::new();
    join_federation(&mut reg, ConfigFetch::Connected).unwrap();
    assert_eq!(
        invoice(&mut reg, 1, "caf\u{e9}".to_string(), sample_hash(), 0),
        Err(BridgeError::InvoiceInvalid)
    );
    assert_eq!(
        invoice(&mut reg, 1, "line\nbreak".to_string(), sample_hash(), 0),
        Err(BridgeError::InvoiceInvalid)
    );
}

#[test]
fn listing_projects_every_payment_in_order() {
    let mut reg = Registry::new();
    join_federation(&mut reg, ConfigFetch::Connected).unwrap();
    let now = 100u64;
    invoice(&mut reg, 1000, "coffee".to_string(), sample_hash(), now).unwrap();
    invoice(&mut reg, 2500, "tea".to_string(), other_hash(), now).unwrap();
    let listed = list_payments(&reg, now).unwrap();
    assert_eq!(listed.len(), 2);
    assert_eq!(listed[0].invoice, "amount: 1000 sat, description: coffee");
    assert_eq!(listed[1].invoice, "amount: 2500 sat, description: tea");
    assert!(listed.iter().all(|b| b.status == PaymentStatus::Pending && !b.paid));
}

#[test]
fn reissuing_under_the_same_hash_replaces_the_record() {
    let mut reg = Registry::new();
    join_federation(&mut reg, ConfigFetch::Connected).unwrap();
    invoice(&mut reg, 1000, "coffee".to_string(), sample_hash(), 5).unwrap();
    invoice(&mut reg, 9999, "more coffee".to_string(), sample_hash(), 6).unwrap();
    let listed = list_payments(&reg, 7).unwrap();
    assert_eq!(listed.len(), 1);
    assert_eq!(listed[0].invoice, "amount: 9999 sat, description: more coffee");
}

// The status derivation: settled wins over expiry, expiry over pending,
// and the boundary instant is still pending.
#[test]
fn status_precedence_and_boundaries() {
    let mut reg = Registry::new();
    join_federation(&mut reg, ConfigFetch::Connected).unwrap();
    let now = 1_600_000_000u64;
    invoice(&mut reg, 10, "x".to_string(), sample_hash(), now).unwrap();
    let expires_at = now + 86400;
    // At the expiry bound itself: still pending.
    let bp = fetch_payment(&reg, sample_hash_hex(), expires_at).unwrap();
    assert_eq!(bp.status, PaymentStatus::Pending);
    // One second past the bound: expired.
    let bp = fetch_payment(&reg, sample_hash_hex(), expires_at + 1).unwrap();
    assert_eq!(bp.status, PaymentStatus::Expired);
    // Settled: paid, regardless of how late the read is.
    let handle = minimint_bridge::registry::Registry::get(&reg).unwrap();
    sync_once(&mut reg, handle, &vec![sample_hash()], 10);
    let bp = fetch_payment(&reg, sample_hash_hex(), expires_at + 1).unwrap();
    assert_eq!(bp.status, PaymentStatus::Paid);
}

#[test]
fn get_observes_one_handle_at_a_time() {
    let mut reg = Registry::new();
    assert_eq!(reg.get(), Err(BridgeError::NoActiveFederation));
    let h = join_federation(&mut reg, ConfigFetch::Connected).unwrap();
    assert_eq!(reg.get(), Ok(h));
    assert_eq!(reg.get(), Ok(h));
    let h2 = join_federation(&mut reg, ConfigFetch::Connected).unwrap();
    assert_ne!(h, h2);
    assert_eq!(reg.get(), Ok(h2));
    reg.clear();
    assert_eq!(reg.get(), Err(BridgeError::NoActiveFederation));
}

#[test]
fn error_messages_name_the_failure() {
    assert_eq!(BridgeError::NoActiveFederation.message(), "join a federation first");
    assert_eq!(BridgeError::StorageError.message(), "could not open persisted state");
    assert_eq!(BridgeError::PaymentNotFound.message(), "payment not found");
    assert_eq!(BridgeError::InvoiceInvalid.message(), "invalid invoice");
}
