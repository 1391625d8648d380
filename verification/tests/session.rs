use atm_bank::account::Account;
use atm_bank::message::{Command, Response};
use atm_bank::session::{handle_command, refusal_response, Action, Event, Phase, Session};
use atm_bank::store::{AccountStore, StoreError};

const CARD: &str = "1234567890123456";

fn withdraw(amount: u64) -> Command {
    Command::Withdraw { card_number: CARD.to_string(), pin: "1234".to_string(), amount }
}

fn balance(pin: &str) -> Command {
    Command::CheckBalance { card_number: CARD.to_string(), pin: pin.to_string() }
}

#[test]
fn seed_account_withdraw_all_then_one_minor_unit() {
    let mut store = AccountStore::sample();
    assert_eq!(
        handle_command(&mut store, &withdraw(100_000)),
        Response::WithdrawSuccess { new_balance: 0 }
    );
    assert_eq!(
        handle_command(&mut store, &withdraw(1)),
        Response::WithdrawErrorInsufficientFunds
    );
    assert_eq!(
        handle_command(&mut store, &balance("1234")),
        Response::CheckBalanceSuccess { amount: 0 }
    );
}

#[test]
fn known_card_key_gives_its_card_number() {
    let mut store = AccountStore::sample();
    let command = Command::ValidateCardKey { card_key: "key456".to_string() };
    assert_eq!(
        handle_command(&mut store, &command),
        Response::ValidateCardKeySuccess { card_number: "9876543210987654".to_string() }
    );
}

#[test]
fn unknown_card_key_is_invalid() {
    let mut store = AccountStore::sample();
    let command = Command::ValidateCardKey { card_key: "key000".to_string() };
    assert_eq!(handle_command(&mut store, &command), Response::ValidateCardKeyErrorInvalid);
}

#[test]
fn wrong_pin_gets_invalid_pin_for_both_operations() {
    let mut store = AccountStore::sample();
    let command = Command::Withdraw {
        card_number: CARD.to_string(),
        pin: "0000".to_string(),
        amount: 5,
    };
    assert_eq!(handle_command(&mut store, &command), Response::ErrorInvalidPin);
    assert_eq!(handle_command(&mut store, &balance("0000")), Response::ErrorInvalidPin);
    assert_eq!(
        handle_command(&mut store, &balance("1234")),
        Response::CheckBalanceSuccess { amount: 100_000 }
    );
}

#[test]
fn unknown_card_gets_card_not_found_for_both_operations() {
    let mut store = AccountStore::sample();
    let command = Command::Withdraw {
        card_number: "1".to_string(),
        pin: "1234".to_string(),
        amount: 5,
    };
    assert_eq!(handle_command(&mut store, &command), Response::ErrorCardNotFound);
    let command = Command::CheckBalance { card_number: "1".to_string(), pin: "x".to_string() };
    assert_eq!(handle_command(&mut store, &command), Response::ErrorCardNotFound);
}

#[test]
fn each_refusal_has_its_response() {
    assert_eq!(refusal_response(StoreError::NotFound), Response::ErrorCardNotFound);
    assert_eq!(refusal_response(StoreError::InvalidPin), Response::ErrorInvalidPin);
    assert_eq!(
        refusal_response(StoreError::InsufficientFunds),
        Response::WithdrawErrorInsufficientFunds
    );
    assert_eq!(refusal_response(StoreError::DuplicateCardNumber), Response::ErrorServerInternal);
    assert_eq!(refusal_response(StoreError::DuplicateCardKey), Response::ErrorServerInternal);
}

#[test]
fn new_session_awaits_a_command() {
    let session = Session::new();
    assert_eq!(session.phase(), Phase::AwaitingCommand);
    assert!(!session.is_closed());
}

#[test]
fn inquiry_is_answered_at_once() {
    let mut store = AccountStore::sample();
    let (session, action) = Session::new().step(&mut store, Event::Received(balance("1234")));
    assert_eq!(session.phase(), Phase::Responding);
    assert_eq!(action, Action::Send(Response::CheckBalanceSuccess { amount: 100_000 }));
    let (session, action) = session.step(&mut store, Event::Sent);
    assert_eq!(session.phase(), Phase::AwaitingCommand);
    assert_eq!(action, Action::Receive);
}

#[test]
fn granted_withdrawal_is_stored_before_it_is_answered() {
    let mut store = AccountStore::sample();
    let (session, action) = Session::new().step(&mut store, Event::Received(withdraw(30_000)));
    assert_eq!(session.phase(), Phase::Dispatching);
    assert_eq!(
        action,
        Action::Persist(vec![
            Account::new("key123", CARD, "1234", 70_000, "John Doe"),
            Account::new("key456", "9876543210987654", "4321", 50_000, "Jane Smith"),
        ])
    );
    assert_eq!(store.check_balance(CARD, "1234"), Ok(100_000));
    let (session, action) = session.step(&mut store, Event::Persisted);
    assert_eq!(session.phase(), Phase::Responding);
    assert_eq!(action, Action::Send(Response::WithdrawSuccess { new_balance: 70_000 }));
    assert_eq!(store.check_balance(CARD, "1234"), Ok(70_000));
    let (session, action) = session.step(&mut store, Event::Sent);
    assert_eq!(session.phase(), Phase::AwaitingCommand);
    assert_eq!(action, Action::Receive);
}

#[test]
fn failed_storing_leaves_the_balance_and_reports_a_server_error() {
    let mut store = AccountStore::sample();
    let (session, _) = Session::new().step(&mut store, Event::Received(withdraw(30_000)));
    let (session, action) = session.step(&mut store, Event::PersistFailed);
    assert_eq!(session.phase(), Phase::Responding);
    assert_eq!(action, Action::Send(Response::ErrorServerInternal));
    assert_eq!(store.check_balance(CARD, "1234"), Ok(100_000));
}

#[test]
fn refused_withdrawal_is_answered_without_storing() {
    let mut store = AccountStore::sample();
    let (session, action) = Session::new().step(&mut store, Event::Received(withdraw(100_001)));
    assert_eq!(session.phase(), Phase::Responding);
    assert_eq!(action, Action::Send(Response::WithdrawErrorInsufficientFunds));
    assert_eq!(store.check_balance(CARD, "1234"), Ok(100_000));
}

#[test]
fn disconnect_closes_the_session() {
    let mut store = AccountStore::sample();
    let (session, action) = Session::new().step(&mut store, Event::Disconnected);
    assert!(session.is_closed());
    assert_eq!(session.phase(), Phase::Closed);
    assert_eq!(action, Action::Close);
}

#[test]
fn transport_failure_closes_the_session_in_every_phase() {
    let mut store = AccountStore::sample();
    let (session, action) = Session::new().step(&mut store, Event::TransportFailed);
    assert!(session.is_closed());
    assert_eq!(action, Action::Close);

    let (session, _) = Session::new().step(&mut store, Event::Received(balance("1234")));
    let (session, action) = session.step(&mut store, Event::TransportFailed);
    assert!(session.is_closed());
    assert_eq!(action, Action::Close);

    let (session, _) = Session::new().step(&mut store, Event::Received(withdraw(1)));
    let (session, action) = session.step(&mut store, Event::TransportFailed);
    assert!(session.is_closed());
    assert_eq!(action, Action::Close);
    assert_eq!(store.check_balance(CARD, "1234"), Ok(100_000));
}

#[test]
fn report_that_does_not_fit_the_phase_closes_the_session() {
    let mut store = AccountStore::sample();
    let (session, action) = Session::new().step(&mut store, Event::Persisted);
    assert!(session.is_closed());
    assert_eq!(action, Action::Close);
    let (session, action) = Session::new().step(&mut store, Event::Sent);
    assert!(session.is_closed());
    assert_eq!(action, Action::Close);
    let (session, _) = Session::new().step(&mut store, Event::Received(balance("1234")));
    let (session, action) = session.step(&mut store, Event::Received(balance("1234")));
    assert!(session.is_closed());
    assert_eq!(action, Action::Close);
}

#[test]
fn closed_session_stays_closed() {
    let mut store = AccountStore::sample();
    let (session, _) = Session::new().step(&mut store, Event::Disconnected);
    let (session, action) = session.step(&mut store, Event::Received(withdraw(5)));
    assert!(session.is_closed());
    assert_eq!(action, Action::Close);
    let (session, action) = session.step(&mut store, Event::Sent);
    assert!(session.is_closed());
    assert_eq!(action, Action::Close);
    assert_eq!(store.check_balance(CARD, "1234"), Ok(100_000));
}

#[test]
fn session_serves_one_command_after_another() {
    let mut store = AccountStore::sample();
    let mut session = Session::new();
    let mut balances = Vec::new();
    for _ in 0..3 {
        let (next, action) = session.step(&mut store, Event::Received(withdraw(10_000)));
        assert!(matches!(action, Action::Persist(_)));
        let (next, action) = next.step(&mut store, Event::Persisted);
        match action {
            Action::Send(Response::WithdrawSuccess { new_balance }) => balances.push(new_balance),
            other => panic!("unexpected action {:?}", other),
        }
        let (next, action) = next.step(&mut store, Event::Sent);
        assert_eq!(action, Action::Receive);
        session = next;
    }
    assert_eq!(balances, vec![90_000, 80_000, 70_000]);
}

#[test]
fn commit_on_a_store_that_changed_is_refused() {
    let mut store = AccountStore::sample();
    let (session, _) = Session::new().step(&mut store, Event::Received(withdraw(80_000)));
    assert_eq!(store.withdraw(CARD, "1234", 50_000), Ok(50_000));
    let (session, action) = session.step(&mut store, Event::Persisted);
    assert_eq!(session.phase(), Phase::Responding);
    assert_eq!(action, Action::Send(Response::ErrorServerInternal));
    assert_eq!(store.check_balance(CARD, "1234"), Ok(50_000));
}

#[test]
fn commit_keeps_what_happened_to_other_accounts() {
    let mut store = AccountStore::sample();
    let (session, _) = Session::new().step(&mut store, Event::Received(withdraw(80_000)));
    assert_eq!(store.withdraw("9876543210987654", "4321", 1_000), Ok(49_000));
    let (_, action) = session.step(&mut store, Event::Persisted);
    assert_eq!(action, Action::Send(Response::WithdrawSuccess { new_balance: 20_000 }));
    assert_eq!(store.check_balance(CARD, "1234"), Ok(20_000));
    assert_eq!(store.check_balance("9876543210987654", "4321"), Ok(49_000));
}

#[test]
fn equal_withdrawals_report_each_balance_once() {
    let mut store = AccountStore::from_accounts(vec![Account::new("k", "1", "p", 1000, "A")])
        .unwrap();
    let request = Command::Withdraw {
        card_number: "1".to_string(),
        pin: "p".to_string(),
        amount: 300,
    };
    let mut responses = Vec::new();
    for _ in 0..5 {
        responses.push(handle_command(&mut store, &request));
    }
    assert_eq!(
        responses,
        vec![
            Response::WithdrawSuccess { new_balance: 700 },
            Response::WithdrawSuccess { new_balance: 400 },
            Response::WithdrawSuccess { new_balance: 100 },
            Response::WithdrawErrorInsufficientFunds,
            Response::WithdrawErrorInsufficientFunds,
        ]
    );
}

#[test]
fn two_sessions_cannot_both_take_what_only_one_can_have() {
    let mut store = AccountStore::sample();
    let (first, asked_first) = Session::new().step(&mut store, Event::Received(withdraw(60_000)));
    let (second, asked_second) = Session::new().step(&mut store, Event::Received(withdraw(60_000)));
    assert!(matches!(asked_first, Action::Persist(_)));
    assert!(matches!(asked_second, Action::Persist(_)));
    let (_, answer_first) = first.step(&mut store, Event::Persisted);
    let (_, answer_second) = second.step(&mut store, Event::Persisted);
    assert_eq!(answer_first, Action::Send(Response::WithdrawSuccess { new_balance: 40_000 }));
    assert_eq!(answer_second, Action::Send(Response::ErrorServerInternal));
    assert_eq!(store.check_balance(CARD, "1234"), Ok(40_000));
}
