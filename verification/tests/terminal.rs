use atm_bank::message::{Command, Response};
use atm_bank::terminal::{
    language_choice, localized, mask_card_number, menu_choice, select_language, wants_receipt,
    Language, MenuChoice, Notice, Request, Terminal,
};

const CARD: &str = "1234567890123456";

fn terminal_with_card_and_pin() -> Terminal {
    let mut terminal = Terminal::new();
    let accepted = Response::ValidateCardKeySuccess { card_number: CARD.to_string() };
    assert_eq!(terminal.receive(Request::CardKey, &accepted), Notice::CardAccepted);
    terminal.enter_pin("1234");
    terminal
}

#[test]
fn language_two_is_bulgarian_and_all_else_english() {
    assert_eq!(select_language(1), Language::English);
    assert_eq!(select_language(2), Language::Bulgarian);
    assert_eq!(select_language(0), Language::English);
    assert_eq!(select_language(3), Language::English);
    assert_eq!(select_language(u32::MAX), Language::English);
}

#[test]
fn only_one_and_two_name_a_language() {
    assert_eq!(language_choice(1), Some(Language::English));
    assert_eq!(language_choice(2), Some(Language::Bulgarian));
    assert_eq!(language_choice(0), None);
    assert_eq!(language_choice(3), None);
    assert_eq!(language_choice(u32::MAX), None);
}

#[test]
fn menu_has_four_entries() {
    assert_eq!(menu_choice(1), MenuChoice::CheckBalance);
    assert_eq!(menu_choice(2), MenuChoice::Withdraw);
    assert_eq!(menu_choice(3), MenuChoice::ChangeLanguage);
    assert_eq!(menu_choice(4), MenuChoice::Exit);
    assert_eq!(menu_choice(0), MenuChoice::Invalid);
    assert_eq!(menu_choice(5), MenuChoice::Invalid);
}

#[test]
fn text_follows_the_language() {
    assert_eq!(localized(Language::English, "Invalid PIN", "pin-bg"), "Invalid PIN");
    assert_eq!(localized(Language::Bulgarian, "Invalid PIN", "pin-bg"), "pin-bg");
}

#[test]
fn receipt_is_wanted_on_y_only() {
    assert!(wants_receipt("y"));
    assert!(wants_receipt("Y"));
    assert!(!wants_receipt("n"));
    assert!(!wants_receipt(""));
    assert!(!wants_receipt("yes"));
    assert!(!wants_receipt(" y"));
}

#[test]
fn card_number_is_shown_with_its_last_four_digits() {
    assert_eq!(mask_card_number(CARD), "xxxxxxxxxxxx3456");
    assert_eq!(mask_card_number("1234"), "1234");
    assert_eq!(mask_card_number("12345"), "x2345");
}

#[test]
fn card_number_is_masked_byte_by_byte() {
    assert_eq!(mask_card_number("\u{e9}12"), "\u{e9}12");
    assert_eq!(mask_card_number("ab\u{20ac}"), "xb\u{20ac}");
    assert_eq!(mask_card_number("\u{20ac}1234"), "xxx1234");
    assert_eq!(mask_card_number("\u{e9}\u{e9}\u{e9}"), "xx\u{e9}\u{e9}");
}

#[test]
fn new_terminal_speaks_english_and_has_no_card() {
    let terminal = Terminal::new();
    assert_eq!(terminal.language(), Language::English);
    assert_eq!(terminal.card_number(), None);
    assert_eq!(terminal.cached_pin(), None);
    assert!(terminal.needs_pin());
    assert_eq!(terminal.balance_command(), None);
    assert_eq!(terminal.withdraw_command(100), None);
}

#[test]
fn language_change_keeps_card_and_pin() {
    let mut terminal = terminal_with_card_and_pin();
    terminal.set_language(Language::Bulgarian);
    assert_eq!(terminal.language(), Language::Bulgarian);
    assert_eq!(terminal.card_number(), Some(CARD.to_string()));
    assert_eq!(terminal.cached_pin(), Some("1234".to_string()));
}

#[test]
fn card_key_command_carries_the_key() {
    assert_eq!(
        Terminal::card_key_command("key123"),
        Command::ValidateCardKey { card_key: "key123".to_string() }
    );
}

#[test]
fn accepted_card_key_puts_the_card_in_use() {
    let terminal = terminal_with_card_and_pin();
    assert_eq!(terminal.card_number(), Some(CARD.to_string()));
    assert!(!terminal.needs_pin());
    assert_eq!(
        terminal.balance_command(),
        Some(Command::CheckBalance { card_number: CARD.to_string(), pin: "1234".to_string() })
    );
    assert_eq!(
        terminal.withdraw_command(2_500),
        Some(Command::Withdraw {
            card_number: CARD.to_string(),
            pin: "1234".to_string(),
            amount: 2_500,
        })
    );
}

#[test]
fn zero_amount_is_refused_before_sending() {
    let terminal = terminal_with_card_and_pin();
    assert_eq!(terminal.withdraw_command(0), None);
}

#[test]
fn request_needs_a_pin() {
    let mut terminal = Terminal::new();
    let accepted = Response::ValidateCardKeySuccess { card_number: CARD.to_string() };
    terminal.receive(Request::CardKey, &accepted);
    assert!(terminal.needs_pin());
    assert_eq!(terminal.balance_command(), None);
    assert_eq!(terminal.withdraw_command(5), None);
}

#[test]
fn refused_pin_is_forgotten() {
    for request in [Request::CardKey, Request::Balance, Request::Withdrawal] {
        let mut terminal = terminal_with_card_and_pin();
        assert_eq!(terminal.receive(request, &Response::ErrorInvalidPin), Notice::InvalidPin);
        assert!(terminal.needs_pin());
        assert_eq!(terminal.cached_pin(), None);
        assert_eq!(terminal.card_number(), Some(CARD.to_string()));
    }
}

#[test]
fn other_responses_keep_the_pin() {
    let responses = [
        Response::ErrorCardNotFound,
        Response::ErrorServerInternal,
        Response::WithdrawErrorInsufficientFunds,
        Response::WithdrawSuccess { new_balance: 1 },
        Response::CheckBalanceSuccess { amount: 1 },
        Response::ValidateCardKeyErrorInvalid,
    ];
    for response in &responses {
        let mut terminal = terminal_with_card_and_pin();
        terminal.receive(Request::Withdrawal, response);
        assert_eq!(terminal.cached_pin(), Some("1234".to_string()));
        assert_eq!(terminal.card_number(), Some(CARD.to_string()));
    }
}

#[test]
fn each_response_has_its_notice() {
    let mut terminal = Terminal::new();
    assert_eq!(
        terminal.receive(Request::CardKey, &Response::ValidateCardKeyErrorInvalid),
        Notice::InvalidCardKey
    );
    assert_eq!(terminal.card_number(), None);
    assert_eq!(
        terminal.receive(Request::Balance, &Response::CheckBalanceSuccess { amount: 77 }),
        Notice::Balance { amount: 77 }
    );
    assert_eq!(
        terminal.receive(Request::Withdrawal, &Response::WithdrawSuccess { new_balance: 5 }),
        Notice::Withdrawn { new_balance: 5 }
    );
    assert_eq!(
        terminal.receive(Request::Withdrawal, &Response::WithdrawErrorInsufficientFunds),
        Notice::InsufficientFunds
    );
    for request in [Request::CardKey, Request::Balance, Request::Withdrawal] {
        assert_eq!(terminal.receive(request, &Response::ErrorCardNotFound), Notice::CardNotFound);
        assert_eq!(terminal.receive(request, &Response::ErrorServerInternal), Notice::ServerError);
    }
}

#[test]
fn response_to_another_request_is_unexpected() {
    let mut terminal = Terminal::new();
    let accepted = Response::ValidateCardKeySuccess { card_number: CARD.to_string() };
    assert_eq!(terminal.receive(Request::Balance, &accepted), Notice::Unexpected);
    assert_eq!(terminal.receive(Request::Withdrawal, &accepted), Notice::Unexpected);
    assert_eq!(terminal.card_number(), None);
    assert_eq!(
        terminal.receive(Request::CardKey, &Response::CheckBalanceSuccess { amount: 1 }),
        Notice::Unexpected
    );
    assert_eq!(
        terminal.receive(Request::Balance, &Response::WithdrawSuccess { new_balance: 1 }),
        Notice::Unexpected
    );
    assert_eq!(
        terminal.receive(Request::Balance, &Response::WithdrawErrorInsufficientFunds),
        Notice::Unexpected
    );
    assert_eq!(
        terminal.receive(Request::Withdrawal, &Response::ValidateCardKeyErrorInvalid),
        Notice::Unexpected
    );
}
