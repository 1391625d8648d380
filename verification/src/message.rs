//! The messages that a terminal and the bank exchange.

use vstd::prelude::*;

verus! {

/// A request from a terminal. Amounts count minor units.
#[derive(Debug, PartialEq, Eq)]
pub enum Command {
    /// Exchange a card key for the card number it is bound to.
    ValidateCardKey { card_key: String },
    /// Take `amount` from the account of `card_number`.
    Withdraw { card_number: String, pin: String, amount: u64 },
    /// Ask for the balance of the account of `card_number`.
    CheckBalance { card_number: String, pin: String },
}

/// A [`Command`] as contracts see it.
pub enum CommandView {
    ValidateCardKey { card_key: Seq<char> },
    Withdraw { card_number: Seq<char>, pin: Seq<char>, amount: u64 },
    CheckBalance { card_number: Seq<char>, pin: Seq<char> },
}

impl View for Command {
    type V = CommandView;

    open spec fn view(&self) -> CommandView {
        match self {
            Command::ValidateCardKey { card_key } => CommandView::ValidateCardKey {
                card_key: card_key@,
            },
            Command::Withdraw { card_number, pin, amount } => CommandView::Withdraw {
                card_number: card_number@,
                pin: pin@,
                amount: *amount,
            },
            Command::CheckBalance { card_number, pin } => CommandView::CheckBalance {
                card_number: card_number@,
                pin: pin@,
            },
        }
    }
}

impl Clone for Command {
    fn clone(&self) -> (copy: Self)
        ensures
            copy@ == self@,
    {
        match self {
            Command::ValidateCardKey { card_key } => Command::ValidateCardKey {
                card_key: card_key.clone(),
            },
            Command::Withdraw { card_number, pin, amount } => Command::Withdraw {
                card_number: card_number.clone(),
                pin: pin.clone(),
                amount: *amount,
            },
            Command::CheckBalance { card_number, pin } => Command::CheckBalance {
                card_number: card_number.clone(),
                pin: pin.clone(),
            },
        }
    }
}

/// The bank's answer to one [`Command`]. Amounts count minor units.
#[derive(Debug, PartialEq, Eq)]
pub enum Response {
    /// The card key is bound to `card_number`.
    ValidateCardKeySuccess { card_number: String },
    /// No account has the card key.
    ValidateCardKeyErrorInvalid,
    /// The withdrawal was made and `new_balance` is left.
    WithdrawSuccess { new_balance: u64 },
    /// The amount is more than the balance.
    WithdrawErrorInsufficientFunds,
    /// The account holds `amount`.
    CheckBalanceSuccess { amount: u64 },
    /// The bank could not complete the operation; nothing was changed.
    ErrorServerInternal,
    /// The PIN is not the account's.
    ErrorInvalidPin,
    /// No account has the card number.
    ErrorCardNotFound,
}

/// A [`Response`] as contracts see it.
pub enum ResponseView {
    ValidateCardKeySuccess { card_number: Seq<char> },
    ValidateCardKeyErrorInvalid,
    WithdrawSuccess { new_balance: u64 },
    WithdrawErrorInsufficientFunds,
    CheckBalanceSuccess { amount: u64 },
    ErrorServerInternal,
    ErrorInvalidPin,
    ErrorCardNotFound,
}

impl View for Response {
    type V = ResponseView;

    open spec fn view(&self) -> ResponseView {
        match self {
            Response::ValidateCardKeySuccess { card_number } => ResponseView::ValidateCardKeySuccess {
                card_number: card_number@,
            },
            Response::ValidateCardKeyErrorInvalid => ResponseView::ValidateCardKeyErrorInvalid,
            Response::WithdrawSuccess { new_balance } => ResponseView::WithdrawSuccess {
                new_balance: *new_balance,
            },
            Response::WithdrawErrorInsufficientFunds => ResponseView::WithdrawErrorInsufficientFunds,
            Response::CheckBalanceSuccess { amount } => ResponseView::CheckBalanceSuccess {
                amount: *amount,
            },
            Response::ErrorServerInternal => ResponseView::ErrorServerInternal,
            Response::ErrorInvalidPin => ResponseView::ErrorInvalidPin,
            Response::ErrorCardNotFound => ResponseView::ErrorCardNotFound,
        }
    }
}

impl Clone for Response {
    fn clone(&self) -> (copy: Self)
        ensures
            copy@ == self@,
    {
        match self {
            Response::ValidateCardKeySuccess { card_number } => Response::ValidateCardKeySuccess {
                card_number: card_number.clone(),
            },
            Response::ValidateCardKeyErrorInvalid => Response::ValidateCardKeyErrorInvalid,
            Response::WithdrawSuccess { new_balance } => Response::WithdrawSuccess {
                new_balance: *new_balance,
            },
            Response::WithdrawErrorInsufficientFunds => Response::WithdrawErrorInsufficientFunds,
            Response::CheckBalanceSuccess { amount } => Response::CheckBalanceSuccess {
                amount: *amount,
            },
            Response::ErrorServerInternal => Response::ErrorServerInternal,
            Response::ErrorInvalidPin => Response::ErrorInvalidPin,
            Response::ErrorCardNotFound => Response::ErrorCardNotFound,
        }
    }
}

} // verus!
