//! The account record and its mathematical view.

use vstd::prelude::*;

verus! {

/// One bank account, bound to one card.
///
/// Money is counted in minor units (hundredths of the currency unit), so that
/// every balance is exact.
#[derive(Debug, PartialEq, Eq)]
pub struct Account {
    /// Credential that a terminal exchanges for the card number.
    pub card_key: String,
    /// Primary key of the account.
    pub card_number: String,
    /// Secret that every operation on the balance must present.
    pub pin: String,
    /// Funds on the account, in minor units.
    pub balance: u64,
    /// Display name of the account holder.
    pub name: String,
}

/// An [`Account`] as contracts see it: its texts as sequences of characters.
pub struct AccountView {
    pub card_key: Seq<char>,
    pub card_number: Seq<char>,
    pub pin: Seq<char>,
    pub balance: u64,
    pub name: Seq<char>,
}

impl View for Account {
    type V = AccountView;

    open spec fn view(&self) -> AccountView {
        AccountView {
            card_key: self.card_key@,
            card_number: self.card_number@,
            pin: self.pin@,
            balance: self.balance,
            name: self.name@,
        }
    }
}

impl AccountView {
    /// This account with its balance replaced.
    pub open spec fn with_balance(self, balance: u64) -> AccountView {
        AccountView { balance, ..self }
    }
}

impl Clone for Account {
    fn clone(&self) -> (copy: Self)
        ensures
            copy@ == self@,
    {
        Account {
            card_key: self.card_key.clone(),
            card_number: self.card_number.clone(),
            pin: self.pin.clone(),
            balance: self.balance,
            name: self.name.clone(),
        }
    }
}

impl Account {
    /// Builds an account from its five parts.
    pub fn new(card_key: &str, card_number: &str, pin: &str, balance: u64, name: &str) -> (account:
        Account)
        ensures
            account@ == (AccountView {
                card_key: card_key@,
                card_number: card_number@,
                pin: pin@,
                balance,
                name: name@,
            }),
    {
        Account {
            card_key: card_key.to_owned(),
            card_number: card_number.to_owned(),
            pin: pin.to_owned(),
            balance,
            name: name.to_owned(),
        }
    }
}

} // verus!
