//! The account store: every account of the bank, keyed by card number.
//!
//! Contracts speak of a store through its ledger, a map from card number to
//! account. The three operations of a terminal session are `resolve_card_key`,
//! `check_balance` and `withdraw`; each is a function of the ledger alone.

use crate::account::{Account, AccountView};
use vstd::prelude::*;

verus! {

/// Why the store refused an operation.
#[derive(Debug, Clone, Copy, PartialEq, Eq, Structural)]
pub enum StoreError {
    /// No account has the card number, or the card key, that was presented.
    NotFound,
    /// The account exists and the PIN is not the account's.
    InvalidPin,
    /// The PIN matched and the amount is more than the balance.
    InsufficientFunds,
    /// An account with this card number is already in the store.
    DuplicateCardNumber,
    /// Another account in the store already has this card key.
    DuplicateCardKey,
}

/// The accounts of a store, by card number.
pub type Ledger = Map<Seq<char>, AccountView>;

/// No two rows share a card number.
pub open spec fn distinct_cards(rows: Seq<AccountView>) -> bool {
    forall|i: int, j: int|
        0 <= i < j < rows.len() ==> (#[trigger] rows[i]).card_number != (#[trigger] rows[j]).card_number
}

/// No two rows share a card key.
pub open spec fn distinct_keys(rows: Seq<AccountView>) -> bool {
    forall|i: int, j: int|
        0 <= i < j < rows.len() ==> (#[trigger] rows[i]).card_key != (#[trigger] rows[j]).card_key
}

/// Some row has the card number.
pub open spec fn holds_card(rows: Seq<AccountView>, card_number: Seq<char>) -> bool {
    exists|i: int| 0 <= i < rows.len() && (#[trigger] rows[i]).card_number == card_number
}

/// Index of a row with the card number, where there is one.
pub open spec fn row_of_card(rows: Seq<AccountView>, card_number: Seq<char>) -> int {
    choose|i: int| 0 <= i < rows.len() && (#[trigger] rows[i]).card_number == card_number
}

/// The ledger that a list of accounts stands for.
pub open spec fn ledger_of(rows: Seq<AccountView>) -> Ledger {
    Map::new(
        |card_number: Seq<char>| holds_card(rows, card_number),
        |card_number: Seq<char>| rows[row_of_card(rows, card_number)],
    )
}

/// The views of a list of accounts, in order.
pub open spec fn rows_of(accounts: Seq<Account>) -> Seq<AccountView> {
    Seq::new(accounts.len(), |i: int| accounts[i]@)
}

/// Every account is filed under its own card number, and no two accounts
/// share a card key.
pub open spec fn well_formed(ledger: Ledger) -> bool {
    &&& forall|card_number: Seq<char>| #[trigger]
        ledger.contains_key(card_number) ==> ledger[card_number].card_number == card_number
    &&& forall|a: Seq<char>, b: Seq<char>|
        #![trigger ledger.contains_key(a), ledger.contains_key(b)]
        ledger.contains_key(a) && ledger.contains_key(b) && ledger[a].card_key == ledger[b].card_key
            ==> a == b
}

/// Some account of the ledger has the card key.
pub open spec fn key_known(ledger: Ledger, card_key: Seq<char>) -> bool {
    exists|card_number: Seq<char>| #[trigger]
        ledger.contains_key(card_number) && ledger[card_number].card_key == card_key
}

/// The card number that a card key resolves to.
pub open spec fn key_owner(ledger: Ledger, card_key: Seq<char>) -> Option<Seq<char>> {
    if key_known(ledger, card_key) {
        Some(
            choose|card_number: Seq<char>| #[trigger]
                ledger.contains_key(card_number) && ledger[card_number].card_key == card_key,
        )
    } else {
        None
    }
}

/// What a balance inquiry answers. An unknown card is reported before the PIN
/// is looked at.
pub open spec fn balance_outcome(ledger: Ledger, card_number: Seq<char>, pin: Seq<char>) -> Result<
    u64,
    StoreError,
> {
    if !ledger.contains_key(card_number) {
        Err(StoreError::NotFound)
    } else if ledger[card_number].pin != pin {
        Err(StoreError::InvalidPin)
    } else {
        Ok(ledger[card_number].balance)
    }
}

/// What a withdrawal answers: the balance that is left, or the first check
/// that failed, in the order card, PIN, funds.
pub open spec fn withdrawal_outcome(
    ledger: Ledger,
    card_number: Seq<char>,
    pin: Seq<char>,
    amount: u64,
) -> Result<u64, StoreError> {
    if !ledger.contains_key(card_number) {
        Err(StoreError::NotFound)
    } else if ledger[card_number].pin != pin {
        Err(StoreError::InvalidPin)
    } else if amount > ledger[card_number].balance {
        Err(StoreError::InsufficientFunds)
    } else {
        Ok((ledger[card_number].balance - amount) as u64)
    }
}

/// The ledger once a withdrawal has been asked for: debited where the
/// withdrawal succeeds, untouched where it does not.
pub open spec fn after_withdrawal(
    ledger: Ledger,
    card_number: Seq<char>,
    pin: Seq<char>,
    amount: u64,
) -> Ledger {
    match withdrawal_outcome(ledger, card_number, pin, amount) {
        Ok(left) => ledger.insert(card_number, ledger[card_number].with_balance(left)),
        Err(_) => ledger,
    }
}

/// What adding an account answers.
pub open spec fn insertion_outcome(ledger: Ledger, account: AccountView) -> Result<(), StoreError> {
    if ledger.contains_key(account.card_number) {
        Err(StoreError::DuplicateCardNumber)
    } else if key_known(ledger, account.card_key) {
        Err(StoreError::DuplicateCardKey)
    } else {
        Ok(())
    }
}

/// In a list without repeated card numbers, each row is the ledger's entry
/// for its card number.
pub proof fn lemma_row_is_entry(rows: Seq<AccountView>, i: int)
    requires
        distinct_cards(rows),
        0 <= i < rows.len(),
    ensures
        ledger_of(rows).contains_key(rows[i].card_number),
        ledger_of(rows)[rows[i].card_number] == rows[i],
        row_of_card(rows, rows[i].card_number) == i,
{
    let card_number = rows[i].card_number;
    assert(holds_card(rows, card_number));
    let j = row_of_card(rows, card_number);
    assert(0 <= j < rows.len() && rows[j].card_number == card_number);
    if j < i {
        assert(rows[j].card_number != rows[i].card_number);
    } else if i < j {
        assert(rows[i].card_number != rows[j].card_number);
    }
}

/// Every entry of the ledger is one of the rows.
pub proof fn lemma_entry_is_row(rows: Seq<AccountView>, card_number: Seq<char>)
    requires
        ledger_of(rows).contains_key(card_number),
    ensures
        0 <= row_of_card(rows, card_number) < rows.len(),
        rows[row_of_card(rows, card_number)].card_number == card_number,
        ledger_of(rows)[card_number] == rows[row_of_card(rows, card_number)],
{
    assert(holds_card(rows, card_number));
}

/// A list without repeated card numbers or card keys stands for a
/// well-formed ledger.
pub proof fn lemma_ledger_well_formed(rows: Seq<AccountView>)
    requires
        distinct_cards(rows),
        distinct_keys(rows),
    ensures
        well_formed(ledger_of(rows)),
{
    let ledger = ledger_of(rows);
    assert forall|card_number: Seq<char>| #[trigger]
        ledger.contains_key(card_number) implies ledger[card_number].card_number
        == card_number by {
        lemma_entry_is_row(rows, card_number);
    }
    assert forall|a: Seq<char>, b: Seq<char>|
        #![trigger ledger.contains_key(a), ledger.contains_key(b)]
        ledger.contains_key(a) && ledger.contains_key(b) && ledger[a].card_key
            == ledger[b].card_key implies a == b by {
        lemma_entry_is_row(rows, a);
        lemma_entry_is_row(rows, b);
        let i = row_of_card(rows, a);
        let j = row_of_card(rows, b);
        if i < j {
            assert(rows[i].card_key != rows[j].card_key);
        } else if j < i {
            assert(rows[j].card_key != rows[i].card_key);
        }
    }
}

/// Replacing a row by one with the same card number replaces the ledger's
/// entry for that card number and nothing else.
pub proof fn lemma_update_row(rows: Seq<AccountView>, i: int, account: AccountView)
    requires
        distinct_cards(rows),
        0 <= i < rows.len(),
        account.card_number == rows[i].card_number,
    ensures
        distinct_cards(rows.update(i, account)),
        ledger_of(rows.update(i, account)) == ledger_of(rows).insert(account.card_number, account),
{
    let updated = rows.update(i, account);
    assert forall|a: int, b: int| 0 <= a < b < updated.len() implies (
    #[trigger] updated[a]).card_number != (#[trigger] updated[b]).card_number by {
        assert(rows[a].card_number != rows[b].card_number);
    }
    let left = ledger_of(updated);
    let right = ledger_of(rows).insert(account.card_number, account);
    assert forall|card_number: Seq<char>|
        left.contains_key(card_number) <==> right.contains_key(card_number) by {
        if left.contains_key(card_number) {
            lemma_entry_is_row(updated, card_number);
            let k = row_of_card(updated, card_number);
            assert(rows[k].card_number == card_number);
            assert(holds_card(rows, card_number));
        }
        if right.contains_key(card_number) {
            if card_number == account.card_number {
                assert(updated[i].card_number == card_number);
            } else {
                lemma_entry_is_row(rows, card_number);
                let k = row_of_card(rows, card_number);
                assert(updated[k].card_number == card_number);
            }
            assert(holds_card(updated, card_number));
        }
    }
    assert forall|card_number: Seq<char>| left.contains_key(card_number) implies left[card_number]
        == right[card_number] by {
        lemma_entry_is_row(updated, card_number);
        let k = row_of_card(updated, card_number);
        if k == i {
            assert(card_number == account.card_number);
        } else {
            assert(rows[k].card_number == card_number);
            lemma_row_is_entry(rows, k);
            assert(rows[k].card_number != rows[i].card_number) by {
                if k < i {
                    assert(rows[k].card_number != rows[i].card_number);
                } else {
                    assert(rows[i].card_number != rows[k].card_number);
                }
            }
        }
    }
    assert(left =~= right);
}

/// Appending a row whose card number is new adds one entry to the ledger.
pub proof fn lemma_push_row(rows: Seq<AccountView>, account: AccountView)
    requires
        distinct_cards(rows),
        !ledger_of(rows).contains_key(account.card_number),
    ensures
        distinct_cards(rows.push(account)),
        ledger_of(rows.push(account)) == ledger_of(rows).insert(account.card_number, account),
{
    let pushed = rows.push(account);
    assert forall|a: int, b: int| 0 <= a < b < pushed.len() implies (
    #[trigger] pushed[a]).card_number != (#[trigger] pushed[b]).card_number by {
        if b < rows.len() {
            assert(rows[a].card_number != rows[b].card_number);
        } else {
            assert(rows[a].card_number != account.card_number) by {
                if rows[a].card_number == account.card_number {
                    assert(holds_card(rows, account.card_number));
                }
            }
        }
    }
    let left = ledger_of(pushed);
    let right = ledger_of(rows).insert(account.card_number, account);
    assert forall|card_number: Seq<char>|
        left.contains_key(card_number) <==> right.contains_key(card_number) by {
        if left.contains_key(card_number) {
            lemma_entry_is_row(pushed, card_number);
            let k = row_of_card(pushed, card_number);
            if k < rows.len() {
                assert(rows[k].card_number == card_number);
                assert(holds_card(rows, card_number));
            }
        }
        if right.contains_key(card_number) {
            if card_number == account.card_number {
                assert(pushed[rows.len() as int].card_number == card_number);
            } else {
                lemma_entry_is_row(rows, card_number);
                let k = row_of_card(rows, card_number);
                assert(pushed[k].card_number == card_number);
            }
            assert(holds_card(pushed, card_number));
        }
    }
    assert forall|card_number: Seq<char>| left.contains_key(card_number) implies left[card_number]
        == right[card_number] by {
        lemma_entry_is_row(pushed, card_number);
        let k = row_of_card(pushed, card_number);
        lemma_row_is_entry(pushed, k);
        if k < rows.len() {
            lemma_row_is_entry(rows, k);
        }
    }
    assert(left =~= right);
}

/// In a list without repeats, the card key of a row resolves to that row's
/// card number.
pub proof fn lemma_key_of_row(rows: Seq<AccountView>, i: int)
    requires
        distinct_cards(rows),
        distinct_keys(rows),
        0 <= i < rows.len(),
    ensures
        key_owner(ledger_of(rows), rows[i].card_key) == Some(rows[i].card_number),
{
    let ledger = ledger_of(rows);
    lemma_row_is_entry(rows, i);
    lemma_ledger_well_formed(rows);
    assert(ledger.contains_key(rows[i].card_number));
    assert(ledger[rows[i].card_number].card_key == rows[i].card_key);
    assert(key_known(ledger, rows[i].card_key));
    let owner = key_owner(ledger, rows[i].card_key)->0;
    assert(ledger.contains_key(owner) && ledger[owner].card_key == rows[i].card_key);
}

/// A card key that no row has resolves to nothing.
pub proof fn lemma_key_of_no_row(rows: Seq<AccountView>, card_key: Seq<char>)
    requires
        forall|i: int| 0 <= i < rows.len() ==> (#[trigger] rows[i]).card_key != card_key,
    ensures
        !key_known(ledger_of(rows), card_key),
        key_owner(ledger_of(rows), card_key) is None,
{
    let ledger = ledger_of(rows);
    assert forall|card_number: Seq<char>| #[trigger]
        ledger.contains_key(card_number) implies ledger[card_number].card_key != card_key by {
        lemma_entry_is_row(rows, card_number);
    }
}

/// The accounts of the bank.
///
/// A store never holds two accounts with one card number or with one card
/// key; every way of building or changing a store keeps it so.
pub struct AccountStore {
    accounts: Vec<Account>,
}

impl View for AccountStore {
    type V = Ledger;

    closed spec fn view(&self) -> Ledger {
        ledger_of(rows_of(self.accounts@))
    }
}

impl AccountStore {
    #[verifier::type_invariant]
    spec fn no_repeats(&self) -> bool {
        distinct_cards(rows_of(self.accounts@)) && distinct_keys(rows_of(self.accounts@))
    }

    /// A store without accounts.
    pub fn new() -> (store: AccountStore)
        ensures
            store@ == Map::<Seq<char>, AccountView>::empty(),
            well_formed(store@),
    {
        let store = AccountStore { accounts: Vec::new() };
        assert(store@ =~= Map::<Seq<char>, AccountView>::empty());
        store
    }

    /// Index of the account with the card number, if there is one.
    fn position_of_card(&self, card_number: &String) -> (found: Option<usize>)
        ensures
            match found {
                Some(i) => {
                    &&& i < self.accounts.len()
                    &&& self.accounts[i as int].card_number@ == card_number@
                    &&& self@.contains_key(card_number@)
                    &&& self@[card_number@] == self.accounts[i as int]@
                },
                None => !self@.contains_key(card_number@),
            },
    {
        proof {
            use_type_invariant(self);
        }
        let mut i: usize = 0;
        while i < self.accounts.len()
            invariant
                i <= self.accounts.len(),
                distinct_cards(rows_of(self.accounts@)),
                forall|k: int| 0 <= k < i ==> (#[trigger] self.accounts[k]).card_number@ != card_number@,
            decreases self.accounts.len() - i,
        {
            if self.accounts[i].card_number == *card_number {
                proof {
                    lemma_row_is_entry(rows_of(self.accounts@), i as int);
                }
                return Some(i);
            }
            i += 1;
        }
        proof {
            if self@.contains_key(card_number@) {
                lemma_entry_is_row(rows_of(self.accounts@), card_number@);
                let k = row_of_card(rows_of(self.accounts@), card_number@);
                assert(self.accounts[k].card_number@ == card_number@);
            }
        }
        None
    }

    /// Index of the account with the card key, if there is one.
    fn position_of_key(&self, card_key: &String) -> (found: Option<usize>)
        ensures
            match found {
                Some(i) => i < self.accounts.len() && self.accounts[i as int].card_key@
                    == card_key@,
                None => !key_known(self@, card_key@),
            },
    {
        let mut i: usize = 0;
        while i < self.accounts.len()
            invariant
                i <= self.accounts.len(),
                forall|k: int| 0 <= k < i ==> (#[trigger] self.accounts[k]).card_key@ != card_key@,
            decreases self.accounts.len() - i,
        {
            if self.accounts[i].card_key == *card_key {
                return Some(i);
            }
            i += 1;
        }
        proof {
            let rows = rows_of(self.accounts@);
            assert forall|k: int| 0 <= k < rows.len() implies (#[trigger] rows[k]).card_key
                != card_key@ by {
                assert(self.accounts[k].card_key@ != card_key@);
            }
            lemma_key_of_no_row(rows, card_key@);
        }
        None
    }

    /// Adds an account, unless its card number or its card key is already
    /// taken.
    pub fn insert(&mut self, account: Account) -> (outcome: Result<(), StoreError>)
        ensures
            outcome == insertion_outcome(old(self)@, account@),
            final(self)@ == (if outcome is Ok {
                old(self)@.insert(account@.card_number, account@)
            } else {
                old(self)@
            }),
            well_formed(final(self)@),
    {
        proof {
            use_type_invariant(&*self);
            lemma_ledger_well_formed(rows_of(self.accounts@));
        }
        if self.position_of_card(&account.card_number).is_some() {
            return Err(StoreError::DuplicateCardNumber);
        }
        match self.position_of_key(&account.card_key) {
            Some(k) => {
                proof {
                    let rows = rows_of(self.accounts@);
                    lemma_key_of_row(rows, k as int);
                    assert(rows[k as int].card_key == account@.card_key);
                }
                return Err(StoreError::DuplicateCardKey);
            },
            None => {},
        }
        let ghost before = rows_of(self.accounts@);
        let ghost added = account@;
        let mut accounts: Vec<Account> = Vec::new();
        core::mem::swap(&mut self.accounts, &mut accounts);
        accounts.push(account);
        proof {
            assert(rows_of(accounts@) =~= before.push(added));
            lemma_push_row(before, added);
            assert forall|a: int, b: int| 0 <= a < b < before.push(added).len() implies (
            #[trigger] before.push(added)[a]).card_key != (
            #[trigger] before.push(added)[b]).card_key by {
                if b < before.len() {
                    assert(before[a].card_key != before[b].card_key);
                } else {
                    lemma_row_is_entry(before, a);
                }
            }
            lemma_ledger_well_formed(rows_of(accounts@));
        }
        self.accounts = accounts;
        Ok(())
    }

    /// Builds a store from a list of accounts; refuses a list in which a card
    /// number or a card key occurs twice.
    pub fn from_accounts(accounts: Vec<Account>) -> (outcome: Result<AccountStore, StoreError>)
        ensures
            match outcome {
                Ok(store) => {
                    &&& distinct_cards(rows_of(accounts@))
                    &&& distinct_keys(rows_of(accounts@))
                    &&& store@ == ledger_of(rows_of(accounts@))
                    &&& well_formed(store@)
                },
                Err(error) => {
                    &&& !distinct_cards(rows_of(accounts@)) || !distinct_keys(rows_of(accounts@))
                    &&& error == (if !distinct_cards(rows_of(accounts@)) {
                        StoreError::DuplicateCardNumber
                    } else {
                        StoreError::DuplicateCardKey
                    })
                },
            },
    {
        let ghost rows = rows_of(accounts@);
        let n = accounts.len();
        let mut j: usize = 0;
        while j < n
            invariant
                n == accounts.len(),
                j <= n,
                rows == rows_of(accounts@),
                forall|a: int, b: int|
                    0 <= a < b < j ==> (#[trigger] rows[a]).card_number != (
                    #[trigger] rows[b]).card_number,
            decreases n - j,
        {
            let mut i: usize = 0;
            while i < j
                invariant
                    n == accounts.len(),
                    j < n,
                    i <= j,
                    rows == rows_of(accounts@),
                    forall|a: int|
                        0 <= a < i ==> (#[trigger] rows[a]).card_number
                            != rows[j as int].card_number,
                decreases j - i,
            {
                if accounts[i].card_number == accounts[j].card_number {
                    proof {
                        assert(rows[i as int].card_number == rows[j as int].card_number);
                    }
                    return Err(StoreError::DuplicateCardNumber);
                }
                i += 1;
            }
            j += 1;
        }
        let mut j: usize = 0;
        while j < n
            invariant
                n == accounts.len(),
                j <= n,
                rows == rows_of(accounts@),
                distinct_cards(rows),
                forall|a: int, b: int|
                    0 <= a < b < j ==> (#[trigger] rows[a]).card_key != (
                    #[trigger] rows[b]).card_key,
            decreases n - j,
        {
            let mut i: usize = 0;
            while i < j
                invariant
                    n == accounts.len(),
                    j < n,
                    i <= j,
                    rows == rows_of(accounts@),
                    distinct_cards(rows),
                    forall|a: int|
                        0 <= a < i ==> (#[trigger] rows[a]).card_key != rows[j as int].card_key,
                decreases j - i,
            {
                if accounts[i].card_key == accounts[j].card_key {
                    proof {
                        assert(rows[i as int].card_key == rows[j as int].card_key);
                    }
                    return Err(StoreError::DuplicateCardKey);
                }
                i += 1;
            }
            j += 1;
        }
        proof {
            lemma_ledger_well_formed(rows);
        }
        Ok(AccountStore { accounts })
    }

    /// The accounts of the store, each once.
    pub fn snapshot(&self) -> (accounts: Vec<Account>)
        ensures
            distinct_cards(rows_of(accounts@)),
            distinct_keys(rows_of(accounts@)),
            ledger_of(rows_of(accounts@)) == self@,
    {
        proof {
            use_type_invariant(self);
        }
        let mut copy: Vec<Account> = Vec::new();
        let mut i: usize = 0;
        while i < self.accounts.len()
            invariant
                i <= self.accounts.len(),
                copy.len() == i,
                forall|k: int| 0 <= k < i ==> (#[trigger] copy[k])@ == self.accounts[k]@,
            decreases self.accounts.len() - i,
        {
            copy.push(self.accounts[i].clone());
            i += 1;
        }
        assert(rows_of(copy@) =~= rows_of(self.accounts@));
        copy
    }

    /// The card number behind a card key.
    pub fn resolve_card_key(&self, card_key: &str) -> (card_number: Result<String, StoreError>)
        ensures
            match card_number {
                Ok(number) => key_owner(self@, card_key@) == Some(number@),
                Err(error) => error == StoreError::NotFound && key_owner(self@, card_key@) is None,
            },
            well_formed(self@),
    {
        proof {
            use_type_invariant(self);
            lemma_ledger_well_formed(rows_of(self.accounts@));
        }
        let wanted = card_key.to_owned();
        match self.position_of_key(&wanted) {
            Some(i) => {
                proof {
                    lemma_key_of_row(rows_of(self.accounts@), i as int);
                }
                Ok(self.accounts[i].card_number.clone())
            },
            None => Err(StoreError::NotFound),
        }
    }

    /// The balance of an account, to whoever presents its PIN.
    pub fn check_balance(&self, card_number: &str, pin: &str) -> (outcome: Result<u64, StoreError>)
        ensures
            outcome == balance_outcome(self@, card_number@, pin@),
            well_formed(self@),
    {
        proof {
            use_type_invariant(self);
            lemma_ledger_well_formed(rows_of(self.accounts@));
        }
        let wanted = card_number.to_owned();
        match self.position_of_card(&wanted) {
            None => Err(StoreError::NotFound),
            Some(i) => {
                let entered = pin.to_owned();
                if self.accounts[i].pin == entered {
                    Ok(self.accounts[i].balance)
                } else {
                    Err(StoreError::InvalidPin)
                }
            },
        }
    }

    /// Takes `amount` from an account, to whoever presents its PIN, if the
    /// balance covers it. A refused withdrawal changes nothing.
    pub fn withdraw(&mut self, card_number: &str, pin: &str, amount: u64) -> (outcome: Result<
        u64,
        StoreError,
    >)
        ensures
            outcome == withdrawal_outcome(old(self)@, card_number@, pin@, amount),
            final(self)@ == after_withdrawal(old(self)@, card_number@, pin@, amount),
            well_formed(final(self)@),
    {
        proof {
            use_type_invariant(&*self);
            lemma_ledger_well_formed(rows_of(self.accounts@));
        }
        let wanted = card_number.to_owned();
        match self.position_of_card(&wanted) {
            None => Err(StoreError::NotFound),
            Some(i) => {
                let ghost before = rows_of(self.accounts@);
                let entered = pin.to_owned();
                if self.accounts[i].pin != entered {
                    return Err(StoreError::InvalidPin);
                }
                let balance = self.accounts[i].balance;
                if amount > balance {
                    return Err(StoreError::InsufficientFunds);
                }
                let left = balance - amount;
                let mut accounts: Vec<Account> = Vec::new();
                core::mem::swap(&mut self.accounts, &mut accounts);
                accounts[i].balance = left;
                proof {
                    let debited = before[i as int].with_balance(left);
                    assert(rows_of(accounts@) =~= before.update(i as int, debited));
                    lemma_update_row(before, i as int, debited);
                    assert forall|a: int, b: int| 0 <= a < b < before.len() implies (
                    #[trigger] before.update(i as int, debited)[a]).card_key != (
                    #[trigger] before.update(i as int, debited)[b]).card_key by {
                        assert(before[a].card_key != before[b].card_key);
                    }
                    lemma_ledger_well_formed(rows_of(accounts@));
                }
                self.accounts = accounts;
                Ok(left)
            },
        }
    }
}

/// The two accounts that a bank starts with when it has no stored ledger.
pub open spec fn sample_rows() -> Seq<AccountView> {
    seq![
        AccountView {
            card_key: "key123"@,
            card_number: "1234567890123456"@,
            pin: "1234"@,
            balance: 100_000,
            name: "John Doe"@,
        },
        AccountView {
            card_key: "key456"@,
            card_number: "9876543210987654"@,
            pin: "4321"@,
            balance: 50_000,
            name: "Jane Smith"@,
        },
    ]
}

impl AccountStore {
    /// A store with the two sample accounts.
    pub fn sample() -> (store: AccountStore)
        ensures
            store@ == ledger_of(sample_rows()),
            well_formed(store@),
    {
        let mut accounts: Vec<Account> = Vec::new();
        accounts.push(Account::new("key123", "1234567890123456", "1234", 100_000, "John Doe"));
        accounts.push(Account::new("key456", "9876543210987654", "4321", 50_000, "Jane Smith"));
        proof {
            reveal_strlit("key123");
            reveal_strlit("key456");
            reveal_strlit("1234567890123456");
            reveal_strlit("9876543210987654");
            let rows = rows_of(accounts@);
            assert(rows =~= sample_rows());
            assert(rows[0].card_number[0] != rows[1].card_number[0]);
            assert(rows[0].card_key[3] != rows[1].card_key[3]);
            lemma_ledger_well_formed(rows);
        }
        AccountStore { accounts }
    }

    /// The store as a withdrawal would leave it, and the balance that would
    /// be left; this store itself is not changed. A caller that must make the
    /// new ledger durable first keeps the result aside and puts it in place
    /// of this store once that is done.
    pub fn stage_withdrawal(&self, card_number: &str, pin: &str, amount: u64) -> (outcome: Result<
        (AccountStore, u64),
        StoreError,
    >)
        ensures
            match outcome {
                Ok((next, left)) => {
                    &&& withdrawal_outcome(self@, card_number@, pin@, amount) == Ok::<
                        u64,
                        StoreError,
                    >(left)
                    &&& next@ == after_withdrawal(self@, card_number@, pin@, amount)
                    &&& well_formed(next@)
                },
                Err(error) => withdrawal_outcome(self@, card_number@, pin@, amount) == Err::<
                    u64,
                    StoreError,
                >(error),
            },
    {
        let mut next = self.clone();
        match next.withdraw(card_number, pin, amount) {
            Ok(left) => Ok((next, left)),
            Err(e) => Err(e),
        }
    }
}

/// How a store came by its accounts when it was opened.
#[derive(Debug, Clone, Copy, PartialEq, Eq, Structural)]
pub enum Opening {
    /// Nothing was stored: the store holds the sample accounts, which are
    /// yet to be stored.
    Seeded,
    /// The store holds the accounts that were stored.
    Loaded,
    /// The stored accounts repeat a card number or a card key: the store is
    /// empty.
    Refused(StoreError),
}

/// The ledger that a store opens with: the sample accounts where nothing
/// was stored, the stored accounts where none repeats a card number or a
/// card key, and no account at all where one does.
pub open spec fn opening_ledger(stored: Option<Seq<AccountView>>) -> Ledger {
    match stored {
        None => ledger_of(sample_rows()),
        Some(rows) => if distinct_cards(rows) && distinct_keys(rows) {
            ledger_of(rows)
        } else {
            Map::empty()
        },
    }
}

/// How a store comes by the accounts it opens with.
pub open spec fn opening_of(stored: Option<Seq<AccountView>>) -> Opening {
    match stored {
        None => Opening::Seeded,
        Some(rows) => if !distinct_cards(rows) {
            Opening::Refused(StoreError::DuplicateCardNumber)
        } else if !distinct_keys(rows) {
            Opening::Refused(StoreError::DuplicateCardKey)
        } else {
            Opening::Loaded
        },
    }
}

/// The views of the accounts that were stored, if any were.
pub open spec fn stored_rows(stored: Option<Vec<Account>>) -> Option<Seq<AccountView>> {
    match stored {
        Some(accounts) => Some(rows_of(accounts@)),
        None => None,
    }
}

/// Opens the store of a bank from what was found in storage: `None` where
/// nothing was stored yet.
pub fn open_store(stored: Option<Vec<Account>>) -> (opened: (AccountStore, Opening))
    ensures
        opened.0@ == opening_ledger(stored_rows(stored)),
        opened.1 == opening_of(stored_rows(stored)),
        well_formed(opened.0@),
{
    match stored {
        None => (AccountStore::sample(), Opening::Seeded),
        Some(accounts) => match AccountStore::from_accounts(accounts) {
            Ok(store) => (store, Opening::Loaded),
            Err(error) => (AccountStore::new(), Opening::Refused(error)),
        },
    }
}

impl Clone for AccountStore {
    fn clone(&self) -> (copy: Self)
        ensures
            copy@ == self@,
    {
        proof {
            use_type_invariant(self);
        }
        let mut accounts: Vec<Account> = Vec::new();
        let mut i: usize = 0;
        while i < self.accounts.len()
            invariant
                i <= self.accounts.len(),
                accounts.len() == i,
                forall|k: int| 0 <= k < i ==> (#[trigger] accounts[k])@ == self.accounts[k]@,
            decreases self.accounts.len() - i,
        {
            accounts.push(self.accounts[i].clone());
            i += 1;
        }
        assert(rows_of(accounts@) =~= rows_of(self.accounts@));
        AccountStore { accounts }
    }
}

} // verus!
