//! What holds of the store and of a session on every ledger.

use crate::message::{CommandView, ResponseView};
use crate::session::{
    answer, changes_ledger, ledger_after, transition, ActionView, EventView, SessionView,
};
use crate::store::{
    after_withdrawal, balance_outcome, key_known, key_owner, well_formed, withdrawal_outcome, Ledger,
    StoreError,
};
use vstd::prelude::*;

verus! {

/// A withdrawal with the right PIN of an amount that the balance covers
/// leaves the balance less the amount, answers with it, and a balance
/// inquiry afterwards shows it. No other account is touched.
pub proof fn lemma_withdrawal_debits(
    ledger: Ledger,
    card_number: Seq<char>,
    pin: Seq<char>,
    amount: u64,
)
    requires
        ledger.contains_key(card_number),
        ledger[card_number].pin == pin,
        amount <= ledger[card_number].balance,
    ensures
        withdrawal_outcome(ledger, card_number, pin, amount) == Ok::<u64, StoreError>(
            (ledger[card_number].balance - amount) as u64,
        ),
        balance_outcome(after_withdrawal(ledger, card_number, pin, amount), card_number, pin)
            == Ok::<u64, StoreError>((ledger[card_number].balance - amount) as u64),
        answer(ledger, CommandView::Withdraw { card_number, pin, amount })
            == (ResponseView::WithdrawSuccess {
            new_balance: (ledger[card_number].balance - amount) as u64,
        }),
        answer(
            ledger_after(ledger, CommandView::Withdraw { card_number, pin, amount }),
            CommandView::CheckBalance { card_number, pin },
        ) == (ResponseView::CheckBalanceSuccess {
            amount: (ledger[card_number].balance - amount) as u64,
        }),
        forall|other: Seq<char>|
            other != card_number ==> (#[trigger] after_withdrawal(
                ledger,
                card_number,
                pin,
                amount,
            ).contains_key(other) <==> ledger.contains_key(other)),
        forall|other: Seq<char>|
            other != card_number && ledger.contains_key(other) ==> #[trigger] after_withdrawal(
                ledger,
                card_number,
                pin,
                amount,
            )[other] == ledger[other],
{
}

/// A withdrawal of more than the balance is refused for want of funds and
/// changes nothing.
pub proof fn lemma_overdraft_refused(
    ledger: Ledger,
    card_number: Seq<char>,
    pin: Seq<char>,
    amount: u64,
)
    requires
        ledger.contains_key(card_number),
        ledger[card_number].pin == pin,
        amount > ledger[card_number].balance,
    ensures
        withdrawal_outcome(ledger, card_number, pin, amount) == Err::<u64, StoreError>(
            StoreError::InsufficientFunds,
        ),
        after_withdrawal(ledger, card_number, pin, amount) == ledger,
        answer(ledger, CommandView::Withdraw { card_number, pin, amount })
            == ResponseView::WithdrawErrorInsufficientFunds,
        ledger_after(ledger, CommandView::Withdraw { card_number, pin, amount }) == ledger,
{
}

/// With a PIN that is not the account's, a withdrawal and a balance inquiry
/// are both refused for the PIN, whatever the amount, and change nothing.
pub proof fn lemma_wrong_pin_refused(
    ledger: Ledger,
    card_number: Seq<char>,
    pin: Seq<char>,
    amount: u64,
)
    requires
        ledger.contains_key(card_number),
        ledger[card_number].pin != pin,
    ensures
        withdrawal_outcome(ledger, card_number, pin, amount) == Err::<u64, StoreError>(
            StoreError::InvalidPin,
        ),
        balance_outcome(ledger, card_number, pin) == Err::<u64, StoreError>(StoreError::InvalidPin),
        after_withdrawal(ledger, card_number, pin, amount) == ledger,
        answer(ledger, CommandView::Withdraw { card_number, pin, amount })
            == ResponseView::ErrorInvalidPin,
        answer(ledger, CommandView::CheckBalance { card_number, pin })
            == ResponseView::ErrorInvalidPin,
        ledger_after(ledger, CommandView::Withdraw { card_number, pin, amount }) == ledger,
        ledger_after(ledger, CommandView::CheckBalance { card_number, pin }) == ledger,
{
}

/// On a card number that no account has, a withdrawal and a balance inquiry
/// are both refused as not found, whatever the PIN, and change nothing.
pub proof fn lemma_unknown_card_refused(
    ledger: Ledger,
    card_number: Seq<char>,
    pin: Seq<char>,
    amount: u64,
)
    requires
        !ledger.contains_key(card_number),
    ensures
        withdrawal_outcome(ledger, card_number, pin, amount) == Err::<u64, StoreError>(
            StoreError::NotFound,
        ),
        balance_outcome(ledger, card_number, pin) == Err::<u64, StoreError>(StoreError::NotFound),
        after_withdrawal(ledger, card_number, pin, amount) == ledger,
        answer(ledger, CommandView::Withdraw { card_number, pin, amount })
            == ResponseView::ErrorCardNotFound,
        answer(ledger, CommandView::CheckBalance { card_number, pin })
            == ResponseView::ErrorCardNotFound,
        ledger_after(ledger, CommandView::Withdraw { card_number, pin, amount }) == ledger,
{
}

/// The card key of an account resolves to that account's card number.
pub proof fn lemma_known_key_resolves(ledger: Ledger, card_number: Seq<char>)
    requires
        well_formed(ledger),
        ledger.contains_key(card_number),
    ensures
        key_owner(ledger, ledger[card_number].card_key) == Some(card_number),
        answer(ledger, CommandView::ValidateCardKey { card_key: ledger[card_number].card_key })
            == (ResponseView::ValidateCardKeySuccess { card_number }),
{
    let card_key = ledger[card_number].card_key;
    assert(key_known(ledger, card_key));
    let owner = key_owner(ledger, card_key)->0;
    assert(ledger.contains_key(owner) && ledger[owner].card_key == card_key);
}

/// A card key that no account has resolves to nothing.
pub proof fn lemma_unknown_key_invalid(ledger: Ledger, card_key: Seq<char>)
    requires
        forall|card_number: Seq<char>| #[trigger]
            ledger.contains_key(card_number) ==> ledger[card_number].card_key != card_key,
    ensures
        key_owner(ledger, card_key) is None,
        answer(ledger, CommandView::ValidateCardKey { card_key })
            == ResponseView::ValidateCardKeyErrorInvalid,
{
}

/// No command takes an account out of the ledger or puts one in, and only a
/// granted withdrawal changes a balance: then by exactly the amount, and
/// never below zero.
pub proof fn lemma_commands_keep_accounts(ledger: Ledger, command: CommandView, other: Seq<char>)
    ensures
        ledger_after(ledger, command).contains_key(other) <==> ledger.contains_key(other),
        ledger.contains_key(other) ==> {
            let before = ledger[other];
            let after = ledger_after(ledger, command)[other];
            &&& after == before.with_balance(after.balance)
            &&& after.balance <= before.balance
            &&& after.balance != before.balance ==> {
                &&& command matches CommandView::Withdraw { card_number, pin, amount }
                &&& card_number == other
                &&& pin == before.pin
                &&& after.balance + amount == before.balance
            }
        },
        well_formed(ledger) ==> well_formed(ledger_after(ledger, command)),
{
    let next = ledger_after(ledger, command);
    if well_formed(ledger) {
        assert forall|a: Seq<char>, b: Seq<char>|
            #![trigger next.contains_key(a), next.contains_key(b)]
            next.contains_key(a) && next.contains_key(b) && next[a].card_key
                == next[b].card_key implies a == b by {
            assert(ledger.contains_key(a) && ledger.contains_key(b));
        }
    }
}

/// The ledger after `count` withdrawals of one amount from one account, one
/// after the other.
pub open spec fn after_withdrawals(
    ledger: Ledger,
    card_number: Seq<char>,
    pin: Seq<char>,
    amount: u64,
    count: nat,
) -> Ledger
    decreases count,
{
    if count == 0 {
        ledger
    } else {
        after_withdrawals(
            after_withdrawal(ledger, card_number, pin, amount),
            card_number,
            pin,
            amount,
            (count - 1) as nat,
        )
    }
}

/// How many of `count` withdrawals of one amount from one account, made one
/// after the other, are granted.
pub open spec fn granted_withdrawals(
    ledger: Ledger,
    card_number: Seq<char>,
    pin: Seq<char>,
    amount: u64,
    count: nat,
) -> nat
    decreases count,
{
    if count == 0 {
        0
    } else {
        let first: nat = if withdrawal_outcome(ledger, card_number, pin, amount) is Ok {
            1
        } else {
            0
        };
        first + granted_withdrawals(
            after_withdrawal(ledger, card_number, pin, amount),
            card_number,
            pin,
            amount,
            (count - 1) as nat,
        )
    }
}

/// The smaller of two numbers.
pub open spec fn smaller(a: int, b: int) -> int {
    if a <= b {
        a
    } else {
        b
    }
}

/// Of `count` withdrawals of the same positive amount from one account, made
/// in any serial order, exactly as many are granted as the balance holds the
/// amount, or all of them if that is more than `count`. The balance ends at
/// what it was less the granted amounts, and so never below zero. The
/// request that comes after them is answered as granted, with the balance
/// less one amount more, as long as fewer requests went before than the
/// balance holds the amount; from then on it is refused for want of funds.
/// So the balances reported are the balance less one amount, less two, and
/// so on, each once.
pub proof fn lemma_serial_withdrawals(
    ledger: Ledger,
    card_number: Seq<char>,
    pin: Seq<char>,
    amount: u64,
    count: nat,
)
    requires
        ledger.contains_key(card_number),
        ledger[card_number].pin == pin,
        amount > 0,
    ensures
        granted_withdrawals(ledger, card_number, pin, amount, count) == smaller(
            count as int,
            ledger[card_number].balance as int / amount as int,
        ),
        after_withdrawals(ledger, card_number, pin, amount, count).contains_key(card_number),
        after_withdrawals(ledger, card_number, pin, amount, count)[card_number]
            == ledger[card_number].with_balance(
            after_withdrawals(ledger, card_number, pin, amount, count)[card_number].balance,
        ),
        after_withdrawals(ledger, card_number, pin, amount, count)[card_number].balance
            == ledger[card_number].balance - granted_withdrawals(
            ledger,
            card_number,
            pin,
            amount,
            count,
        ) * amount,
        count >= ledger[card_number].balance as int / amount as int ==> withdrawal_outcome(
            after_withdrawals(ledger, card_number, pin, amount, count),
            card_number,
            pin,
            amount,
        ) == Err::<u64, StoreError>(StoreError::InsufficientFunds),
        count < ledger[card_number].balance as int / amount as int ==> withdrawal_outcome(
            after_withdrawals(ledger, card_number, pin, amount, count),
            card_number,
            pin,
            amount,
        ) is Ok,
        answer(
            after_withdrawals(ledger, card_number, pin, amount, count),
            CommandView::Withdraw { card_number, pin, amount },
        ) == (if count < ledger[card_number].balance as int / amount as int {
            ResponseView::WithdrawSuccess {
                new_balance: (ledger[card_number].balance - (count + 1) * amount) as u64,
            }
        } else {
            ResponseView::WithdrawErrorInsufficientFunds
        }),
    decreases count,
{
    let balance = ledger[card_number].balance as int;
    let each = amount as int;
    let holds = balance / each;
    let request = CommandView::Withdraw { card_number, pin, amount };
    assert(balance < each <==> holds <= 0) by (nonlinear_arith)
        requires
            each > 0,
            balance >= 0,
            holds == balance / each,
    ;
    if count == 0 {
        assert(granted_withdrawals(ledger, card_number, pin, amount, count) * each == 0);
        assert((count + 1) * each == each) by (nonlinear_arith)
            requires
                count == 0,
        ;
    } else {
        let before = (count - 1) as nat;
        let next = after_withdrawal(ledger, card_number, pin, amount);
        lemma_serial_withdrawals(next, card_number, pin, amount, before);
        let granted_rest = granted_withdrawals(next, card_number, pin, amount, before);
        let end = after_withdrawals(next, card_number, pin, amount, before);
        assert(end == after_withdrawals(ledger, card_number, pin, amount, count));
        assert((before + 1) * each == count * each);
        if balance >= each {
            assert((balance - each) / each == holds - 1) by (nonlinear_arith)
                requires
                    each > 0,
                    balance >= each,
                    holds == balance / each,
            ;
            assert(next[card_number].balance == balance - each);
            assert(granted_withdrawals(ledger, card_number, pin, amount, count) == 1
                + granted_rest);
            assert((1 + granted_rest) * each == each + granted_rest * each) by (nonlinear_arith);
            assert((count + 1) * each == each + count * each) by (nonlinear_arith);
            assert(end[card_number].balance == balance - (1 + granted_rest) * each);
        } else {
            assert(next == ledger);
            assert(granted_rest == 0);
            assert(granted_withdrawals(ledger, card_number, pin, amount, count) == 0);
            assert(granted_rest * each == 0);
            assert(end[card_number].balance == balance);
            assert(answer(end, request) == ResponseView::WithdrawErrorInsufficientFunds);
        }
    }
}

/// A command gets exactly one response, and a session stores before it
/// responds. A command that changes nothing is answered at once. A granted
/// withdrawal is first handed out for storing, with the ledger untouched;
/// once stored, and the ledger still as it was, it is in the ledger and
/// answered as granted; if storing fails the ledger stays as it was and the
/// answer is a server error. After either answer is written the session
/// awaits the next command.
pub proof fn lemma_one_response_per_command(ledger: Ledger, command: CommandView)
    ensures
        ({
            let first = transition(
                SessionView::AwaitingCommand,
                ledger,
                EventView::Received(command),
            );
            &&& first.1 == ledger
            &&& !changes_ledger(ledger, command) ==> {
                &&& ledger_after(ledger, command) == ledger
                &&& first.0 == SessionView::Responding
                &&& first.2 == ActionView::Send(answer(ledger, command))
            }
            &&& changes_ledger(ledger, command) ==> {
                &&& first.2 == ActionView::Persist(ledger_after(ledger, command))
                &&& transition(first.0, ledger, EventView::Persisted) == (
                    SessionView::Responding,
                    ledger_after(ledger, command),
                    ActionView::Send(answer(ledger, command)),
                )
                &&& transition(first.0, ledger, EventView::PersistFailed) == (
                    SessionView::Responding,
                    ledger,
                    ActionView::Send(ResponseView::ErrorServerInternal),
                )
            }
        }),
        forall|after: Ledger| #[trigger]
            transition(SessionView::Responding, after, EventView::Sent) == (
                SessionView::AwaitingCommand,
                after,
                ActionView::Receive,
            ),
{
}

/// A staged withdrawal never overwrites what happened to the ledger in the
/// meantime. Whatever the ledger is when storing is reported, the commit
/// either makes the withdrawal on that ledger, where it leaves exactly the
/// balance that was handed out for storing, and answers with that balance;
/// or it leaves that ledger as it is and answers with a server error.
pub proof fn lemma_commit_is_a_withdrawal_or_nothing(
    ledger: Ledger,
    command: CommandView,
    later: Ledger,
)
    requires
        changes_ledger(ledger, command),
    ensures
        ({
            let staged = transition(
                SessionView::AwaitingCommand,
                ledger,
                EventView::Received(command),
            ).0;
            let committed = transition(staged, later, EventView::Persisted);
            let granted = answer(later, command) == answer(ledger, command);
            &&& committed.0 == SessionView::Responding
            &&& granted ==> committed.1 == ledger_after(later, command) && committed.2
                == ActionView::Send(answer(ledger, command))
            &&& !granted ==> committed.1 == later && committed.2 == ActionView::Send(
                ResponseView::ErrorServerInternal,
            )
        }),
{
}

/// What one of several sessions on one ledger is told.
pub struct Report {
    /// Which session is told.
    pub session: int,
    /// What it is told.
    pub event: EventView,
}

/// Several sessions on one ledger, and how many withdrawals they have
/// answered as granted.
pub struct Bank {
    pub sessions: Seq<SessionView>,
    pub ledger: Ledger,
    pub granted: nat,
}

/// The bank after one report: the session that is told makes its step on
/// the ledger as it then is. A report to a session that is not there
/// changes nothing.
pub open spec fn bank_step(bank: Bank, report: Report) -> Bank {
    if 0 <= report.session < bank.sessions.len() {
        let next = transition(bank.sessions[report.session], bank.ledger, report.event);
        let more: nat = if next.2 matches ActionView::Send(ResponseView::WithdrawSuccess { .. }) {
            1
        } else {
            0
        };
        Bank {
            sessions: bank.sessions.update(report.session, next.0),
            ledger: next.1,
            granted: bank.granted + more,
        }
    } else {
        bank
    }
}

/// The bank after a run of reports, which may go to the sessions in any
/// order.
pub open spec fn bank_run(bank: Bank, reports: Seq<Report>) -> Bank
    decreases reports.len(),
{
    if reports.len() == 0 {
        bank
    } else {
        bank_step(bank_run(bank, reports.drop_last()), reports.last())
    }
}

/// What holds of a bank whose sessions are asked for nothing but one
/// withdrawal from one account: the balance and the granted amounts add up
/// to the balance at the start, every session that dispatches holds that
/// withdrawal, and the rest of the ledger is as at the start.
pub open spec fn accounts_add_up(
    bank: Bank,
    start: Ledger,
    card_number: Seq<char>,
    pin: Seq<char>,
    amount: u64,
) -> bool {
    &&& bank.ledger.contains_key(card_number)
    &&& bank.ledger[card_number] == start[card_number].with_balance(
        bank.ledger[card_number].balance,
    )
    &&& bank.ledger[card_number].balance + bank.granted * amount == start[card_number].balance
    &&& forall|other: Seq<char>|
        other != card_number ==> (#[trigger] bank.ledger.contains_key(other)
            <==> start.contains_key(other))
    &&& forall|other: Seq<char>|
        other != card_number && start.contains_key(other) ==> #[trigger] bank.ledger[other]
            == start[other]
    &&& forall|k: int|
        0 <= k < bank.sessions.len() && (#[trigger] bank.sessions[k]) is Dispatching ==> {
            &&& bank.sessions[k]->card_number == card_number
            &&& bank.sessions[k]->pin == pin
            &&& bank.sessions[k]->amount == amount
        }
}

/// One report keeps the accounts adding up.
proof fn lemma_step_adds_up(
    bank: Bank,
    report: Report,
    start: Ledger,
    card_number: Seq<char>,
    pin: Seq<char>,
    amount: u64,
)
    requires
        accounts_add_up(bank, start, card_number, pin, amount),
        report.event matches EventView::Received(command) ==> command == (CommandView::Withdraw {
            card_number,
            pin,
            amount,
        }),
    ensures
        accounts_add_up(bank_step(bank, report), start, card_number, pin, amount),
{
    let after = bank_step(bank, report);
    if 0 <= report.session < bank.sessions.len() {
        let session = bank.sessions[report.session];
        let next = transition(session, bank.ledger, report.event);
        if next.2 matches ActionView::Send(ResponseView::WithdrawSuccess { .. }) {
            assert(session is Dispatching && report.event == EventView::Persisted);
            assert(after.ledger == after_withdrawal(bank.ledger, card_number, pin, amount));
            assert(after.ledger[card_number].balance + amount == bank.ledger[card_number].balance);
            assert((bank.granted + 1) * amount == bank.granted * amount + amount)
                by (nonlinear_arith);
        } else {
            assert(after.ledger == bank.ledger);
        }
        assert forall|k: int|
            0 <= k < after.sessions.len() && (
            #[trigger] after.sessions[k]) is Dispatching implies {
            &&& after.sessions[k]->card_number == card_number
            &&& after.sessions[k]->pin == pin
            &&& after.sessions[k]->amount == amount
        } by {
            if k != report.session {
                assert(after.sessions[k] == bank.sessions[k]);
            }
        }
    }
}

/// However the steps of any number of sessions fall among each other, as
/// long as each step is made on the ledger as a whole, withdrawals of one
/// amount from one account never lose an update and never overdraw: the
/// balance is what it was less the amount for each withdrawal answered as
/// granted, no more are granted than the balance at the start holds the
/// amount, and no other account changes.
pub proof fn lemma_interleaved_withdrawals(
    sessions: Seq<SessionView>,
    ledger: Ledger,
    reports: Seq<Report>,
    card_number: Seq<char>,
    pin: Seq<char>,
    amount: u64,
)
    requires
        ledger.contains_key(card_number),
        amount > 0,
        forall|k: int| 0 <= k < sessions.len() ==> !((#[trigger] sessions[k]) is Dispatching),
        forall|i: int|
            0 <= i < reports.len() ==> ((#[trigger] reports[i]).event matches EventView::Received(
                command,
            ) ==> command == (CommandView::Withdraw { card_number, pin, amount })),
    ensures
        accounts_add_up(
            bank_run(Bank { sessions, ledger, granted: 0 }, reports),
            ledger,
            card_number,
            pin,
            amount,
        ),
        bank_run(Bank { sessions, ledger, granted: 0 }, reports).granted
            <= ledger[card_number].balance as int / amount as int,
    decreases reports.len(),
{
    let start = Bank { sessions, ledger, granted: 0 };
    if reports.len() == 0 {
        assert(start.granted * amount == 0) by (nonlinear_arith)
            requires
                start.granted == 0,
        ;
    } else {
        let earlier = reports.drop_last();
        assert forall|i: int| 0 <= i < earlier.len() implies ((
        #[trigger] earlier[i]).event matches EventView::Received(command) ==> command == (
        CommandView::Withdraw { card_number, pin, amount })) by {
            assert(earlier[i] == reports[i]);
        }
        lemma_interleaved_withdrawals(sessions, ledger, earlier, card_number, pin, amount);
        lemma_step_adds_up(
            bank_run(start, earlier),
            reports.last(),
            ledger,
            card_number,
            pin,
            amount,
        );
    }
    let end = bank_run(start, reports);
    let granted = end.granted as int;
    let balance = ledger[card_number].balance as int;
    let each = amount as int;
    assert(granted <= balance / each) by (nonlinear_arith)
        requires
            each > 0,
            granted >= 0,
            granted * each <= balance,
    ;
}

/// A session that is closed stays closed, and a session leaves the ledger
/// alone on every report but that a staged withdrawal is stored.
pub proof fn lemma_closed_is_final(session: SessionView, ledger: Ledger, event: EventView)
    ensures
        session == SessionView::Closed ==> transition(session, ledger, event) == (
            SessionView::Closed,
            ledger,
            ActionView::Close,
        ),
        !(session is Dispatching && event == EventView::Persisted) ==> transition(
            session,
            ledger,
            event,
        ).1 == ledger,
        (event == EventView::Disconnected || event == EventView::TransportFailed) ==> transition(
            session,
            ledger,
            event,
        ) == (SessionView::Closed, ledger, ActionView::Close),
{
}

} // verus!
