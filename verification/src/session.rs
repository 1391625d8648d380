//! The bank's side of one connection: which response a command gets, and the
//! order in which a connection receives, stores and responds.
//!
//! Reading, writing and storing are the caller's work. The caller reports
//! each as an [`Event`], and [`Session::step`] answers with the next
//! [`Action`] to perform. A withdrawal is held back until the caller reports
//! that the new ledger is durable: until then the store is unchanged, and if
//! storing fails it stays so. When the report comes, the withdrawal is made
//! on the store as it then is, and only if it still leaves the balance that
//! was handed out for storing; on a store that has changed under it, nothing
//! is made and the answer is a server error.

use crate::account::Account;
use crate::message::{Command, CommandView, Response, ResponseView};
use crate::store::{
    after_withdrawal, balance_outcome, distinct_cards, distinct_keys, key_owner, ledger_of, rows_of,
    withdrawal_outcome, AccountStore, Ledger, StoreError,
};
use vstd::prelude::*;

verus! {

/// The response that reports a refusal of the store.
pub open spec fn refusal(error: StoreError) -> ResponseView {
    match error {
        StoreError::NotFound => ResponseView::ErrorCardNotFound,
        StoreError::InvalidPin => ResponseView::ErrorInvalidPin,
        StoreError::InsufficientFunds => ResponseView::WithdrawErrorInsufficientFunds,
        StoreError::DuplicateCardNumber => ResponseView::ErrorServerInternal,
        StoreError::DuplicateCardKey => ResponseView::ErrorServerInternal,
    }
}

/// The response that a command gets from a ledger.
pub open spec fn answer(ledger: Ledger, command: CommandView) -> ResponseView {
    match command {
        CommandView::ValidateCardKey { card_key } => match key_owner(ledger, card_key) {
            Some(card_number) => ResponseView::ValidateCardKeySuccess { card_number },
            None => ResponseView::ValidateCardKeyErrorInvalid,
        },
        CommandView::Withdraw { card_number, pin, amount } => match withdrawal_outcome(
            ledger,
            card_number,
            pin,
            amount,
        ) {
            Ok(new_balance) => ResponseView::WithdrawSuccess { new_balance },
            Err(error) => refusal(error),
        },
        CommandView::CheckBalance { card_number, pin } => match balance_outcome(
            ledger,
            card_number,
            pin,
        ) {
            Ok(amount) => ResponseView::CheckBalanceSuccess { amount },
            Err(error) => refusal(error),
        },
    }
}

/// The ledger that a command leaves behind.
pub open spec fn ledger_after(ledger: Ledger, command: CommandView) -> Ledger {
    match command {
        CommandView::Withdraw { card_number, pin, amount } => after_withdrawal(
            ledger,
            card_number,
            pin,
            amount,
        ),
        _ => ledger,
    }
}

/// Whether a command changes the ledger: it is a withdrawal that the ledger
/// grants.
pub open spec fn changes_ledger(ledger: Ledger, command: CommandView) -> bool {
    command matches CommandView::Withdraw { card_number, pin, amount } && withdrawal_outcome(
        ledger,
        card_number,
        pin,
        amount,
    ) is Ok
}

/// The response that reports a refusal of the store.
pub fn refusal_response(error: StoreError) -> (response: Response)
    ensures
        response@ == refusal(error),
{
    match error {
        StoreError::NotFound => Response::ErrorCardNotFound,
        StoreError::InvalidPin => Response::ErrorInvalidPin,
        StoreError::InsufficientFunds => Response::WithdrawErrorInsufficientFunds,
        StoreError::DuplicateCardNumber => Response::ErrorServerInternal,
        StoreError::DuplicateCardKey => Response::ErrorServerInternal,
    }
}

/// Answers a command that only reads the store.
fn inquiry_response(store: &AccountStore, command: &Command) -> (response: Response)
    requires
        !(command@ is Withdraw),
    ensures
        response@ == answer(store@, command@),
{
    match command {
        Command::ValidateCardKey { card_key } => match store.resolve_card_key(card_key.as_str()) {
            Ok(card_number) => Response::ValidateCardKeySuccess { card_number },
            Err(_) => Response::ValidateCardKeyErrorInvalid,
        },
        Command::CheckBalance { card_number, pin } => match store.check_balance(
            card_number.as_str(),
            pin.as_str(),
        ) {
            Ok(amount) => Response::CheckBalanceSuccess { amount },
            Err(error) => refusal_response(error),
        },
        Command::Withdraw { .. } => Response::ErrorServerInternal,
    }
}

/// Carries out one command on the store and gives the response to it.
pub fn handle_command(store: &mut AccountStore, command: &Command) -> (response: Response)
    ensures
        response@ == answer(old(store)@, command@),
        final(store)@ == ledger_after(old(store)@, command@),
{
    match command {
        Command::Withdraw { card_number, pin, amount } => match store.withdraw(
            card_number.as_str(),
            pin.as_str(),
            *amount,
        ) {
            Ok(new_balance) => Response::WithdrawSuccess { new_balance },
            Err(error) => refusal_response(error),
        },
        _ => inquiry_response(store, command),
    }
}

/// Where a connection stands.
#[derive(Debug, Clone, Copy, PartialEq, Eq, Structural)]
pub enum Phase {
    /// Nothing is in progress; the next command is awaited.
    AwaitingCommand,
    /// A withdrawal has been granted and its ledger is being made durable.
    Dispatching,
    /// A response is being written.
    Responding,
    /// The connection is released; nothing more happens on it.
    Closed,
}

/// What the caller reports to a session.
#[derive(Debug, PartialEq, Eq)]
pub enum Event {
    /// A whole command has arrived.
    Received(Command),
    /// The peer closed the stream between two frames.
    Disconnected,
    /// The stream failed, ended inside a frame, or carried a body that is no
    /// command.
    TransportFailed,
    /// The accounts handed out for storing are durable.
    Persisted,
    /// The accounts handed out for storing could not be made durable.
    PersistFailed,
    /// The response has been written in full.
    Sent,
}

/// What a session asks the caller to do next.
#[derive(Debug, PartialEq, Eq)]
pub enum Action {
    /// Wait for the next command, then report it.
    Receive,
    /// Make these accounts durable, then report whether that succeeded.
    Persist(Vec<Account>),
    /// Write this response, then report that it is written.
    Send(Response),
    /// Release the connection.
    Close,
}

/// A session as contracts see it. While it dispatches it holds the
/// withdrawal that was granted and the balance that the withdrawal leaves.
pub enum SessionView {
    AwaitingCommand,
    Dispatching { card_number: Seq<char>, pin: Seq<char>, amount: u64, new_balance: u64 },
    Responding,
    Closed,
}

/// An [`Event`] as contracts see it.
pub enum EventView {
    Received(CommandView),
    Disconnected,
    TransportFailed,
    Persisted,
    PersistFailed,
    Sent,
}

/// An [`Action`] as contracts see it: the accounts to store stand as the
/// ledger they make up.
pub enum ActionView {
    Receive,
    Persist(Ledger),
    Send(ResponseView),
    Close,
}

impl View for Event {
    type V = EventView;

    open spec fn view(&self) -> EventView {
        match self {
            Event::Received(command) => EventView::Received(command@),
            Event::Disconnected => EventView::Disconnected,
            Event::TransportFailed => EventView::TransportFailed,
            Event::Persisted => EventView::Persisted,
            Event::PersistFailed => EventView::PersistFailed,
            Event::Sent => EventView::Sent,
        }
    }
}

impl View for Action {
    type V = ActionView;

    open spec fn view(&self) -> ActionView {
        match self {
            Action::Receive => ActionView::Receive,
            Action::Persist(accounts) => ActionView::Persist(ledger_of(rows_of(accounts@))),
            Action::Send(response) => ActionView::Send(response@),
            Action::Close => ActionView::Close,
        }
    }
}

impl SessionView {
    /// The phase of the session.
    pub open spec fn phase(self) -> Phase {
        match self {
            SessionView::AwaitingCommand => Phase::AwaitingCommand,
            SessionView::Dispatching { .. } => Phase::Dispatching,
            SessionView::Responding => Phase::Responding,
            SessionView::Closed => Phase::Closed,
        }
    }
}

/// One step of a connection: from the session, the ledger and what the
/// caller reports to the next session, the next ledger and what the caller
/// is to do.
///
/// A granted withdrawal is handed out for storing and leaves the ledger as
/// it is. Once stored, it is made on the ledger of that moment if it leaves
/// there the balance that was handed out; else the ledger stays and the
/// answer is a server error. A report that does not fit the phase closes the
/// session and leaves the ledger as it is.
pub open spec fn transition(session: SessionView, ledger: Ledger, event: EventView) -> (
    SessionView,
    Ledger,
    ActionView,
) {
    match (session, event) {
        (SessionView::AwaitingCommand, EventView::Received(command)) => {
            if changes_ledger(ledger, command) {
                (
                    SessionView::Dispatching {
                        card_number: command->Withdraw_card_number,
                        pin: command->Withdraw_pin,
                        amount: command->Withdraw_amount,
                        new_balance: answer(ledger, command)->new_balance,
                    },
                    ledger,
                    ActionView::Persist(ledger_after(ledger, command)),
                )
            } else {
                (SessionView::Responding, ledger, ActionView::Send(answer(ledger, command)))
            }
        },
        (
            SessionView::Dispatching { card_number, pin, amount, new_balance },
            EventView::Persisted,
        ) => {
            if withdrawal_outcome(ledger, card_number, pin, amount) == Ok::<u64, StoreError>(
                new_balance,
            ) {
                (
                    SessionView::Responding,
                    after_withdrawal(ledger, card_number, pin, amount),
                    ActionView::Send(ResponseView::WithdrawSuccess { new_balance }),
                )
            } else {
                (
                    SessionView::Responding,
                    ledger,
                    ActionView::Send(ResponseView::ErrorServerInternal),
                )
            }
        },
        (SessionView::Dispatching { .. }, EventView::PersistFailed) => (
            SessionView::Responding,
            ledger,
            ActionView::Send(ResponseView::ErrorServerInternal),
        ),
        (SessionView::Responding, EventView::Sent) => (
            SessionView::AwaitingCommand,
            ledger,
            ActionView::Receive,
        ),
        _ => (SessionView::Closed, ledger, ActionView::Close),
    }
}

/// The bank's side of one connection.
pub struct Session {
    phase: Phase,
    card_number: String,
    pin: String,
    amount: u64,
    new_balance: u64,
}

impl View for Session {
    type V = SessionView;

    closed spec fn view(&self) -> SessionView {
        match self.phase {
            Phase::AwaitingCommand => SessionView::AwaitingCommand,
            Phase::Dispatching => SessionView::Dispatching {
                card_number: self.card_number@,
                pin: self.pin@,
                amount: self.amount,
                new_balance: self.new_balance,
            },
            Phase::Responding => SessionView::Responding,
            Phase::Closed => SessionView::Closed,
        }
    }
}

impl Session {
    /// A session in a phase in which no withdrawal is held.
    fn idle(phase: Phase) -> (session: Session)
        requires
            phase != Phase::Dispatching,
        ensures
            session@.phase() == phase,
            !(session@ is Dispatching),
    {
        Session { phase, card_number: String::new(), pin: String::new(), amount: 0, new_balance: 0 }
    }

    /// A session on a fresh connection: it awaits its first command, and the
    /// caller's first action is [`Action::Receive`].
    pub fn new() -> (session: Session)
        ensures
            session@ == SessionView::AwaitingCommand,
    {
        Session::idle(Phase::AwaitingCommand)
    }

    /// The phase of the session.
    pub fn phase(&self) -> (phase: Phase)
        ensures
            phase == self@.phase(),
    {
        self.phase
    }

    /// Whether the connection has been released.
    pub fn is_closed(&self) -> (closed: bool)
        ensures
            closed == (self@ == SessionView::Closed),
    {
        match self.phase {
            Phase::Closed => true,
            _ => false,
        }
    }

    /// Takes what the caller reports and says what it is to do next.
    ///
    /// What is handed out for storing is the ledger of the moment with the
    /// withdrawal made. For the stored accounts to be the ledger that the
    /// commit leaves, the caller lets no other session step on the same
    /// store between the report of a command and the report on storing.
    pub fn step(self, store: &mut AccountStore, event: Event) -> (next: (Session, Action))
        ensures
            next.0@ == transition(self@, old(store)@, event@).0,
            final(store)@ == transition(self@, old(store)@, event@).1,
            next.1@ == transition(self@, old(store)@, event@).2,
            next.1 matches Action::Persist(accounts) ==> distinct_cards(rows_of(accounts@))
                && distinct_keys(rows_of(accounts@)),
    {
        match self.phase {
            Phase::AwaitingCommand => match event {
                Event::Received(command) => match command {
                    Command::Withdraw { card_number, pin, amount } => match store.stage_withdrawal(
                        card_number.as_str(),
                        pin.as_str(),
                        amount,
                    ) {
                        Ok((staged, new_balance)) => {
                            let accounts = staged.snapshot();
                            (
                                Session {
                                    phase: Phase::Dispatching,
                                    card_number,
                                    pin,
                                    amount,
                                    new_balance,
                                },
                                Action::Persist(accounts),
                            )
                        },
                        Err(error) => (
                            Session::idle(Phase::Responding),
                            Action::Send(refusal_response(error)),
                        ),
                    },
                    _ => (
                        Session::idle(Phase::Responding),
                        Action::Send(inquiry_response(store, &command)),
                    ),
                },
                _ => (Session::idle(Phase::Closed), Action::Close),
            },
            Phase::Dispatching => match event {
                Event::Persisted => {
                    let still_good = match store.check_balance(
                        self.card_number.as_str(),
                        self.pin.as_str(),
                    ) {
                        Ok(balance) => balance >= self.amount && balance - self.amount
                            == self.new_balance,
                        Err(_) => false,
                    };
                    if still_good {
                        let _ = store.withdraw(
                            self.card_number.as_str(),
                            self.pin.as_str(),
                            self.amount,
                        );
                        (
                            Session::idle(Phase::Responding),
                            Action::Send(Response::WithdrawSuccess { new_balance: self.new_balance }),
                        )
                    } else {
                        (
                            Session::idle(Phase::Responding),
                            Action::Send(Response::ErrorServerInternal),
                        )
                    }
                },
                Event::PersistFailed => (
                    Session::idle(Phase::Responding),
                    Action::Send(Response::ErrorServerInternal),
                ),
                _ => (Session::idle(Phase::Closed), Action::Close),
            },
            Phase::Responding => match event {
                Event::Sent => (Session::idle(Phase::AwaitingCommand), Action::Receive),
                _ => (Session::idle(Phase::Closed), Action::Close),
            },
            Phase::Closed => (Session::idle(Phase::Closed), Action::Close),
        }
    }
}

} // verus!
