//! The terminal's side of a session: the language, the card that was
//! accepted, the PIN that was entered, and what each response means to the
//! person at the terminal.

use crate::message::{Command, CommandView, Response, ResponseView};
use vstd::prelude::*;
use vstd::utf8::{decode_utf8, encode_utf8, encode_utf8_decode_utf8, is_char_boundary};

verus! {

/// The language in which the terminal speaks.
#[derive(Debug, Clone, Copy, PartialEq, Eq, Structural)]
pub enum Language {
    English,
    Bulgarian,
}

/// What the person chose from the main menu.
#[derive(Debug, Clone, Copy, PartialEq, Eq, Structural)]
pub enum MenuChoice {
    CheckBalance,
    Withdraw,
    ChangeLanguage,
    Exit,
    Invalid,
}

/// What the terminal asked the bank.
#[derive(Debug, Clone, Copy, PartialEq, Eq, Structural)]
pub enum Request {
    CardKey,
    Balance,
    Withdrawal,
}

/// What the terminal tells the person after a response. Amounts count minor
/// units.
#[derive(Debug, Clone, Copy, PartialEq, Eq, Structural)]
pub enum Notice {
    /// The card key was accepted and the card is in use from now on.
    CardAccepted,
    /// The card key is bound to no account.
    InvalidCardKey,
    /// The account holds `amount`.
    Balance { amount: u64 },
    /// The withdrawal was made and `new_balance` is left.
    Withdrawn { new_balance: u64 },
    /// The balance does not cover the amount.
    InsufficientFunds,
    /// The bank knows no such card.
    CardNotFound,
    /// The PIN was wrong; it is forgotten and will be asked for again.
    InvalidPin,
    /// The bank could not complete the operation.
    ServerError,
    /// The response does not fit what was asked.
    Unexpected,
}

/// The language that a number typed at the language prompt names: 1 is
/// English, 2 is Bulgarian, and no other number names one.
pub open spec fn language_named(choice: u32) -> Option<Language> {
    if choice == 1 {
        Some(Language::English)
    } else if choice == 2 {
        Some(Language::Bulgarian)
    } else {
        None
    }
}

/// The language behind a number typed at the language prompt: the one it
/// names, and English where it names none.
pub open spec fn language_of(choice: u32) -> Language {
    match language_named(choice) {
        Some(language) => language,
        None => Language::English,
    }
}

/// The menu entry behind a number typed at the main menu.
pub open spec fn menu_entry(choice: u32) -> MenuChoice {
    if choice == 1 {
        MenuChoice::CheckBalance
    } else if choice == 2 {
        MenuChoice::Withdraw
    } else if choice == 3 {
        MenuChoice::ChangeLanguage
    } else if choice == 4 {
        MenuChoice::Exit
    } else {
        MenuChoice::Invalid
    }
}

/// What a response means after a request.
pub open spec fn notice_for(request: Request, response: ResponseView) -> Notice {
    match response {
        ResponseView::ErrorCardNotFound => Notice::CardNotFound,
        ResponseView::ErrorInvalidPin => Notice::InvalidPin,
        ResponseView::ErrorServerInternal => Notice::ServerError,
        ResponseView::ValidateCardKeySuccess { .. } => if request == Request::CardKey {
            Notice::CardAccepted
        } else {
            Notice::Unexpected
        },
        ResponseView::ValidateCardKeyErrorInvalid => if request == Request::CardKey {
            Notice::InvalidCardKey
        } else {
            Notice::Unexpected
        },
        ResponseView::CheckBalanceSuccess { amount } => if request == Request::Balance {
            Notice::Balance { amount }
        } else {
            Notice::Unexpected
        },
        ResponseView::WithdrawSuccess { new_balance } => if request == Request::Withdrawal {
            Notice::Withdrawn { new_balance }
        } else {
            Notice::Unexpected
        },
        ResponseView::WithdrawErrorInsufficientFunds => if request == Request::Withdrawal {
            Notice::InsufficientFunds
        } else {
            Notice::Unexpected
        },
    }
}

/// Whether a card number can be shown masked: it has at least four bytes,
/// and the last four begin with the beginning of a character.
pub open spec fn can_mask(card_number: Seq<char>) -> bool {
    let bytes = encode_utf8(card_number);
    bytes.len() >= 4 && is_char_boundary(bytes, bytes.len() - 4)
}

/// The card number as the terminal shows it: one `x` for every byte but the
/// last four, and then the text of the last four bytes.
pub open spec fn masked(card_number: Seq<char>) -> Seq<char> {
    let bytes = encode_utf8(card_number);
    Seq::new((bytes.len() - 4) as nat, |i: int| 'x') + decode_utf8(
        bytes.subrange(bytes.len() - 4, bytes.len() as int),
    )
}

/// Whether an answer to "do you want a receipt" means yes: it is the
/// letter y, small or capital.
pub open spec fn means_yes(answer: Seq<char>) -> bool {
    answer == seq!['y'] || answer == seq!['Y']
}

/// The language that a number typed at the language prompt names.
pub fn language_choice(choice: u32) -> (language: Option<Language>)
    ensures
        language == language_named(choice),
{
    if choice == 1 {
        Some(Language::English)
    } else if choice == 2 {
        Some(Language::Bulgarian)
    } else {
        None
    }
}

/// The language behind a number typed at the language prompt.
pub fn select_language(choice: u32) -> (language: Language)
    ensures
        language == language_of(choice),
{
    match language_choice(choice) {
        Some(language) => language,
        None => Language::English,
    }
}

/// The menu entry behind a number typed at the main menu.
pub fn menu_choice(choice: u32) -> (entry: MenuChoice)
    ensures
        entry == menu_entry(choice),
{
    if choice == 1 {
        MenuChoice::CheckBalance
    } else if choice == 2 {
        MenuChoice::Withdraw
    } else if choice == 3 {
        MenuChoice::ChangeLanguage
    } else if choice == 4 {
        MenuChoice::Exit
    } else {
        MenuChoice::Invalid
    }
}

/// Of a text in two languages, the one in `language`.
pub fn localized<'a>(language: Language, english: &'a str, bulgarian: &'a str) -> (text: &'a str)
    ensures
        text@ == (match language {
            Language::English => english@,
            Language::Bulgarian => bulgarian@,
        }),
{
    match language {
        Language::English => english,
        Language::Bulgarian => bulgarian,
    }
}

/// Whether an answer to "do you want a receipt" means yes.
pub fn wants_receipt(answer: &str) -> (yes: bool)
    ensures
        yes == means_yes(answer@),
{
    proof {
        reveal_strlit("y");
        reveal_strlit("Y");
        assert("y"@ =~= seq!['y']);
        assert("Y"@ =~= seq!['Y']);
    }
    let given = answer.to_owned();
    let small = "y".to_owned();
    let capital = "Y".to_owned();
    given == small || given == capital
}

/// The card number as the terminal shows it.
pub fn mask_card_number(card_number: &str) -> (shown: String)
    requires
        can_mask(card_number@),
    ensures
        shown@ == masked(card_number@),
{
    let n = card_number.as_bytes().len();
    let (_, tail) = card_number.split_at(n - 4);
    let mut shown = String::new();
    let mut i: usize = 0;
    proof {
        reveal_strlit("x");
        encode_utf8_decode_utf8(tail@);
    }
    while i < n - 4
        invariant
            n >= 4,
            i <= n - 4,
            shown@ == Seq::new(i as nat, |k: int| 'x'),
            "x"@.len() == 1,
            "x"@[0] == 'x',
        decreases n - 4 - i,
    {
        shown.append("x");
        i += 1;
        assert(shown@ =~= Seq::new(i as nat, |k: int| 'x'));
    }
    shown.append(tail);
    shown
}

/// What the terminal remembers during one session.
pub struct Terminal {
    language: Language,
    card_number: Option<String>,
    pin: Option<String>,
}

/// A [`Terminal`] as contracts see it.
pub struct TerminalView {
    pub language: Language,
    pub card_number: Option<Seq<char>>,
    pub pin: Option<Seq<char>>,
}

/// The text in an optional string.
pub open spec fn text_of(text: Option<String>) -> Option<Seq<char>> {
    match text {
        Some(s) => Some(s@),
        None => None,
    }
}

impl View for Terminal {
    type V = TerminalView;

    closed spec fn view(&self) -> TerminalView {
        TerminalView {
            language: self.language,
            card_number: text_of(self.card_number),
            pin: text_of(self.pin),
        }
    }
}

impl TerminalView {
    /// The terminal after a response to a request: a card key that was
    /// accepted puts its card in use, a refused PIN is forgotten, and
    /// nothing else changes.
    pub open spec fn after(self, request: Request, response: ResponseView) -> TerminalView {
        match response {
            ResponseView::ValidateCardKeySuccess { card_number } => if request == Request::CardKey {
                TerminalView { card_number: Some(card_number), ..self }
            } else {
                self
            },
            ResponseView::ErrorInvalidPin => TerminalView { pin: None, ..self },
            _ => self,
        }
    }

    /// The balance inquiry that the terminal can send, if a card is in use
    /// and a PIN was entered.
    pub open spec fn balance_command(self) -> Option<CommandView> {
        match (self.card_number, self.pin) {
            (Some(card_number), Some(pin)) => Some(CommandView::CheckBalance { card_number, pin }),
            _ => None,
        }
    }

    /// The withdrawal that the terminal can send, if a card is in use, a
    /// PIN was entered and the amount is not zero.
    pub open spec fn withdraw_command(self, amount: u64) -> Option<CommandView> {
        match (self.card_number, self.pin) {
            (Some(card_number), Some(pin)) => if amount > 0 {
                Some(CommandView::Withdraw { card_number, pin, amount })
            } else {
                None
            },
            _ => None,
        }
    }
}

/// Copies an optional string.
fn copy_text(text: &Option<String>) -> (copy: Option<String>)
    ensures
        text_of(copy) == text_of(*text),
{
    match text {
        Some(s) => Some(s.clone()),
        None => None,
    }
}

impl Terminal {
    /// A terminal at the start of a session: it speaks English, no card is
    /// in use and no PIN was entered.
    pub fn new() -> (terminal: Terminal)
        ensures
            terminal@ == (TerminalView {
                language: Language::English,
                card_number: None,
                pin: None,
            }),
    {
        Terminal { language: Language::English, card_number: None, pin: None }
    }

    /// The language in which the terminal speaks.
    pub fn language(&self) -> (language: Language)
        ensures
            language == self@.language,
    {
        self.language
    }

    /// Changes the language; the card and the PIN stay.
    pub fn set_language(&mut self, language: Language)
        ensures
            final(self)@ == (TerminalView { language, ..old(self)@ }),
    {
        self.language = language;
    }

    /// The number of the card in use.
    pub fn card_number(&self) -> (card_number: Option<String>)
        ensures
            text_of(card_number) == self@.card_number,
    {
        copy_text(&self.card_number)
    }

    /// The PIN that was entered and not refused since.
    pub fn cached_pin(&self) -> (pin: Option<String>)
        ensures
            text_of(pin) == self@.pin,
    {
        copy_text(&self.pin)
    }

    /// Whether the person must be asked for the PIN before the next request.
    pub fn needs_pin(&self) -> (needed: bool)
        ensures
            needed == (self@.pin is None),
    {
        self.pin.is_none()
    }

    /// Remembers the PIN that the person entered.
    pub fn enter_pin(&mut self, pin: &str)
        ensures
            final(self)@ == (TerminalView { pin: Some(pin@), ..old(self)@ }),
    {
        self.pin = Some(pin.to_owned());
    }

    /// The command that exchanges a card key for its card number.
    pub fn card_key_command(card_key: &str) -> (command: Command)
        ensures
            command@ == (CommandView::ValidateCardKey { card_key: card_key@ }),
    {
        Command::ValidateCardKey { card_key: card_key.to_owned() }
    }

    /// The balance inquiry for the card in use.
    pub fn balance_command(&self) -> (command: Option<Command>)
        ensures
            match command {
                Some(built) => self@.balance_command() == Some(built@),
                None => self@.balance_command() is None,
            },
    {
        match (&self.card_number, &self.pin) {
            (Some(card_number), Some(pin)) => Some(
                Command::CheckBalance { card_number: card_number.clone(), pin: pin.clone() },
            ),
            _ => None,
        }
    }

    /// The withdrawal of `amount` from the card in use. An amount of zero is
    /// refused here, before anything is sent.
    pub fn withdraw_command(&self, amount: u64) -> (command: Option<Command>)
        ensures
            match command {
                Some(built) => self@.withdraw_command(amount) == Some(built@),
                None => self@.withdraw_command(amount) is None,
            },
    {
        if amount == 0 {
            return None;
        }
        match (&self.card_number, &self.pin) {
            (Some(card_number), Some(pin)) => Some(
                Command::Withdraw { card_number: card_number.clone(), pin: pin.clone(), amount },
            ),
            _ => None,
        }
    }

    /// Takes the response to a request: updates what the terminal remembers
    /// and says what to tell the person.
    pub fn receive(&mut self, request: Request, response: &Response) -> (notice: Notice)
        ensures
            notice == notice_for(request, response@),
            final(self)@ == old(self)@.after(request, response@),
    {
        match response {
            Response::ErrorCardNotFound => Notice::CardNotFound,
            Response::ErrorInvalidPin => {
                self.pin = None;
                Notice::InvalidPin
            },
            Response::ErrorServerInternal => Notice::ServerError,
            Response::ValidateCardKeySuccess { card_number } => match request {
                Request::CardKey => {
                    self.card_number = Some(card_number.clone());
                    Notice::CardAccepted
                },
                _ => Notice::Unexpected,
            },
            Response::ValidateCardKeyErrorInvalid => match request {
                Request::CardKey => Notice::InvalidCardKey,
                _ => Notice::Unexpected,
            },
            Response::CheckBalanceSuccess { amount } => match request {
                Request::Balance => Notice::Balance { amount: *amount },
                _ => Notice::Unexpected,
            },
            Response::WithdrawSuccess { new_balance } => match request {
                Request::Withdrawal => Notice::Withdrawn { new_balance: *new_balance },
                _ => Notice::Unexpected,
            },
            Response::WithdrawErrorInsufficientFunds => match request {
                Request::Withdrawal => Notice::InsufficientFunds,
                _ => Notice::Unexpected,
            },
        }
    }
}

} // verus!
