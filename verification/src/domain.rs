//! The domain model: accounts, customers, and the catalog of actions.

use crate::decimal::{Decimal, DecimalView};
use crate::error::{BankError, BankErrorView};
use crate::text::{chars_of, trim_bounds, trim_end, trim_start, trimmed};
use vstd::prelude::*;
use vstd::string::StringExecFns;

verus! {

/// A balance. The account itself enforces no rule: whoever calls
/// `withdraw` or `deposit` has decided that the amount is in order.
#[derive(Debug)]
pub struct BankAccount {
    balance: Decimal,
}

impl View for BankAccount {
    type V = DecimalView;

    /// The balance as a number.
    closed spec fn view(&self) -> DecimalView {
        self.balance@
    }
}

impl BankAccount {
    /// An account that starts at `balance`, which may be below zero.
    pub fn new(balance: Decimal) -> (r: BankAccount)
        ensures
            r@ == balance@,
    {
        BankAccount { balance }
    }

    /// The current balance.
    pub fn balance(&self) -> (r: &Decimal)
        ensures
            r@ == self@,
    {
        &self.balance
    }

    /// Takes `amount` from the balance, whatever the two are.
    pub fn withdraw(&mut self, amount: Decimal)
        ensures
            final(self)@ == old(self)@.minus(amount@),
    {
        self.balance = self.balance.minus(&amount);
    }

    /// Adds `amount` to the balance, whatever the two are.
    pub fn deposit(&mut self, amount: Decimal)
        ensures
            final(self)@ == old(self)@.plus(amount@),
    {
        self.balance = self.balance.plus(&amount);
    }
}

/// What a customer is: a name and the balance of the account.
pub struct CustomerView {
    pub name: Seq<char>,
    pub balance: DecimalView,
}

impl CustomerView {
    /// The customer in writing: the name, a line break, the balance.
    pub open spec fn text(self) -> Seq<char> {
        self.name + seq!['\n'] + self.balance.text()
    }
}

/// A named owner of one account.
#[derive(Debug)]
pub struct BankCustomer {
    pub name: String,
    pub bank_account: BankAccount,
}

impl View for BankCustomer {
    type V = CustomerView;

    open spec fn view(&self) -> CustomerView {
        CustomerView { name: self.name@, balance: self.bank_account@ }
    }
}

impl BankCustomer {
    /// Binds a name to an account.
    pub fn new(name: String, bank_account: BankAccount) -> (r: BankCustomer)
        ensures
            r@ == (CustomerView { name: name@, balance: bank_account@ }),
    {
        BankCustomer { name, bank_account }
    }

    /// The customer in writing: the name, then the balance on a line of
    /// its own.
    pub fn render(&self) -> (r: String)
        ensures
            r@ == self@.text(),
    {
        let mut out: String = self.name.clone();
        proof {
            reveal_strlit("\n");
        }
        out.append("\n");
        assert(out@ =~= self.name@ + seq!['\n']);
        let balance: String = self.bank_account.balance().text();
        out.append(balance.as_str());
        out
    }
}

/// One of the four things a session can be asked to do.
#[derive(Clone, Copy, Debug, PartialEq, Eq, Structural)]
pub enum BankAction {
    Withdraw,
    Deposit,
    ReadCurrentBalance,
    Exit,
}

impl BankAction {
    /// The letter that stands for the action.
    pub open spec fn code_spec(self) -> char {
        match self {
            BankAction::Withdraw => 'W',
            BankAction::Deposit => 'D',
            BankAction::ReadCurrentBalance => 'R',
            BankAction::Exit => 'X',
        }
    }

    /// The same letter in lower case.
    pub open spec fn lower_code_spec(self) -> char {
        match self {
            BankAction::Withdraw => 'w',
            BankAction::Deposit => 'd',
            BankAction::ReadCurrentBalance => 'r',
            BankAction::Exit => 'x',
        }
    }

    /// The words that describe the action.
    pub open spec fn command_spec(self) -> Seq<char> {
        match self {
            BankAction::Withdraw => "Withdraw"@,
            BankAction::Deposit => "Deposit"@,
            BankAction::ReadCurrentBalance => "Read Current Balance"@,
            BankAction::Exit => "Exit"@,
        }
    }

    /// The action in writing: its code, ` - `, and its description.
    pub open spec fn render_spec(self) -> Seq<char> {
        seq![self.code_spec()] + seq![' ', '-', ' '] + self.command_spec()
    }

    /// The action that a letter stands for, in either case.
    pub open spec fn of_letter(c: char) -> Option<BankAction> {
        if c == 'W' || c == 'w' {
            Some(BankAction::Withdraw)
        } else if c == 'D' || c == 'd' {
            Some(BankAction::Deposit)
        } else if c == 'R' || c == 'r' {
            Some(BankAction::ReadCurrentBalance)
        } else if c == 'X' || c == 'x' {
            Some(BankAction::Exit)
        } else {
            None
        }
    }

    /// The action that a text names: the text, without the white space
    /// around it, is the code of the action in upper or lower case.
    pub open spec fn parse_spec(raw: Seq<char>) -> Option<BankAction> {
        let t = trimmed(raw);
        if t.len() == 1 {
            BankAction::of_letter(t[0])
        } else {
            None
        }
    }

    /// Whether `text` names this action. The rule is that of `parse_spec`:
    /// a text is accepted for an action exactly when it parses to it.
    pub open spec fn has_code_spec(self, text: Seq<char>) -> bool {
        BankAction::parse_spec(text) == Some(self)
    }

    /// The four actions, in the order in which they are offered.
    pub open spec fn catalog_spec() -> Seq<BankAction> {
        seq![
            BankAction::Deposit,
            BankAction::Withdraw,
            BankAction::ReadCurrentBalance,
            BankAction::Exit,
        ]
    }

    /// The catalog holds every action, each of them once.
    pub proof fn lemma_catalog_holds_each_once(self)
        ensures
            BankAction::catalog_spec().len() == 4,
            BankAction::catalog_spec().contains(self),
            BankAction::catalog_spec().no_duplicates(),
    {
        let catalog = BankAction::catalog_spec();
        assert(catalog[0] == BankAction::Deposit);
        assert(catalog[1] == BankAction::Withdraw);
        assert(catalog[2] == BankAction::ReadCurrentBalance);
        assert(catalog[3] == BankAction::Exit);
    }

    /// Each action is named by its code alone, in upper case or in lower
    /// case, and a text names an action only if, without the white space
    /// around it, it is one of these two letters.
    pub proof fn lemma_codes_name_actions(self, raw: Seq<char>)
        ensures
            BankAction::parse_spec(seq![self.code_spec()]) == Some(self),
            BankAction::parse_spec(seq![self.lower_code_spec()]) == Some(self),
            BankAction::parse_spec(raw) == Some(self) <==> (trimmed(raw) == seq![self.code_spec()]
                || trimmed(raw) == seq![self.lower_code_spec()]),
    {
        let upper = seq![self.code_spec()];
        let lower = seq![self.lower_code_spec()];
        assert(trim_start(upper) == upper);
        assert(trim_end(upper) == upper);
        assert(trim_start(lower) == lower);
        assert(trim_end(lower) == lower);
        let t = trimmed(raw);
        if BankAction::parse_spec(raw) == Some(self) {
            assert(t =~= seq![t[0]]);
        }
    }

    /// The letter that stands for the action.
    pub fn code(&self) -> (r: char)
        ensures
            r == self.code_spec(),
    {
        match self {
            BankAction::Withdraw => 'W',
            BankAction::Deposit => 'D',
            BankAction::ReadCurrentBalance => 'R',
            BankAction::Exit => 'X',
        }
    }

    /// The words that describe the action.
    pub fn command(&self) -> (r: &'static str)
        ensures
            r@ == self.command_spec(),
    {
        match self {
            BankAction::Withdraw => "Withdraw",
            BankAction::Deposit => "Deposit",
            BankAction::ReadCurrentBalance => "Read Current Balance",
            BankAction::Exit => "Exit",
        }
    }

    /// The action in writing, as `D - Deposit`.
    pub fn render(&self) -> (r: String)
        ensures
            r@ == self.render_spec(),
    {
        proof {
            reveal_strlit("W - ");
            reveal_strlit("D - ");
            reveal_strlit("R - ");
            reveal_strlit("X - ");
        }
        let head: &'static str = match self {
            BankAction::Withdraw => "W - ",
            BankAction::Deposit => "D - ",
            BankAction::ReadCurrentBalance => "R - ",
            BankAction::Exit => "X - ",
        };
        assert(head@ =~= seq![self.code_spec()] + seq![' ', '-', ' ']);
        let mut out: String = String::from_str(head);
        out.append(self.command());
        out
    }

    /// Reads an action from a text. Any text that names none of the four
    /// is refused with the text itself, as it was given.
    pub fn parse(raw: &str) -> (r: Result<BankAction, BankError>)
        ensures
            match r {
                Ok(action) => BankAction::parse_spec(raw@) == Some(action),
                Err(e) => BankAction::parse_spec(raw@) is None && e@ == (BankErrorView::Parse {
                    raw: raw@,
                }),
            },
    {
        let chars: Vec<char> = chars_of(raw);
        let (from, to) = trim_bounds(&chars);
        if to - from == 1 {
            let c: char = chars[from];
            assert(trimmed(raw@)[0] == c);
            if c == 'W' || c == 'w' {
                return Ok(BankAction::Withdraw);
            } else if c == 'D' || c == 'd' {
                return Ok(BankAction::Deposit);
            } else if c == 'R' || c == 'r' {
                return Ok(BankAction::ReadCurrentBalance);
            } else if c == 'X' || c == 'x' {
                return Ok(BankAction::Exit);
            }
        }
        Err(BankError::Parse { raw: raw.to_owned() })
    }

    /// Whether `text` names this action, by the rule of `parse`.
    pub fn has_code(&self, text: &str) -> (r: bool)
        ensures
            r == self.has_code_spec(text@),
    {
        match BankAction::parse(text) {
            Ok(action) => action == *self,
            Err(_) => false,
        }
    }

    /// The four actions, in the order in which they are offered.
    pub fn catalog() -> (r: Vec<BankAction>)
        ensures
            r@ == BankAction::catalog_spec(),
    {
        let mut r: Vec<BankAction> = Vec::new();
        r.push(BankAction::Deposit);
        r.push(BankAction::Withdraw);
        r.push(BankAction::ReadCurrentBalance);
        r.push(BankAction::Exit);
        assert(r@ =~= BankAction::catalog_spec());
        r
    }
}

impl TryFrom<&String> for BankAction {
    type Error = BankError;

    /// Reads an action from a text, as `parse` does.
    fn try_from(value: &String) -> (r: Result<BankAction, BankError>) {
        match BankAction::parse(value.as_str()) {
            Ok(action) => Ok(action),
            Err(_) => Err(BankError::Parse { raw: value.clone() }),
        }
    }
}

impl vstd::std_specs::convert::TryFromSpecImpl<&String> for BankAction {
    open spec fn obeys_try_from_spec() -> bool {
        true
    }

    open spec fn try_from_spec(value: &String) -> Result<BankAction, BankError> {
        match BankAction::parse_spec(value@) {
            Some(action) => Ok(action),
            None => Err(BankError::Parse { raw: *value }),
        }
    }
}

impl PartialEq<String> for BankAction {
    /// Whether `other` names this action, as `has_code` tells.
    fn eq(&self, other: &String) -> (r: bool) {
        self.has_code(other.as_str())
    }
}

impl vstd::std_specs::cmp::PartialEqSpecImpl<String> for BankAction {
    open spec fn obeys_eq_spec() -> bool {
        true
    }

    open spec fn eq_spec(&self, other: &String) -> bool {
        self.has_code_spec(other@)
    }
}

} // verus!
