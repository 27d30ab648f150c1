//! The session: what the bank asks for, and what it makes of each answer.
//!
//! A session is a state machine. The program around it shows the prompt
//! of the current state, reads a line, has `accept_input` judge it
//! against the bounds of the state, and hands the outcome to `step`,
//! which gives the next state and the lines to show. `app` does this for
//! a whole list of console reads.

use crate::decimal::{lemma_minus_then_minus, lemma_plus_then_minus, Decimal, DecimalView};
use crate::domain::{BankAccount, BankAction, BankCustomer, CustomerView};
use crate::error::{BankError, BankErrorView, IoError};
use crate::input::{accept_input, accept_spec, input_view, list_input_bounds, listing, read_view};
use crate::numeral::numeral;
use vstd::prelude::*;
use vstd::string::StringExecFns;

verus! {

/// What the action loop is waiting for.
#[derive(Clone, Copy, Debug, PartialEq, Eq, Structural)]
pub enum Awaiting {
    /// The code of an action.
    Action,
    /// The amount to withdraw.
    WithdrawAmount,
    /// The amount to deposit.
    DepositAmount,
}

/// Where a session stands.
#[derive(Debug)]
pub enum Session {
    /// Asking for the customer's name.
    NameEntry,
    /// Asking for the opening balance.
    InitialBalanceEntry { name: String },
    /// Serving the customer.
    ActionLoop { customer: BankCustomer, awaiting: Awaiting },
    /// Over.
    Exited { customer: BankCustomer },
}

/// A session as a mathematical value.
pub enum SessionView {
    NameEntry,
    InitialBalanceEntry { name: Seq<char> },
    ActionLoop { customer: CustomerView, awaiting: Awaiting },
    Exited { customer: CustomerView },
}

impl View for Session {
    type V = SessionView;

    open spec fn view(&self) -> SessionView {
        match self {
            Session::NameEntry => SessionView::NameEntry,
            Session::InitialBalanceEntry { name } => SessionView::InitialBalanceEntry {
                name: name@,
            },
            Session::ActionLoop { customer, awaiting } => SessionView::ActionLoop {
                customer: customer@,
                awaiting: *awaiting,
            },
            Session::Exited { customer } => SessionView::Exited { customer: customer@ },
        }
    }
}

/// The smallest amount that a deposit may have: 0.01.
pub open spec fn minimum_deposit_spec() -> DecimalView {
    DecimalView { units: 1, scale: 2 }
}

/// The balance after a request to withdraw `amount`: less by `amount` if
/// the balance covers it, unchanged if not.
pub open spec fn after_withdrawal(balance: DecimalView, amount: DecimalView) -> DecimalView {
    if amount.le(balance) {
        balance.minus(amount)
    } else {
        balance
    }
}

/// The balance after a request to deposit `amount`: more by `amount` if
/// that is at least the minimum, unchanged if not.
pub open spec fn after_deposit(balance: DecimalView, amount: DecimalView) -> DecimalView {
    if minimum_deposit_spec().le(amount) {
        balance.plus(amount)
    } else {
        balance
    }
}

/// The words for a text that is no action and no number.
pub open spec fn parse_failure(text: Seq<char>) -> Seq<char> {
    (BankErrorView::Parse { raw: text }).message()
}

impl SessionView {
    /// How far the session has come: 0 at the name, 1 at the opening
    /// balance, 2 while it serves the customer, 3 when it is over.
    pub open spec fn stage(self) -> nat {
        match self {
            SessionView::NameEntry => 0,
            SessionView::InitialBalanceEntry { .. } => 1,
            SessionView::ActionLoop { .. } => 2,
            SessionView::Exited { .. } => 3,
        }
    }

    /// The name that was entered, once there is one.
    pub open spec fn name(self) -> Option<Seq<char>> {
        match self {
            SessionView::NameEntry => None,
            SessionView::InitialBalanceEntry { name } => Some(name),
            SessionView::ActionLoop { customer, .. } => Some(customer.name),
            SessionView::Exited { customer } => Some(customer.name),
        }
    }

    /// The balance, once there is an account.
    pub open spec fn balance(self) -> Option<DecimalView> {
        match self {
            SessionView::ActionLoop { customer, .. } => Some(customer.balance),
            SessionView::Exited { customer } => Some(customer.balance),
            _ => None,
        }
    }

    /// The question that the state puts to the user; none once the
    /// session is over.
    pub open spec fn prompt(self) -> Option<Seq<char>> {
        match self {
            SessionView::NameEntry => Some("Enter your name!"@),
            SessionView::InitialBalanceEntry { .. } => Some(
                "What amount would you like to open your account with?"@,
            ),
            SessionView::ActionLoop { awaiting: Awaiting::Action, .. } => Some(
                "Please enter a valid action:\n"@ + listing(
                    BankAction::catalog_spec(),
                    seq!['\n'],
                ),
            ),
            SessionView::ActionLoop { awaiting: Awaiting::WithdrawAmount, .. } => Some(
                "What would you like to withdraw?"@,
            ),
            SessionView::ActionLoop { awaiting: Awaiting::DepositAmount, .. } => Some(
                "What would you like to deposit?"@,
            ),
            SessionView::Exited { .. } => None,
        }
    }

    /// The actions that the answer must name: the whole catalog where an
    /// action is asked for, none where any text will do.
    pub open spec fn bounds(self) -> Seq<BankAction> {
        match self {
            SessionView::ActionLoop { awaiting: Awaiting::Action, .. } => BankAction::catalog_spec(),
            _ => Seq::empty(),
        }
    }

    /// The state after an answer, and the lines to show for it.
    ///
    /// An answer that was refused is reported in its own words. It keeps
    /// the state, except that a refused amount leads back to the choice
    /// of an action. A name is taken as it is. A balance or an amount
    /// must be a numeral, or it is reported as unreadable; an amount is
    /// asked for once only, and one that the rules do not allow changes
    /// nothing and is not reported. An action is echoed, then done.
    pub open spec fn step(self, input: Result<Seq<char>, BankErrorView>) -> (
        SessionView,
        Seq<Seq<char>>,
    ) {
        match self {
            SessionView::NameEntry => match input {
                Ok(text) => (SessionView::InitialBalanceEntry { name: text }, Seq::empty()),
                Err(e) => (self, seq![e.message()]),
            },
            SessionView::InitialBalanceEntry { name } => match input {
                Ok(text) => match numeral(text) {
                    Some(balance) => (
                        SessionView::ActionLoop {
                            customer: CustomerView { name, balance },
                            awaiting: Awaiting::Action,
                        },
                        Seq::empty(),
                    ),
                    None => (self, seq![parse_failure(text)]),
                },
                Err(e) => (self, seq![e.message()]),
            },
            SessionView::ActionLoop { customer, awaiting: Awaiting::Action } => match input {
                Ok(text) => {
                    let echo = "You wrote: "@ + text;
                    match BankAction::parse_spec(text) {
                        Some(BankAction::ReadCurrentBalance) => (self, seq![echo, customer.text()]),
                        Some(BankAction::Withdraw) => (
                            SessionView::ActionLoop {
                                customer,
                                awaiting: Awaiting::WithdrawAmount,
                            },
                            seq![echo],
                        ),
                        Some(BankAction::Deposit) => (
                            SessionView::ActionLoop { customer, awaiting: Awaiting::DepositAmount },
                            seq![echo],
                        ),
                        Some(BankAction::Exit) => (SessionView::Exited { customer }, seq![echo]),
                        None => (self, seq![echo, parse_failure(text)]),
                    }
                },
                Err(e) => (self, seq![e.message()]),
            },
            SessionView::ActionLoop { customer, awaiting } => {
                let back = SessionView::ActionLoop { customer, awaiting: Awaiting::Action };
                match input {
                    Ok(text) => match numeral(text) {
                        Some(amount) => {
                            let balance = if awaiting == Awaiting::WithdrawAmount {
                                after_withdrawal(customer.balance, amount)
                            } else {
                                after_deposit(customer.balance, amount)
                            };
                            (
                                SessionView::ActionLoop {
                                    customer: CustomerView { name: customer.name, balance },
                                    awaiting: Awaiting::Action,
                                },
                                Seq::empty(),
                            )
                        },
                        None => (back, seq![parse_failure(text)]),
                    },
                    Err(e) => (back, seq![e.message()]),
                }
            },
            SessionView::Exited { .. } => (self, Seq::empty()),
        }
    }

    /// The state reached from this one over the console reads of
    /// `script`, and everything shown on the way. Each read is answered
    /// as `accept_spec` judges it against the bounds of the state then
    /// current; before each read stands the prompt of that state. Reads
    /// after the end of the session are ignored.
    pub open spec fn run(self, script: Seq<Result<Seq<char>, Seq<char>>>) -> (
        SessionView,
        Seq<Seq<char>>,
    )
        decreases script.len(),
    {
        if script.len() == 0 || self is Exited {
            (self, Seq::empty())
        } else {
            let (next, shown) = self.step(accept_spec(script[0], self.bounds()));
            let (last, rest) = next.run(script.drop_first());
            (last, seq![self.prompt()->0] + shown + rest)
        }
    }
}

/// The texts of `lines`, one for one.
pub open spec fn texts(lines: Seq<String>) -> Seq<Seq<char>> {
    lines.map_values(|line: String| line@)
}

/// The console reads of `script` as mathematical values, one for one.
pub open spec fn reads(script: Seq<Result<String, IoError>>) -> Seq<Result<Seq<char>, Seq<char>>> {
    script.map_values(|read: Result<String, IoError>| read_view(read))
}

/// A session only moves forward, one stage at a time, and stays over once
/// it is over, showing nothing more. A name, once entered, is kept. The
/// balance changes only where an amount was asked for and a numeral was
/// given; a refused input changes neither the stage nor the balance, and
/// is reported in one line, its own words.
pub proof fn lemma_step_keeps_order(s: SessionView, input: Result<Seq<char>, BankErrorView>)
    ensures
        ({
            let (next, shown) = s.step(input);
            &&& s.stage() <= next.stage() <= s.stage() + 1
            &&& s is Exited ==> next == s && shown.len() == 0
            &&& s.name() is Some ==> next.name() == s.name()
            &&& s.balance() is Some && next.balance() != s.balance() ==> {
                &&& s matches SessionView::ActionLoop { awaiting, .. } && awaiting
                    != Awaiting::Action
                &&& input matches Ok(text) && numeral(text) is Some
            }
            &&& input matches Err(e) ==> s is Exited || {
                &&& next.stage() == s.stage()
                &&& next.balance() == s.balance()
                &&& shown == seq![e.message()]
            }
        }),
{
}

/// A deposit of at least the minimum raises the balance by exactly the
/// amount entered, and a smaller one leaves the balance as it was.
pub proof fn lemma_deposit(customer: CustomerView, text: Seq<char>, amount: DecimalView)
    requires
        numeral(text) == Some(amount),
    ensures
        ({
            let before = SessionView::ActionLoop { customer, awaiting: Awaiting::DepositAmount };
            let after = before.step(Ok(text)).0;
            &&& after is ActionLoop
            &&& after->ActionLoop_customer.name == customer.name
            &&& minimum_deposit_spec().le(amount) ==> {
                &&& after->ActionLoop_customer.balance == customer.balance.plus(amount)
                &&& after->ActionLoop_customer.balance.minus(customer.balance).same_value(amount)
            }
            &&& !minimum_deposit_spec().le(amount) ==> after->ActionLoop_customer.balance
                == customer.balance
        }),
{
    lemma_plus_then_minus(customer.balance, amount);
}

/// A withdrawal that the balance covers lowers the balance by exactly the
/// amount entered, and a larger one leaves the balance as it was.
pub proof fn lemma_withdraw(customer: CustomerView, text: Seq<char>, amount: DecimalView)
    requires
        numeral(text) == Some(amount),
    ensures
        ({
            let before = SessionView::ActionLoop { customer, awaiting: Awaiting::WithdrawAmount };
            let after = before.step(Ok(text)).0;
            &&& after is ActionLoop
            &&& after->ActionLoop_customer.name == customer.name
            &&& amount.le(customer.balance) ==> {
                &&& after->ActionLoop_customer.balance == customer.balance.minus(amount)
                &&& customer.balance.minus(after->ActionLoop_customer.balance).same_value(amount)
            }
            &&& !amount.le(customer.balance) ==> after->ActionLoop_customer.balance
                == customer.balance
        }),
{
    lemma_minus_then_minus(customer.balance, amount);
}

/// The smallest amount that a deposit may have: 0.01.
pub fn minimum_deposit() -> (r: Decimal)
    ensures
        r@ == minimum_deposit_spec(),
{
    Decimal::new(1, 2)
}

/// The one line that reports `e`.
fn report(e: &BankError) -> (r: Vec<String>)
    ensures
        texts(r@) == seq![e@.message()],
{
    let mut lines: Vec<String> = Vec::new();
    lines.push(e.message());
    assert(texts(lines@) =~= seq![e@.message()]);
    lines
}

/// The one line that reports `text` as unreadable.
fn report_unreadable(text: String) -> (r: Vec<String>)
    ensures
        texts(r@) == seq![parse_failure(text@)],
{
    let e: BankError = BankError::Parse { raw: text };
    report(&e)
}

/// No lines.
fn nothing() -> (r: Vec<String>)
    ensures
        texts(r@) == Seq::<Seq<char>>::empty(),
{
    let lines: Vec<String> = Vec::new();
    assert(texts(lines@) =~= Seq::<Seq<char>>::empty());
    lines
}

impl Session {
    /// A session at its start.
    pub fn new() -> (r: Session)
        ensures
            r@ == SessionView::NameEntry,
    {
        Session::NameEntry
    }

    /// Whether the session is over.
    pub fn is_exited(&self) -> (r: bool)
        ensures
            r == (self@ is Exited),
    {
        match self {
            Session::Exited { .. } => true,
            _ => false,
        }
    }

    /// The customer, once there is one.
    pub fn customer(&self) -> (r: Option<&BankCustomer>)
        ensures
            match r {
                Some(c) => (self@ matches SessionView::ActionLoop { customer, .. } && c@ == customer)
                    || (self@ matches SessionView::Exited { customer } && c@ == customer),
                None => self@ is NameEntry || self@ is InitialBalanceEntry,
            },
    {
        match self {
            Session::ActionLoop { customer, .. } => Some(customer),
            Session::Exited { customer } => Some(customer),
            _ => None,
        }
    }

    /// The question to put to the user now; none once the session is
    /// over.
    pub fn prompt(&self) -> (r: Option<String>)
        ensures
            match r {
                Some(text) => self@.prompt() == Some(text@),
                None => self@.prompt() is None,
            },
    {
        match self {
            Session::NameEntry => Some(String::from_str("Enter your name!")),
            Session::InitialBalanceEntry { .. } => Some(
                String::from_str("What amount would you like to open your account with?"),
            ),
            Session::ActionLoop { awaiting, .. } => match awaiting {
                Awaiting::Action => {
                    let mut out: String = String::from_str("Please enter a valid action:\n");
                    proof {
                        reveal_strlit("\n");
                        assert("\n"@ =~= seq!['\n']);
                    }
                    let list: String = list_input_bounds(&BankAction::catalog(), "\n");
                    out.append(list.as_str());
                    Some(out)
                },
                Awaiting::WithdrawAmount => Some(
                    String::from_str("What would you like to withdraw?"),
                ),
                Awaiting::DepositAmount => Some(String::from_str("What would you like to deposit?")),
            },
            Session::Exited { .. } => None,
        }
    }

    /// The actions that the next answer must name; none where any text
    /// will do.
    pub fn bounds(&self) -> (r: Vec<BankAction>)
        ensures
            r@ == self@.bounds(),
    {
        match self {
            Session::ActionLoop { awaiting: Awaiting::Action, .. } => BankAction::catalog(),
            _ => Vec::new(),
        }
    }

    /// Takes an answer: gives the next state and the lines to show.
    pub fn step(self, input: Result<String, BankError>) -> (r: (Session, Vec<String>))
        ensures
            (r.0@, texts(r.1@)) == self@.step(input_view(input)),
    {
        match self {
            Session::NameEntry => match input {
                Ok(text) => (Session::InitialBalanceEntry { name: text }, nothing()),
                Err(e) => (Session::NameEntry, report(&e)),
            },
            Session::InitialBalanceEntry { name } => match input {
                Ok(text) => match Decimal::parse(text.as_str()) {
                    Some(balance) => {
                        let customer: BankCustomer = BankCustomer::new(
                            name,
                            BankAccount::new(balance),
                        );
                        (Session::ActionLoop { customer, awaiting: Awaiting::Action }, nothing())
                    },
                    None => (Session::InitialBalanceEntry { name }, report_unreadable(text)),
                },
                Err(e) => (Session::InitialBalanceEntry { name }, report(&e)),
            },
            Session::ActionLoop { customer, awaiting: Awaiting::Action } => match input {
                Ok(text) => {
                    let mut lines: Vec<String> = Vec::new();
                    let echo: String = String::from_str("You wrote: ").concat(text.as_str());
                    lines.push(echo);
                    match BankAction::parse(text.as_str()) {
                        Ok(BankAction::ReadCurrentBalance) => {
                            lines.push(customer.render());
                            assert(texts(lines@) =~= seq![echo@, customer@.text()]);
                            (Session::ActionLoop { customer, awaiting: Awaiting::Action }, lines)
                        },
                        Ok(BankAction::Withdraw) => {
                            assert(texts(lines@) =~= seq![echo@]);
                            (
                                Session::ActionLoop { customer, awaiting: Awaiting::WithdrawAmount },
                                lines,
                            )
                        },
                        Ok(BankAction::Deposit) => {
                            assert(texts(lines@) =~= seq![echo@]);
                            (
                                Session::ActionLoop { customer, awaiting: Awaiting::DepositAmount },
                                lines,
                            )
                        },
                        Ok(BankAction::Exit) => {
                            assert(texts(lines@) =~= seq![echo@]);
                            (Session::Exited { customer }, lines)
                        },
                        Err(e) => {
                            lines.push(e.message());
                            assert(texts(lines@) =~= seq![echo@, parse_failure(text@)]);
                            (Session::ActionLoop { customer, awaiting: Awaiting::Action }, lines)
                        },
                    }
                },
                Err(e) => (
                    Session::ActionLoop { customer, awaiting: Awaiting::Action },
                    report(&e),
                ),
            },
            Session::ActionLoop { customer, awaiting } => {
                let mut customer: BankCustomer = customer;
                match input {
                    Ok(text) => match Decimal::parse(text.as_str()) {
                        Some(amount) => {
                            match awaiting {
                                Awaiting::WithdrawAmount => {
                                    if amount.le(customer.bank_account.balance()) {
                                        customer.bank_account.withdraw(amount);
                                    }
                                },
                                _ => {
                                    if minimum_deposit().le(&amount) {
                                        customer.bank_account.deposit(amount);
                                    }
                                },
                            }
                            (
                                Session::ActionLoop { customer, awaiting: Awaiting::Action },
                                nothing(),
                            )
                        },
                        None => (
                            Session::ActionLoop { customer, awaiting: Awaiting::Action },
                            report_unreadable(text),
                        ),
                    },
                    Err(e) => (
                        Session::ActionLoop { customer, awaiting: Awaiting::Action },
                        report(&e),
                    ),
                }
            },
            Session::Exited { customer } => (Session::Exited { customer }, nothing()),
        }
    }
}

/// A copy of a console read.
fn copy_read(read: &Result<String, IoError>) -> (r: Result<String, IoError>)
    ensures
        read_view(r) == read_view(*read),
{
    match read {
        Ok(line) => Ok(line.clone()),
        Err(fault) => Err(fault.clone()),
    }
}

/// Runs a session from its start over the console reads of `script`, a
/// line or a fault each: gives the state reached and everything shown, in
/// order. It ends with the session or with the script, whichever ends
/// first.
pub fn app(script: &Vec<Result<String, IoError>>) -> (r: (Session, Vec<String>))
    ensures
        (r.0@, texts(r.1@)) == SessionView::NameEntry.run(reads(script@)),
{
    let mut session: Session = Session::new();
    let mut shown: Vec<String> = Vec::new();
    let n: usize = script.len();
    let mut i: usize = 0;
    let ghost all = reads(script@);
    proof {
        assert(all.skip(0) =~= all);
        assert(texts(shown@) + session@.run(all).1 =~= session@.run(all).1);
    }
    while i < n && !session.is_exited()
        invariant
            n == script.len(),
            i <= n,
            all == reads(script@),
            SessionView::NameEntry.run(all).0 == session@.run(all.skip(i as int)).0,
            SessionView::NameEntry.run(all).1 == texts(shown@) + session@.run(all.skip(i as int)).1,
        decreases n - i,
    {
        let ghost before = session@;
        let ghost rest = all.skip(i as int);
        let ghost shown_before = texts(shown@);
        let bounds: Vec<BankAction> = session.bounds();
        let prompt: Option<String> = session.prompt();
        let input: Result<String, BankError> = accept_input(copy_read(&script[i]), &bounds);
        let (next, mut lines) = session.step(input);
        let ghost step_lines = texts(lines@);
        match prompt {
            Some(text) => {
                shown.push(text);
            },
            None => {},
        }
        shown.append(&mut lines);
        session = next;
        proof {
            assert(rest[0] == read_view(script[i as int]));
            assert(rest.drop_first() =~= all.skip(i + 1));
            assert(texts(shown@) =~= shown_before + seq![before.prompt()->0] + step_lines);
            let tail = session@.run(all.skip(i + 1)).1;
            assert(before.run(rest).1 == seq![before.prompt()->0] + step_lines + tail);
            assert(shown_before + (seq![before.prompt()->0] + step_lines + tail) =~= shown_before
                + seq![before.prompt()->0] + step_lines + tail);
        }
        i += 1;
    }
    proof {
        assert(texts(shown@) + Seq::<Seq<char>>::empty() =~= texts(shown@));
    }
    (session, shown)
}

} // verus!
