use banking::decimal::Decimal;
use banking::domain::BankAction;
use banking::error::{BankError, IoError};
use banking::input::accept_input;
use banking::session::{app, minimum_deposit, Awaiting, Session};

const MENU: &str =
    "Please enter a valid action:\nD - Deposit\nW - Withdraw\nR - Read Current Balance\nX - Exit";

fn lines(texts: &[&str]) -> Vec<Result<String, IoError>> {
    texts.iter().map(|t| Ok(String::from(*t))).collect()
}

fn balance_of(session: &Session) -> String {
    session.customer().expect("a customer").bank_account.balance().text()
}

/// A session serving Alice with the given balance, at the choice of an
/// action.
fn serving(balance: &str) -> Session {
    let (session, _) = app(&lines(&["Alice", balance]));
    assert!(matches!(session, Session::ActionLoop { awaiting: Awaiting::Action, .. }));
    session
}

fn answer(session: Session, text: &str) -> (Session, Vec<String>) {
    let input = accept_input(Ok(String::from(text)), &session.bounds());
    session.step(input)
}

#[test]
fn end_to_end() {
    let (session, shown) = app(&lines(&["Alice", "100", "D", "50"]));
    assert_eq!(balance_of(&session), "150");
    assert!(!session.is_exited());

    let (session, shown_after_read) = answer(session, "R");
    assert_eq!(shown_after_read.len(), 2);
    assert!(shown_after_read[1].contains("Alice"));
    assert!(shown_after_read[1].contains("150"));
    assert_eq!(shown_after_read[1], "Alice\n150");
    assert_eq!(balance_of(&session), "150");

    let (session, _) = answer(session, "W");
    let (session, quiet) = answer(session, "200");
    assert!(quiet.is_empty());
    assert_eq!(balance_of(&session), "150");

    let (session, _) = answer(session, "X");
    assert!(session.is_exited());
    assert!(session.prompt().is_none());
    assert_eq!(balance_of(&session), "150");
    assert_eq!(shown[0], "Enter your name!");
}

#[test]
fn end_to_end_transcript() {
    let script = lines(&["Alice", "100", "D", "50", "R", "W", "200", "X", "D", "1"]);
    let (session, shown) = app(&script);
    assert!(session.is_exited());
    assert_eq!(balance_of(&session), "150");
    assert_eq!(
        shown,
        vec![
            "Enter your name!",
            "What amount would you like to open your account with?",
            MENU,
            "You wrote: D",
            "What would you like to deposit?",
            MENU,
            "You wrote: R",
            "Alice\n150",
            MENU,
            "You wrote: W",
            "What would you like to withdraw?",
            MENU,
            "You wrote: X",
        ]
    );
}

#[test]
fn a_new_session_asks_for_the_name() {
    let session = Session::new();
    assert!(matches!(session, Session::NameEntry));
    assert_eq!(session.prompt().unwrap(), "Enter your name!");
    assert!(session.bounds().is_empty());
    assert!(session.customer().is_none());
    assert!(!session.is_exited());
}

#[test]
fn an_empty_script_shows_nothing() {
    let (session, shown) = app(&vec![]);
    assert!(matches!(session, Session::NameEntry));
    assert!(shown.is_empty());
}

#[test]
fn name_entry_is_retried_on_refusal() {
    let script = vec![
        Ok(String::from("   ")),
        Err(IoError::new("Could not read console input.")),
        Ok(String::from(" Bob ")),
    ];
    let (session, shown) = app(&script);
    match &session {
        Session::InitialBalanceEntry { name } => assert_eq!(name, "Bob"),
        other => panic!("{:?}", other),
    }
    assert_eq!(
        shown,
        vec![
            "Enter your name!",
            "Empty input!",
            "Enter your name!",
            "Could not read console input.",
            "Enter your name!",
        ]
    );
    assert_eq!(
        session.prompt().unwrap(),
        "What amount would you like to open your account with?"
    );
    assert!(session.bounds().is_empty());
}

#[test]
fn opening_balance_is_retried_until_it_is_a_numeral() {
    let (session, shown) = app(&lines(&["Bob", "lots", "", "1e3", "-20.50"]));
    assert_eq!(balance_of(&session), "-20.5");
    assert_eq!(
        shown,
        vec![
            "Enter your name!",
            "What amount would you like to open your account with?",
            "Could not parse value 'lots'!",
            "What amount would you like to open your account with?",
            "Empty input!",
            "What amount would you like to open your account with?",
            "Could not parse value '1e3'!",
            "What amount would you like to open your account with?",
        ]
    );
    assert_eq!(session.prompt().unwrap(), MENU);
    assert_eq!(session.bounds(), BankAction::catalog());
}

#[test]
fn deposit_of_at_least_the_minimum_is_added_exactly() {
    for (before, amount, after) in [
        ("100", "50", "150"),
        ("100", "0.01", "100.01"),
        ("100", "0.010", "100.01"),
        ("0", "0.015", "0.015"),
        ("-5", "5", "0"),
        ("0.1", "0.2", "0.3"),
        ("16777216", "1", "16777217"),
    ] {
        let (session, shown) = answer(serving(before), "d");
        assert_eq!(shown, vec!["You wrote: d"]);
        assert!(matches!(session, Session::ActionLoop { awaiting: Awaiting::DepositAmount, .. }));
        assert_eq!(session.prompt().unwrap(), "What would you like to deposit?");
        assert!(session.bounds().is_empty());
        let (session, shown) = answer(session, amount);
        assert!(shown.is_empty());
        assert!(matches!(session, Session::ActionLoop { awaiting: Awaiting::Action, .. }));
        assert_eq!(balance_of(&session), after);
    }
}

#[test]
fn deposit_below_the_minimum_is_dropped_in_silence() {
    for amount in ["0.009", "0", "-1", "0.00999999999999999999", "-0.01"] {
        let (session, _) = answer(serving("100"), "D");
        let (session, shown) = answer(session, amount);
        assert!(shown.is_empty());
        assert!(matches!(session, Session::ActionLoop { awaiting: Awaiting::Action, .. }));
        assert_eq!(balance_of(&session), "100");
    }
}

#[test]
fn withdrawal_within_the_balance_is_taken_exactly() {
    for (before, amount, after) in [
        ("150", "50", "100"),
        ("150", "150", "0"),
        ("150", "0.01", "149.99"),
        ("150", "0", "150"),
        ("150", "-50", "200"),
        ("-10", "-20", "10"),
        ("0.3", "0.1", "0.2"),
    ] {
        let (session, shown) = answer(serving(before), "W");
        assert_eq!(shown, vec!["You wrote: W"]);
        assert!(matches!(session, Session::ActionLoop { awaiting: Awaiting::WithdrawAmount, .. }));
        assert_eq!(session.prompt().unwrap(), "What would you like to withdraw?");
        let (session, shown) = answer(session, amount);
        assert!(shown.is_empty());
        assert!(matches!(session, Session::ActionLoop { awaiting: Awaiting::Action, .. }));
        assert_eq!(balance_of(&session), after);
    }
}

#[test]
fn withdrawal_beyond_the_balance_is_dropped_in_silence() {
    for (before, amount) in [("150", "200"), ("150", "150.01"), ("0", "0.001"), ("-10", "-9")] {
        let (session, _) = answer(serving(before), "w");
        let (session, shown) = answer(session, amount);
        assert!(shown.is_empty());
        assert!(matches!(session, Session::ActionLoop { awaiting: Awaiting::Action, .. }));
        assert!(session
            .customer()
            .unwrap()
            .bank_account
            .balance()
            .equals(&Decimal::parse(before).unwrap()));
    }
}

#[test]
fn an_unreadable_amount_is_reported_and_not_asked_for_again() {
    for code in ["W", "D"] {
        let (session, _) = answer(serving("100"), code);
        let (session, shown) = answer(session, "ten");
        assert_eq!(shown, vec!["Could not parse value 'ten'!"]);
        assert!(matches!(session, Session::ActionLoop { awaiting: Awaiting::Action, .. }));
        assert_eq!(balance_of(&session), "100");

        let (session, _) = answer(session, code);
        let (session, shown) = answer(session, "  ");
        assert_eq!(shown, vec!["Empty input!"]);
        assert!(matches!(session, Session::ActionLoop { awaiting: Awaiting::Action, .. }));

        let (session, _) = answer(session, code);
        let (session, shown) =
            session.step(Err(BankError::IoRead { source: IoError::new("gone") }));
        assert_eq!(shown, vec!["gone"]);
        assert!(matches!(session, Session::ActionLoop { awaiting: Awaiting::Action, .. }));
        assert_eq!(balance_of(&session), "100");
    }
}

#[test]
fn an_action_out_of_bounds_is_reported_and_asked_for_again() {
    let (session, shown) = answer(serving("100"), "Q");
    assert_eq!(
        shown,
        vec!["Not within bounds! They are:\nD - Deposit\nW - Withdraw\nR - Read Current Balance\nX - Exit"]
    );
    assert!(matches!(session, Session::ActionLoop { awaiting: Awaiting::Action, .. }));
    assert_eq!(session.prompt().unwrap(), MENU);
    let (session, shown) = answer(session, "");
    assert_eq!(shown, vec!["Empty input!"]);
    assert!(matches!(session, Session::ActionLoop { awaiting: Awaiting::Action, .. }));
}

#[test]
fn an_unknown_action_that_got_past_the_bounds_is_reported() {
    let (session, shown) = serving("100").step(Ok(String::from("Q")));
    assert_eq!(shown, vec!["You wrote: Q", "Could not parse value 'Q'!"]);
    assert!(matches!(session, Session::ActionLoop { awaiting: Awaiting::Action, .. }));
    assert_eq!(balance_of(&session), "100");
}

#[test]
fn reading_the_balance_changes_nothing() {
    let (session, shown) = answer(serving("12.50"), "r");
    assert_eq!(shown, vec!["You wrote: r", "Alice\n12.5"]);
    assert!(matches!(session, Session::ActionLoop { awaiting: Awaiting::Action, .. }));
    assert_eq!(balance_of(&session), "12.5");
}

#[test]
fn exit_ends_the_session_for_good() {
    let (session, shown) = answer(serving("100"), "x");
    assert_eq!(shown, vec!["You wrote: x"]);
    assert!(session.is_exited());
    assert!(session.bounds().is_empty());
    let (session, shown) = session.step(Ok(String::from("D")));
    assert!(shown.is_empty());
    assert!(session.is_exited());
    assert_eq!(balance_of(&session), "100");
    assert_eq!(session.customer().unwrap().name, "Alice");
}

#[test]
fn minimum_deposit_is_one_hundredth() {
    assert_eq!(minimum_deposit().text(), "0.01");
}
