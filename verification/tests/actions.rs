use banking::domain::{BankAccount, BankAction, BankCustomer};
use banking::decimal::Decimal;
use banking::error::BankError;

fn dec(text: &str) -> Decimal {
    Decimal::parse(text).expect("a numeral")
}

#[test]
fn each_code_parses_in_upper_and_lower_case() {
    assert_eq!(BankAction::parse("D").unwrap(), BankAction::Deposit);
    assert_eq!(BankAction::parse("d").unwrap(), BankAction::Deposit);
    assert_eq!(BankAction::parse("W").unwrap(), BankAction::Withdraw);
    assert_eq!(BankAction::parse("w").unwrap(), BankAction::Withdraw);
    assert_eq!(BankAction::parse("R").unwrap(), BankAction::ReadCurrentBalance);
    assert_eq!(BankAction::parse("r").unwrap(), BankAction::ReadCurrentBalance);
    assert_eq!(BankAction::parse("X").unwrap(), BankAction::Exit);
    assert_eq!(BankAction::parse("x").unwrap(), BankAction::Exit);
}

#[test]
fn parse_trims_the_text() {
    assert_eq!(BankAction::parse("  d\n").unwrap(), BankAction::Deposit);
    assert_eq!(BankAction::parse("\tX ").unwrap(), BankAction::Exit);
}

#[test]
fn parse_refuses_other_text_with_the_text_as_given() {
    for raw in ["", " ", "Q", "DD", "Deposit", "D W", "1", "ｄ", " q ", "Đ"] {
        match BankAction::parse(raw) {
            Err(BankError::Parse { raw: kept }) => assert_eq!(kept, raw),
            other => panic!("{:?} gave {:?}", raw, other),
        }
    }
}

#[test]
fn parse_failure_message_quotes_the_text() {
    let e = BankAction::parse(" q ").unwrap_err();
    assert_eq!(e.message(), "Could not parse value ' q '!");
}

#[test]
fn codes_and_commands() {
    assert_eq!(BankAction::Deposit.code(), 'D');
    assert_eq!(BankAction::Withdraw.code(), 'W');
    assert_eq!(BankAction::ReadCurrentBalance.code(), 'R');
    assert_eq!(BankAction::Exit.code(), 'X');
    assert_eq!(BankAction::Deposit.command(), "Deposit");
    assert_eq!(BankAction::Withdraw.command(), "Withdraw");
    assert_eq!(BankAction::ReadCurrentBalance.command(), "Read Current Balance");
    assert_eq!(BankAction::Exit.command(), "Exit");
}

#[test]
fn render_is_code_dash_command() {
    assert_eq!(BankAction::Deposit.render(), "D - Deposit");
    assert_eq!(BankAction::Withdraw.render(), "W - Withdraw");
    assert_eq!(BankAction::ReadCurrentBalance.render(), "R - Read Current Balance");
    assert_eq!(BankAction::Exit.render(), "X - Exit");
}

#[test]
fn catalog_order() {
    assert_eq!(
        BankAction::catalog(),
        vec![
            BankAction::Deposit,
            BankAction::Withdraw,
            BankAction::ReadCurrentBalance,
            BankAction::Exit
        ]
    );
}

#[test]
fn has_code_follows_parse_in_both_cases() {
    for action in BankAction::catalog() {
        for text in ["D", "d", "W", "w", "R", "r", "X", "x", " d ", "Q", "", "dd"] {
            let parsed = BankAction::parse(text).ok();
            assert_eq!(action.has_code(text), parsed == Some(action), "{:?} {:?}", action, text);
        }
    }
    assert!(BankAction::Deposit.has_code("d"));
    assert!(BankAction::Deposit.has_code("D"));
    assert!(!BankAction::Deposit.has_code("w"));
}

#[test]
fn account_arithmetic_is_unchecked() {
    let mut account = BankAccount::new(dec("100"));
    assert_eq!(account.balance().text(), "100");
    account.deposit(dec("50"));
    assert_eq!(account.balance().text(), "150");
    account.withdraw(dec("200"));
    assert_eq!(account.balance().text(), "-50");
    account.deposit(dec("-0.5"));
    assert_eq!(account.balance().text(), "-50.5");
    account.withdraw(dec("-50.5"));
    assert_eq!(account.balance().text(), "0");
}

#[test]
fn account_may_start_below_zero() {
    let account = BankAccount::new(dec("-12.5"));
    assert_eq!(account.balance().text(), "-12.5");
}

#[test]
fn customer_renders_name_then_balance() {
    let customer = BankCustomer::new(String::from("Alice"), BankAccount::new(dec("150")));
    assert_eq!(customer.render(), "Alice\n150");
    assert_eq!(customer.name, "Alice");
    assert_eq!(customer.bank_account.balance().text(), "150");
    let other = BankCustomer::new(String::from("Bob Ross"), BankAccount::new(dec("-0.50")));
    assert_eq!(other.render(), "Bob Ross\n-0.5");
}

#[test]
fn try_from_reads_as_parse_does() {
    assert_eq!(BankAction::try_from(&String::from("w")).unwrap(), BankAction::Withdraw);
    assert_eq!(BankAction::try_from(&String::from(" X ")).unwrap(), BankAction::Exit);
    match BankAction::try_from(&String::from("exit")) {
        Err(BankError::Parse { raw }) => assert_eq!(raw, "exit"),
        other => panic!("{:?}", other),
    }
}

#[test]
fn an_action_equals_the_texts_that_name_it() {
    assert!(BankAction::Deposit == String::from("D"));
    assert!(BankAction::Deposit == String::from("d"));
    assert!(BankAction::Deposit != String::from("W"));
    assert!(BankAction::Exit != String::from(""));
    let input = String::from("r");
    assert!(BankAction::catalog().iter().any(|b| b == &input));
    let other = String::from("q");
    assert!(!BankAction::catalog().iter().any(|b| b == &other));
}
