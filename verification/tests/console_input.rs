use banking::domain::BankAction;
use banking::error::{BankError, IoError};
use banking::input::{accept_input, list_input_bounds};
use banking::text::{char_is_space, chars_of, trim, trim_bounds};

fn line(text: &str) -> Result<String, IoError> {
    Ok(String::from(text))
}

#[test]
fn io_error_keeps_its_message() {
    let e = IoError::new("Could not read console input.");
    assert_eq!(e.msg, "Could not read console input.");
    assert_eq!(e.clone().msg, "Could not read console input.");
}

#[test]
fn list_input_bounds_joins_rendered_actions() {
    assert_eq!(
        list_input_bounds(&BankAction::catalog(), "\n"),
        "D - Deposit\nW - Withdraw\nR - Read Current Balance\nX - Exit"
    );
    assert_eq!(
        list_input_bounds(&vec![BankAction::Exit, BankAction::Deposit], ", "),
        "X - Exit, D - Deposit"
    );
    assert_eq!(list_input_bounds(&vec![BankAction::Withdraw], "\n"), "W - Withdraw");
    assert_eq!(list_input_bounds(&vec![], "\n"), "");
    assert_eq!(
        list_input_bounds(&vec![BankAction::Exit, BankAction::Exit], ""),
        "X - ExitX - Exit"
    );
}

#[test]
fn empty_input_is_refused_whatever_the_bounds() {
    for bounds in [vec![], BankAction::catalog(), vec![BankAction::Exit]] {
        for raw in ["", " ", "\n", " \t \r\n", "\u{2003}\u{3000}"] {
            match accept_input(line(raw), &bounds) {
                Err(BankError::EmptyInput) => {}
                other => panic!("{:?} gave {:?}", raw, other),
            }
        }
    }
    assert_eq!(BankError::EmptyInput.message(), "Empty input!");
}

#[test]
fn without_bounds_any_text_is_taken_trimmed() {
    assert_eq!(accept_input(line("  Alice \n"), &vec![]).unwrap(), "Alice");
    assert_eq!(accept_input(line("Mary Ann"), &vec![]).unwrap(), "Mary Ann");
    assert_eq!(accept_input(line("100\n"), &vec![]).unwrap(), "100");
}

#[test]
fn bounded_input_takes_a_code_in_either_case() {
    let bounds = BankAction::catalog();
    assert_eq!(accept_input(line("D\n"), &bounds).unwrap(), "D");
    assert_eq!(accept_input(line("d\n"), &bounds).unwrap(), "d");
    assert_eq!(accept_input(line(" x "), &bounds).unwrap(), "x");
    assert_eq!(accept_input(line("R"), &bounds).unwrap(), "R");
    assert_eq!(accept_input(line("w"), &bounds).unwrap(), "w");
}

#[test]
fn lowercase_is_taken_by_bounds_and_parser_alike() {
    let bounds = BankAction::catalog();
    let taken = accept_input(line("d"), &bounds).unwrap();
    assert_eq!(BankAction::parse(&taken).unwrap(), BankAction::Deposit);
    assert!(BankAction::Deposit.has_code(&taken));
}

#[test]
fn out_of_bounds_lists_every_allowed_action_once_in_order() {
    let bounds = BankAction::catalog();
    match accept_input(line("Q\n"), &bounds) {
        Err(e) => {
            assert_eq!(
                e.message(),
                "Not within bounds! They are:\nD - Deposit\nW - Withdraw\nR - Read Current Balance\nX - Exit"
            );
            match e {
                BankError::OutOfBounds { allowed } => assert_eq!(allowed, bounds),
                other => panic!("{:?}", other),
            }
        }
        other => panic!("{:?}", other),
    }
    let narrow = vec![BankAction::Exit, BankAction::Deposit];
    match accept_input(line("w"), &narrow) {
        Err(BankError::OutOfBounds { allowed }) => assert_eq!(allowed, narrow),
        other => panic!("{:?}", other),
    }
    for raw in ["Deposit", "DD", "D W", "1", "x."] {
        assert!(matches!(
            accept_input(line(raw), &bounds),
            Err(BankError::OutOfBounds { .. })
        ));
    }
}

#[test]
fn a_console_fault_is_passed_on() {
    let fault = || Err(IoError::new("Could not read console input."));
    for bounds in [vec![], BankAction::catalog()] {
        match accept_input(fault(), &bounds) {
            Err(e) => {
                assert_eq!(e.message(), "Could not read console input.");
                assert!(matches!(e, BankError::IoRead { .. }));
            }
            other => panic!("{:?}", other),
        }
    }
}

#[test]
fn trim_cuts_unicode_white_space_at_both_ends() {
    assert_eq!(trim("  a b  "), "a b");
    assert_eq!(trim("\t\n\u{b}\u{c}\r x \u{85}\u{a0}\u{1680}"), "x");
    assert_eq!(trim("\u{2000}\u{200a}\u{2028}\u{2029}\u{202f}\u{205f}\u{3000}é\u{2003}"), "é");
    assert_eq!(trim(""), "");
    assert_eq!(trim("   "), "");
    assert_eq!(trim("abc"), "abc");
    assert_eq!(trim("\u{200b}a"), "\u{200b}a");
    for text in [" a ", "\u{1680}b\u{180e}", "\u{feff}c ", "  ", "d\u{2007}"] {
        assert_eq!(trim(text), text.trim());
    }
}

#[test]
fn char_is_space_agrees_with_std_on_every_char() {
    let mut c = 0u32;
    while c <= 0x10ffff {
        if let Some(ch) = char::from_u32(c) {
            assert_eq!(char_is_space(ch), ch.is_whitespace(), "U+{:04X}", c);
        }
        c += 1;
    }
}

#[test]
fn chars_and_trim_bounds() {
    assert_eq!(chars_of("añ b"), vec!['a', 'ñ', ' ', 'b']);
    assert_eq!(chars_of(""), Vec::<char>::new());
    assert_eq!(trim_bounds(&chars_of("  ab ")), (2, 4));
    assert_eq!(trim_bounds(&chars_of("   ")), (3, 3));
    assert_eq!(trim_bounds(&chars_of("")), (0, 0));
}
