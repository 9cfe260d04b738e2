use multicast::bank::TransactionType;
use multicast::cli::{parse_usize, tokenize, Cli};

#[test]
fn tokenize_splits_on_ascii_whitespace() {
    let toks = tokenize("  DEPOSIT\talice \r\n 100 ");
    assert_eq!(toks, vec!["DEPOSIT", "alice", "100"]);
    assert_eq!(tokenize(""), Vec::<String>::new());
    assert_eq!(tokenize("   \t "), Vec::<String>::new());
    assert_eq!(tokenize("one"), vec!["one"]);
}

#[test]
fn parse_usize_accepts_digit_runs() {
    assert_eq!(parse_usize("0"), Some(0));
    assert_eq!(parse_usize("100"), Some(100));
    assert_eq!(parse_usize("18446744073709551615"), Some(usize::MAX));
}

#[test]
fn parse_usize_rejects_everything_else() {
    assert_eq!(parse_usize(""), None);
    assert_eq!(parse_usize("12a"), None);
    assert_eq!(parse_usize("-3"), None);
    assert_eq!(parse_usize(" 1"), None);
    // one past the machine limit
    assert_eq!(parse_usize("18446744073709551616"), None);
}

#[test]
fn parse_input_deposit_line() {
    let mut cli = Cli::new(3);
    let tx = cli.parse_input("DEPOSIT alice 100").expect("well-formed deposit");
    assert_eq!(tx.node_id, 3);
    assert_eq!(tx.id, 1);
    match tx.tr {
        TransactionType::Deposit(account, amount) => {
            assert_eq!(account, "alice");
            assert_eq!(amount, 100);
        },
        _ => panic!("expected a deposit"),
    }
}

#[test]
fn parse_input_transfer_line() {
    let mut cli = Cli::new(0);
    let tx = cli.parse_input(" TRANSFER alice -> bob 40 ").expect("well-formed transfer");
    assert_eq!(tx.id, 1);
    match tx.tr {
        TransactionType::Transfer(from, to, amount) => {
            assert_eq!(from, "alice");
            assert_eq!(to, "bob");
            assert_eq!(amount, 40);
        },
        _ => panic!("expected a transfer"),
    }
}

#[test]
fn parse_input_rejects_malformed_lines() {
    let mut cli = Cli::new(0);
    assert!(cli.parse_input("").is_none());
    assert!(cli.parse_input("DEPOSIT alice").is_none());
    assert!(cli.parse_input("DEPOSIT alice ten").is_none());
    assert!(cli.parse_input("DEPOSIT alice 10 extra").is_none());
    assert!(cli.parse_input("TRANSFER alice bob 40").is_none());
    assert!(cli.parse_input("TRANSFER alice -> bob ten").is_none());
    assert!(cli.parse_input("WITHDRAW alice 10").is_none());
    // failed lines do not use up transaction numbers
    let tx = cli.parse_input("DEPOSIT a 1").unwrap();
    assert_eq!(tx.id, 1);
}

#[test]
fn transaction_numbers_increase() {
    let mut cli = Cli::new(0);
    let t1 = cli.parse_input("DEPOSIT a 1").unwrap();
    let t2 = cli.parse_input("DEPOSIT a 2").unwrap();
    assert_eq!(t1.id, 1);
    assert_eq!(t2.id, 2);
}
