use ledger::Accounts;
use ledger::ParseError;
use ledger::process;

fn run(input: &str) -> (Accounts, Result<(), ParseError>) {
    let mut accounts = Accounts::new();
    let r = process(&mut accounts, input.as_bytes());
    (accounts, r)
}

fn report(accounts: &Accounts) -> String {
    String::from_utf8(accounts.export()).expect("Not UTF-8")
}

#[test]
fn parse_all_transaction_types() {
    let csv = "type,client , tx,amount\ndeposit,1,1, 10.0 \nwithdrawal,1,2,0.5\ndispute,1,1,\nresolve,1,1,\ndispute,1,1,\nchargeback,1,1,\n";

    let mut accounts = Accounts::new();
    let _ = process(&mut accounts, csv.as_bytes());

    let output = accounts.export();
    let output = String::from_utf8(output).expect("Not UTF-8");
    let expected = "client,available,held,total,locked\n1,-0.5,0,-0.5,true\n";
    assert_eq!(expected, output);
}

#[test]
fn empty_input_is_ok() {
    let (accounts, r) = run("");
    assert_eq!(r, Ok(()));
    assert_eq!(report(&accounts), "client,available,held,total,locked\n");
}

#[test]
fn header_only_is_ok() {
    let (accounts, r) = run("type,client,tx,amount\n");
    assert_eq!(r, Ok(()));
    assert_eq!(report(&accounts), "client,available,held,total,locked\n");
}

#[test]
fn bad_header_is_rejected() {
    let (_, r) = run("kind,client,tx,amount\ndeposit,1,1,1.0\n");
    assert_eq!(r, Err(ParseError::BadHeader));
}

#[test]
fn wrong_field_count_is_rejected() {
    let (_, r) = run("type,client,tx,amount\ndeposit,1,1\n");
    assert_eq!(r, Err(ParseError::MissingField));
    let (_, r) = run("type,client,tx,amount\ndeposit,1,1,1.0,extra\n");
    assert_eq!(r, Err(ParseError::MissingField));
}

#[test]
fn unknown_type_is_rejected() {
    let (_, r) = run("type,client,tx,amount\npayout,1,1,1.0\n");
    assert_eq!(r, Err(ParseError::UnknownType));
}

#[test]
fn bad_client_is_rejected() {
    let (_, r) = run("type,client,tx,amount\ndeposit,70000,1,1.0\n");
    assert_eq!(r, Err(ParseError::BadClient));
    let (_, r) = run("type,client,tx,amount\ndeposit,,1,1.0\n");
    assert_eq!(r, Err(ParseError::BadClient));
}

#[test]
fn bad_tx_id_is_rejected() {
    let (_, r) = run("type,client,tx,amount\ndeposit,1,abc,1.0\n");
    assert_eq!(r, Err(ParseError::BadTxId));
    let (_, r) = run("type,client,tx,amount\ndeposit,1,4294967296,1.0\n");
    assert_eq!(r, Err(ParseError::BadTxId));
}

#[test]
fn bad_amount_is_rejected() {
    let (_, r) = run("type,client,tx,amount\ndeposit,1,1,1.2.3\n");
    assert_eq!(r, Err(ParseError::BadAmount));
    let (_, r) = run("type,client,tx,amount\ndeposit,1,1,1.23456\n");
    assert_eq!(r, Err(ParseError::BadAmount));
    let (_, r) = run("type,client,tx,amount\ndeposit,1,1,ten\n");
    assert_eq!(r, Err(ParseError::BadAmount));
    let (_, r) = run("type,client,tx,amount\ndeposit,1,1,1.\n");
    assert_eq!(r, Err(ParseError::BadAmount));
}

#[test]
fn four_fraction_digits_are_kept() {
    let (accounts, r) = run("type,client,tx,amount\ndeposit,1,1,1.2345\n");
    assert_eq!(r, Ok(()));
    assert_eq!(
        report(&accounts),
        "client,available,held,total,locked\n1,1.2345,0,1.2345,false\n"
    );
}

#[test]
fn trailing_zeros_are_trimmed() {
    let (accounts, r) = run("type,client,tx,amount\ndeposit,1,1,2.5000\ndeposit,2,2,3.000\n");
    assert_eq!(r, Ok(()));
    assert_eq!(
        report(&accounts),
        "client,available,held,total,locked\n1,2.5,0,2.5,false\n2,3,0,3,false\n"
    );
}

#[test]
fn carriage_returns_are_tolerated() {
    let (accounts, r) = run("type,client,tx,amount\r\ndeposit,1,1,1.0\r\n");
    assert_eq!(r, Ok(()));
    assert_eq!(report(&accounts), "client,available,held,total,locked\n1,1,0,1,false\n");
}

#[test]
fn records_before_a_malformed_line_are_kept() {
    let (accounts, r) = run("type,client,tx,amount\ndeposit,1,1,5.0\nnonsense,1,2,1.0\n");
    assert_eq!(r, Err(ParseError::UnknownType));
    assert_eq!(report(&accounts), "client,available,held,total,locked\n1,5,0,5,false\n");
}

#[test]
fn clients_are_reported_in_first_seen_order() {
    let (accounts, r) = run("type,client,tx,amount\ndeposit,7,1,1.0\ndeposit,3,2,2.0\nwithdrawal,7,3,0.5\n");
    assert_eq!(r, Ok(()));
    assert_eq!(
        report(&accounts),
        "client,available,held,total,locked\n7,0.5,0,0.5,false\n3,2,0,2,false\n"
    );
}

#[test]
fn insufficient_funds_withdrawal_is_ignored() {
    let (accounts, r) = run("type,client,tx,amount\ndeposit,1,1,1.0\nwithdrawal,1,2,2.0\n");
    assert_eq!(r, Ok(()));
    assert_eq!(report(&accounts), "client,available,held,total,locked\n1,1,0,1,false\n");
}

#[test]
fn missing_amount_on_deposit_is_ignored() {
    let (accounts, r) = run("type,client,tx,amount\ndeposit,1,1,\n");
    assert_eq!(r, Ok(()));
    assert_eq!(report(&accounts), "client,available,held,total,locked\n1,0,0,0,false\n");
}

#[test]
fn accounts_enumerates_snapshots() {
    let (accounts, r) = run("type,client,tx,amount\ndeposit,4,1,2.5\ndeposit,9,2,1.0\ndispute,9,2,\n");
    assert_eq!(r, Ok(()));
    let snaps = accounts.accounts();
    assert_eq!(snaps, vec![(4u16, 2_5000i128, 0i128, 2_5000i128, false), (
        9u16,
        0i128,
        1_0000i128,
        1_0000i128,
        false,
    )]);
}

#[test]
fn duplicate_transaction_id_overwrites_history() {
    // duplicate ids are tolerated permissively: a second deposit under an
    // already retained id replaces the retained record, so a dispute of
    // that id freezes the second amount, not the first
    let (accounts, r) = run(
        "type,client,tx,amount\ndeposit,1,1,5.0\ndeposit,1,1,2.0\ndispute,1,1,\n",
    );
    assert_eq!(r, Ok(()));
    assert_eq!(report(&accounts), "client,available,held,total,locked\n1,5,2,7,false\n");
}
