use pyroxene::block::transaction::Transaction;
use pyroxene::client::{
    address_of_id, chain_growth, handle_command, parse_address, parse_u128, split_words, to_hex,
    watch_chain,
    Reply,
};

#[test]
fn addresses_parse() {
    let a = parse_address("0x0102ff").unwrap();
    let mut expected = [0u8; 32];
    expected[0] = 1;
    expected[1] = 2;
    expected[2] = 0xff;
    assert_eq!(a, expected);
    assert_eq!(parse_address("ABcd").unwrap()[..2], [0xab, 0xcd]);
    assert_eq!(parse_address("").unwrap(), [0u8; 32]);
    assert_eq!(parse_address("0x1").unwrap_err(), "Invalid Hex string");
    assert_eq!(parse_address("zz").unwrap_err(), "Invalid Hex string");
    let long = "00".repeat(33);
    assert_eq!(parse_address(&long).unwrap_err(), "Address too long (max 32 bytes)");
    assert!(parse_address(&"ab".repeat(32)).is_ok());
}

#[test]
fn amounts_parse() {
    assert_eq!(parse_u128("0"), Some(0));
    assert_eq!(parse_u128("+42"), Some(42));
    assert_eq!(parse_u128("340282366920938463463374607431768211455"), Some(u128::MAX));
    assert_eq!(parse_u128("340282366920938463463374607431768211456"), None);
    assert_eq!(parse_u128(""), None);
    assert_eq!(parse_u128("+"), None);
    assert_eq!(parse_u128("-1"), None);
    assert_eq!(parse_u128("12a"), None);
    assert_eq!(parse_u128(" 1"), None);
    for s in ["7", "+7", "007", "18446744073709551616", "x", "1 2"] {
        assert_eq!(parse_u128(s), s.parse::<u128>().ok());
    }
}

#[test]
fn words_of_a_line() {
    assert_eq!(split_words("  add 0x01 5 extra\n"), vec!["add", "0x01", "5 extra"]);
    assert_eq!(split_words("chain"), vec!["chain"]);
    assert_eq!(split_words("   "), vec![""]);
    assert_eq!(split_words("a  b"), vec!["a", "", "b"]);
    for line in ["add x y z", "\tmine ", "a b", ""] {
        let expected: Vec<&str> = line.trim().splitn(3, ' ').collect();
        assert_eq!(split_words(line), expected);
    }
}

#[test]
fn commands() {
    let me = address_of_id(7);
    let mut pending: Vec<Transaction> = Vec::new();
    assert!(matches!(handle_command(&mut pending, me, "chain", 1000), Reply::ShowChain));
    assert!(matches!(handle_command(&mut pending, me, "mine", 1000), Reply::NothingToMine));
    assert!(matches!(handle_command(&mut pending, me, "add 0x01", 1000), Reply::AddUsage));
    match handle_command(&mut pending, me, "add zz 5", 1000) {
        Reply::AddressError(e) => assert_eq!(e, "Invalid Hex string"),
        _ => panic!("expected an address error"),
    }
    assert!(matches!(handle_command(&mut pending, me, "add 0x01 five", 1000), Reply::ValueError));
    assert!(pending.is_empty());
    match handle_command(&mut pending, me, " add 0x0a 250 ", 1000) {
        Reply::Added { tx, pending: n } => {
            assert_eq!(n, 1);
            assert_eq!(tx.to[0], 0x0a);
            assert_eq!(tx.from, me);
            assert_eq!(tx.value, 250);
            assert_eq!(tx.timestamp, 1000);
            assert_eq!(tx.nonce, 0);
        }
        _ => panic!("expected the transaction to be queued"),
    }
    assert!(matches!(handle_command(&mut pending, me, "status", 1000), Reply::ShowStatus));
    match handle_command(&mut pending, me, "mine", 1000) {
        Reply::Mine(txs) => assert_eq!(txs.len(), 1),
        _ => panic!("expected mining"),
    }
    assert!(pending.is_empty());
    assert!(matches!(handle_command(&mut pending, me, "exit", 1000), Reply::Exit));
    assert!(matches!(handle_command(&mut pending, me, "dance", 1000), Reply::Unknown));
}

#[test]
fn address_of_client_id() {
    let a = address_of_id(0x0102_0304_0506_0708);
    assert_eq!(&a[..8], &[1, 2, 3, 4, 5, 6, 7, 8]);
    assert!(a[8..].iter().all(|b| *b == 0));
}

#[test]
fn chain_growth_reports_new_blocks() {
    assert_eq!(chain_growth(0, 3), Some(3));
    assert_eq!(chain_growth(3, 3), None);
    assert_eq!(chain_growth(4, 3), None);
}

#[test]
fn hex_text_of_bytes() {
    assert_eq!(to_hex(&[0x00, 0xab, 0x7f, 0x10]), "00ab7f10");
    assert_eq!(to_hex(&[]), "");
    let a = address_of_id(0xdead_beef);
    assert_eq!(to_hex(&a[..8]), "00000000deadbeef");
}

#[test]
fn a_run_hands_out_every_added_transaction_once() {
    let me = address_of_id(1);
    let mut pending: Vec<Transaction> = Vec::new();
    let mut added = Vec::new();
    let mut mined = Vec::new();
    for line in ["add 0x01 1", "mine", "mine", "add 0x02 2", "add 0x03 3", "status", "mine", "add 0x04 4"] {
        match handle_command(&mut pending, me, line, 1000) {
            Reply::Added { tx, .. } => added.push(tx),
            Reply::Mine(txs) => {
                assert!(!txs.is_empty());
                mined.extend(txs)
            }
            _ => {}
        }
    }
    mined.extend(pending.iter().cloned());
    assert_eq!(mined, added);
    assert_eq!(mined.len(), 4);
}

#[test]
fn watching_polls() {
    let mut last = 0usize;
    let mut total = 0usize;
    for (seen, expect) in [(0, None), (2, Some(2)), (2, None), (1, None), (5, Some(3))] {
        let (next, notice) = watch_chain(last, seen);
        assert_eq!(notice, expect);
        assert!(next >= last);
        total += notice.unwrap_or(0);
        last = next;
    }
    assert_eq!(last, 5);
    assert_eq!(total, 5);
}

#[test]
fn trimming_follows_unicode_white_space() {
    let white: Vec<char> = (0u32..=0x10ffff).filter_map(char::from_u32).filter(|c| c.is_whitespace()).collect();
    assert_eq!(white.len(), 25);
    for c in ['\t', '\n', ' ', '\u{85}', '\u{a0}', '\u{1680}', '\u{2003}', '\u{2028}', '\u{202f}', '\u{205f}', '\u{3000}', 'x', '\u{200b}'] {
        let line = format!("{c}status{c}");
        let expected: Vec<&str> = line.trim().splitn(3, ' ').collect();
        assert_eq!(split_words(&line), expected);
    }
    let mut pending: Vec<Transaction> = Vec::new();
    assert!(matches!(handle_command(&mut pending, address_of_id(1), "\u{3000}exit\u{2029}", 0), Reply::Exit));
}
