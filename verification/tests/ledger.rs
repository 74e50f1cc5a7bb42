use powledger::amount::Amount;
use powledger::blockchain::{Chain, Transaction};

fn tx(sender: &str, receiver: &str, micros: u64) -> Transaction {
    Transaction {
        sender: sender.to_string(),
        receiver: receiver.to_string(),
        amount: Amount { micros },
    }
}

#[test]
fn hex_rendering_is_two_lowercase_digits_per_byte() {
    assert_eq!(Chain::hex_to_string(&[]), "");
    assert_eq!(Chain::hex_to_string(&[0x00, 0xff, 0x10, 0x0a]), "00ff100a");
}

#[test]
fn hash_matches_known_sha256_vector() {
    // SHA-256("abc"), rendered in lowercase hex.
    assert_eq!(
        Chain::hash("abc"),
        "ba7816bf8f01cfea414140de5dae2223b00361a396177a9cb410ff61f20015ad"
    );
    assert_eq!(Chain::hash("abc").len(), 64);
    // Identical input, identical digest; distinct input, distinct digest.
    assert_eq!(Chain::hash("abc"), Chain::hash("abc"));
    assert_ne!(Chain::hash("abc"), Chain::hash("abd"));
}

#[test]
fn difficulty_check_parses_prefix_as_decimal_zero() {
    assert!(Chain::check_difficulty("0abc", 1));
    assert!(!Chain::check_difficulty("0abc", 2)); // "0a" is not a decimal number
    assert!(Chain::check_difficulty("00remainder", 2));
    assert!(!Chain::check_difficulty("10remainder", 2)); // parses to ten
    assert!(Chain::check_difficulty("anything", 0)); // empty prefix accepts
    assert!(Chain::check_difficulty("000", 10)); // prefix clamped to the digest
    assert!(!Chain::check_difficulty("007", 10));
}

#[test]
fn proof_of_work_finds_accepted_digest() {
    let mut chain = Chain::new("alice".to_string(), 1);
    assert!(chain.generate_new_block());
    let tip = chain.last_hash();
    assert!(tip.starts_with('0'));
}

#[test]
fn genesis_block_rewards_recipient_from_root() {
    let chain = Chain::new("alice".to_string(), 1);
    assert_eq!(chain.chain.len(), 1);
    let genesis = &chain.chain[0];
    assert_eq!(genesis.count, 1);
    assert_eq!(genesis.transactions.len(), 1);
    assert_eq!(genesis.transactions[0].sender, "Root");
    assert_eq!(genesis.transactions[0].receiver, "alice");
    assert_eq!(genesis.transactions[0].amount.micros, 50_000_000);
    assert_eq!(genesis.header.pre_hash, "0".repeat(64));
    assert_eq!(genesis.header.difficulty, 1);
}

#[test]
fn sealed_blocks_are_hash_linked() {
    let mut chain = Chain::new("alice".to_string(), 1);
    assert!(chain.generate_new_block());
    assert!(chain.generate_new_block());
    assert_eq!(chain.chain.len(), 3);
    assert_eq!(chain.chain[0].header.pre_hash, "0".repeat(64));
    for n in 1..chain.chain.len() {
        let expected = Chain::hash(&Chain::header_text(&chain.chain[n - 1].header));
        assert_eq!(chain.chain[n].header.pre_hash, expected);
    }
}

#[test]
fn merkle_of_single_transaction_combines_its_digest_with_itself() {
    let t = tx("bob", "carol", 10_000_000);
    let leaf = Chain::hash(&Chain::transaction_text(&t));
    let expected = Chain::hash(&format!("{}{}", leaf, leaf));
    let root = Chain::get_merkle(&vec![t]);
    assert_eq!(root, expected);
}

#[test]
fn merkle_is_order_sensitive() {
    let a = tx("bob", "carol", 10_000_000);
    let b = tx("dave", "erin", 7_500_000);
    let ab = Chain::get_merkle(&vec![
        tx("bob", "carol", 10_000_000),
        tx("dave", "erin", 7_500_000),
    ]);
    let ba = Chain::get_merkle(&vec![b, a]);
    assert_ne!(ab, ba);
    // Swapping identical transactions changes nothing.
    let aa = Chain::get_merkle(&vec![
        tx("bob", "carol", 10_000_000),
        tx("bob", "carol", 10_000_000),
    ]);
    let aa_swapped = Chain::get_merkle(&vec![
        tx("bob", "carol", 10_000_000),
        tx("bob", "carol", 10_000_000),
    ]);
    assert_eq!(aa, aa_swapped);
}

#[test]
fn sealing_drains_pending_and_counts_reward() {
    let mut chain = Chain::new("alice".to_string(), 1);
    chain.new_transaction("bob".to_string(), "carol".to_string(), Amount { micros: 10_000_000 });
    chain.new_transaction("carol".to_string(), "dave".to_string(), Amount { micros: 2_500_000 });
    assert_eq!(chain.curr_transactions.len(), 2);
    assert!(chain.generate_new_block());
    assert_eq!(chain.curr_transactions.len(), 0);
    let sealed = &chain.chain[1];
    assert_eq!(sealed.count, 3);
    assert_eq!(sealed.transactions.len(), 3);
    assert!(chain.generate_new_block());
    assert_eq!(chain.chain[2].count, 1);
}

#[test]
fn halving_reward_reaches_exact_zero_and_stays() {
    let mut chain = Chain::new("alice".to_string(), 1);
    assert!(chain.update_reward());
    assert!(chain.update_reward());
    // Two halvings of fifty: twelve and a half units.
    assert_eq!(chain.reward.micros, 12_500_000);
    for _ in 0..40 {
        chain.update_reward();
    }
    assert_eq!(chain.reward.micros, 0);
    assert!(chain.update_reward());
    assert_eq!(chain.reward.micros, 0);
}

#[test]
fn difficulty_update_applies_to_future_blocks_only() {
    let mut chain = Chain::new("alice".to_string(), 1);
    assert!(chain.update_difficulty(2));
    assert_eq!(chain.chain[0].header.difficulty, 1);
    assert!(chain.generate_new_block());
    assert_eq!(chain.chain[1].header.difficulty, 2);
    let tip = chain.last_hash();
    assert!(tip.starts_with("00"));
}

#[test]
fn difficulty_zero_accepts_immediately() {
    let mut chain = Chain::new("alice".to_string(), 0);
    assert_eq!(chain.chain.len(), 1);
    assert!(chain.generate_new_block());
    assert_eq!(chain.chain[1].header.nonce, 0);
}

#[test]
fn ledger_scenario_alice() {
    let mut chain = Chain::new("alice".to_string(), 1);
    let genesis = &chain.chain[0];
    assert_eq!(genesis.count, 1);
    assert_eq!(genesis.transactions[0].sender, "Root");
    assert_eq!(genesis.transactions[0].receiver, "alice");
    assert_eq!(genesis.transactions[0].amount.micros, 50_000_000);
    assert_eq!(genesis.header.pre_hash.len(), 64);
    assert!(genesis.header.pre_hash.chars().all(|c| c == '0'));
    let genesis_digest = Chain::hash(&Chain::header_text(&chain.chain[0].header));

    chain.new_transaction("bob".to_string(), "carol".to_string(), Amount { micros: 10_000_000 });
    assert!(chain.generate_new_block());
    let sealed = &chain.chain[1];
    assert_eq!(sealed.count, 2);
    assert_eq!(sealed.transactions[0].sender, "Root");
    assert_eq!(sealed.transactions[0].receiver, "alice");
    assert_eq!(sealed.transactions[0].amount.micros, 50_000_000);
    assert_eq!(sealed.transactions[1].sender, "bob");
    assert_eq!(sealed.transactions[1].receiver, "carol");
    assert_eq!(sealed.transactions[1].amount.micros, 10_000_000);
    assert_eq!(sealed.header.pre_hash, genesis_digest);
}

#[test]
fn amount_parsing_accepts_plain_and_fractional_decimals() {
    assert_eq!(Amount::parse("50").unwrap().micros, 50_000_000);
    assert_eq!(Amount::parse("12.5").unwrap().micros, 12_500_000);
    assert_eq!(Amount::parse("0.000001").unwrap().micros, 1);
    assert_eq!(Amount::parse("0").unwrap().micros, 0);
    assert_eq!(Amount::parse("007").unwrap().micros, 7_000_000);
    assert_eq!(
        Amount::parse("18446744073709.551615").unwrap().micros,
        u64::MAX
    );
}

#[test]
fn amount_parsing_rejects_malformed_or_oversized_text() {
    assert!(Amount::parse("").is_none());
    assert!(Amount::parse(".").is_none());
    assert!(Amount::parse("5.").is_none());
    assert!(Amount::parse(".5").is_none());
    assert!(Amount::parse("1.2.3").is_none());
    assert!(Amount::parse("-1").is_none());
    assert!(Amount::parse("abc").is_none());
    assert!(Amount::parse("1.2345678").is_none()); // finer than a micro-unit
    assert!(Amount::parse("99999999999999999999").is_none()); // beyond the type
    assert!(Amount::parse("18446744073709.551616").is_none());
}

#[test]
fn submission_always_succeeds_and_preserves_order() {
    let mut chain = Chain::new("alice".to_string(), 0);
    assert!(chain.new_transaction("a".to_string(), "b".to_string(), Amount { micros: 1 }));
    assert!(chain.new_transaction("c".to_string(), "d".to_string(), Amount { micros: 2 }));
    assert_eq!(chain.curr_transactions[0].sender, "a");
    assert_eq!(chain.curr_transactions[1].sender, "c");
    assert!(chain.generate_new_block());
    let sealed = &chain.chain[1];
    assert_eq!(sealed.transactions[1].sender, "a");
    assert_eq!(sealed.transactions[2].sender, "c");
}
