use ed25519_dalek::{Digest, Sha512, Signature, VerifyingKey};

use domain_ledger::{hash_block, Block, Chain, Domain, LedgerError, Record, Transaction};

fn domain(s: &str) -> Domain {
    Domain::parse(s).unwrap()
}

fn sample_records() -> Vec<Record> {
    vec![
        Record::A { index: None, target: Some([192, 168, 0, 1]) },
        Record::TXT { index: Some("www".to_string()), data: Some("hello".to_string()) },
        Record::SRV {
            at: None,
            priority: 10,
            weight: 5,
            port: 443,
            target: Some(domain("srv.b.com")),
        },
    ]
}

fn declared(name: &str) -> (Transaction, [u8; 32]) {
    let mut rng = rand::thread_rng();
    Transaction::declare(domain(name), &mut rng)
}

#[test]
fn it_works() {}

#[test]
fn parse_with_subdomain() {
    let d = domain("a.b.com");
    assert_eq!(d.tld, "com");
    assert_eq!(d.sld, "b");
    assert_eq!(d.sub, Some("a".to_string()));
    assert_eq!(d.to_string(), "a.b.com");
}

#[test]
fn parse_two_labels() {
    let d = domain("b.com");
    assert_eq!(d.tld, "com");
    assert_eq!(d.sld, "b");
    assert_eq!(d.sub, None);
    assert_eq!(d.to_string(), "b.com");
}

#[test]
fn parse_single_label_fails() {
    assert_eq!(Domain::parse("com").unwrap_err(), LedgerError::InvalidFormat);
    assert_eq!(Domain::parse("").unwrap_err(), LedgerError::InvalidFormat);
}

#[test]
fn parse_joins_leading_labels() {
    let d = domain("x.y.a.b.com");
    assert_eq!(d.sub, Some("x.y.a".to_string()));
    assert_eq!(d.sld, "b");
    assert_eq!(d.tld, "com");
}

#[test]
fn parse_keeps_empty_labels() {
    let d = domain("a..com");
    assert_eq!(d.tld, "com");
    assert_eq!(d.sld, "");
    assert_eq!(d.sub, Some("a".to_string()));
    let e = domain(".");
    assert_eq!(e.tld, "");
    assert_eq!(e.sld, "");
    assert_eq!(e.sub, None);
}

#[test]
fn format_then_parse_is_stable() {
    for s in ["x.y.a.b.com", "b.com", "a..com", "ü.bücher.de"] {
        let d = domain(s);
        let text = d.to_string();
        assert_eq!(text, s);
        let again = domain(&text);
        assert_eq!(again.tld, d.tld);
        assert_eq!(again.sld, d.sld);
        assert_eq!(again.sub, d.sub);
    }
}

#[test]
fn declaration_starts_at_zero() {
    let (d, _) = declared("b.com");
    match d {
        Transaction::Declaration { domain, updates_sum, .. } => {
            assert_eq!(domain.to_string(), "b.com");
            assert_eq!(updates_sum, 0);
        }
        Transaction::Update { .. } => panic!("expected a declaration"),
    }
}

#[test]
fn honest_update_verifies() {
    let (mut d, key) = declared("a.b.com");
    let h = d.hash();
    let u = d.update(h, sample_records(), key).unwrap();
    assert!(d.verify_update(&u));
    match &u {
        Transaction::Update { declaration, records, .. } => {
            assert_eq!(*declaration, h);
            assert_eq!(records.len(), 3);
        }
        Transaction::Declaration { .. } => panic!("expected an update"),
    }
}

#[test]
fn honest_update_with_no_records_verifies() {
    let (mut d, key) = declared("b.com");
    let h = d.hash();
    let u = d.update(h, Vec::new(), key).unwrap();
    assert!(d.verify_update(&u));
}

#[test]
fn tampered_record_rejected() {
    let (mut d, key) = declared("a.b.com");
    let h = d.hash();
    let u = d.update(h, sample_records(), key).unwrap();
    let tampered = match u {
        Transaction::Update { declaration, mut records, signature } => {
            records[0] = Record::A { index: None, target: Some([192, 168, 0, 2]) };
            Transaction::Update { declaration, records, signature }
        }
        other => other,
    };
    assert!(!d.verify_update(&tampered));
}

#[test]
fn tampered_declaration_hash_rejected() {
    let (mut d, key) = declared("a.b.com");
    let h = d.hash();
    let u = d.update(h, sample_records(), key).unwrap();
    let tampered = match u {
        Transaction::Update { mut declaration, records, signature } => {
            declaration[5] ^= 1;
            Transaction::Update { declaration, records, signature }
        }
        other => other,
    };
    assert!(!d.verify_update(&tampered));
}

#[test]
fn tampered_signature_rejected() {
    let (mut d, key) = declared("a.b.com");
    let h = d.hash();
    let u = d.update(h, sample_records(), key).unwrap();
    for byte in [0usize, 31, 32, 63] {
        let tampered = match u.clone() {
            Transaction::Update { declaration, records, mut signature } => {
                signature[byte] ^= 0x10;
                Transaction::Update { declaration, records, signature }
            }
            other => other,
        };
        assert!(!d.verify_update(&tampered));
    }
}

#[test]
fn replay_across_declarations_with_one_key_rejected() {
    let (mut d1, key) = declared("one.com");
    let vk = match &d1 {
        Transaction::Declaration { verifying_key, .. } => *verifying_key,
        Transaction::Update { .. } => panic!("expected a declaration"),
    };
    let d2 = Transaction::Declaration { domain: domain("two.com"), verifying_key: vk, updates_sum: 0 };
    let h1 = d1.hash();
    let u = d1.update(h1, sample_records(), key).unwrap();
    assert!(d1.verify_update(&u));
    assert!(!d2.verify_update(&u));
    // Re-pointing the update at the second declaration breaks the signature.
    let redirected = match u {
        Transaction::Update { records, signature, .. } => {
            Transaction::Update { declaration: d2.hash(), records, signature }
        }
        other => other,
    };
    assert!(!d2.verify_update(&redirected));
}

#[test]
fn stale_counter_rejected() {
    let (mut d, key) = declared("b.com");
    let h = d.hash();
    let u = d.update(h, sample_records(), key).unwrap();
    let advanced = match d {
        Transaction::Declaration { domain, verifying_key, updates_sum } => {
            Transaction::Declaration { domain, verifying_key, updates_sum: updates_sum + 1 }
        }
        other => other,
    };
    assert!(!advanced.verify_update(&u));
}

#[test]
fn update_on_update_fails() {
    let (mut d, key) = declared("b.com");
    let h = d.hash();
    let mut u = d.update(h, sample_records(), key).unwrap();
    assert_eq!(u.update(h, Vec::new(), key).unwrap_err(), LedgerError::WrongVariant);
}

#[test]
fn update_leaves_declaration_unchanged() {
    let (mut d, key) = declared("b.com");
    let before = d.encode();
    let h = d.hash();
    d.update(h, sample_records(), key).unwrap();
    assert_eq!(d.encode(), before);
}

#[test]
fn verify_needs_declaration_and_update() {
    let (mut d, key) = declared("b.com");
    let h = d.hash();
    let u = d.update(h, Vec::new(), key).unwrap();
    assert!(!u.verify_update(&u));
    assert!(!d.verify_update(&d));
}

#[test]
fn declaration_encoding_is_exact() {
    let d = Transaction::Declaration {
        domain: domain("b.com"),
        verifying_key: [7u8; 32],
        updates_sum: 258,
    };
    let mut expected: Vec<u8> = vec![0, 0, 0, 0];
    expected.extend_from_slice(&[3, 0, 0, 0, 0, 0, 0, 0]);
    expected.extend_from_slice(b"com");
    expected.extend_from_slice(&[1, 0, 0, 0, 0, 0, 0, 0]);
    expected.extend_from_slice(b"b");
    expected.push(0);
    expected.extend_from_slice(&[7u8; 32]);
    expected.extend_from_slice(&[2, 1, 0, 0]);
    assert_eq!(d.encode(), expected);
    assert_eq!(d.hash(), *blake3::hash(&expected).as_bytes());
}

#[test]
fn update_encoding_is_exact() {
    let u = Transaction::Update {
        declaration: [1u8; 32],
        records: vec![Record::SRV { at: None, priority: 1, weight: 2, port: 513, target: None }],
        signature: [9u8; 64],
    };
    let mut expected: Vec<u8> = vec![1, 0, 0, 0];
    expected.extend_from_slice(&[1u8; 32]);
    expected.extend_from_slice(&[1, 0, 0, 0, 0, 0, 0, 0]);
    expected.extend_from_slice(&[6, 0, 0, 0, 0, 1, 0, 2, 0, 1, 2, 0]);
    expected.extend_from_slice(&[9u8; 64]);
    assert_eq!(u.encode(), expected);
}

#[test]
fn hash_block_is_deterministic_and_order_sensitive() {
    let (d1, _) = declared("one.com");
    let (d2, _) = declared("two.com");
    let h1 = d1.hash();
    let txs = vec![d1.clone(), d2.clone()];
    let same = vec![d1.clone(), d2.clone()];
    let reordered = vec![d2, d1];
    assert_eq!(hash_block(&txs), hash_block(&same));
    assert_ne!(hash_block(&txs), hash_block(&reordered));
    assert_ne!(hash_block(&txs), h1);
}

#[test]
fn hash_of_empty_block() {
    assert_eq!(hash_block(&Vec::new()), *blake3::hash(&[0u8; 8]).as_bytes());
}

#[test]
fn block_and_chain() {
    let (d, _) = declared("b.com");
    let mut block = Block::new(vec![d]);
    assert!(block.is_intact());
    assert_eq!(block.hash, hash_block(&block.transactions));
    let mut chain = Chain::new();
    assert_eq!(chain.len(), 0);
    chain.append(block.clone());
    assert_eq!(chain.len(), 1);
    block.hash[0] ^= 1;
    assert!(!block.is_intact());
}

#[test]
fn from_str_matches_parse() {
    let d: Domain = "mail.b.com".parse().unwrap();
    assert_eq!(d.to_string(), "mail.b.com");
    assert_eq!("com".parse::<Domain>().unwrap_err(), LedgerError::InvalidFormat);
}

#[test]
fn verifying_key_belongs_to_secret() {
    let (d, key) = declared("b.com");
    let vk = match d {
        Transaction::Declaration { verifying_key, .. } => verifying_key,
        Transaction::Update { .. } => panic!("expected a declaration"),
    };
    assert_ne!(vk, key);
    let expected = ed25519_dalek::SigningKey::from_bytes(&key).verifying_key().to_bytes();
    assert_eq!(vk, expected);
}

#[test]
fn signature_is_ed25519ph_over_counter_and_records() {
    let (mut d, key) = declared("b.com");
    let h = d.hash();
    let u = d.update(h, Vec::new(), key).unwrap();
    let sig = match u {
        Transaction::Update { signature, .. } => signature,
        Transaction::Declaration { .. } => panic!("expected an update"),
    };
    // Counter 0 as four bytes, then an empty record list as an eight-byte count.
    let msg = [0u8; 12];
    let vk: VerifyingKey = ed25519_dalek::SigningKey::from_bytes(&key).verifying_key();
    let ok = vk.verify_prehashed(
        Sha512::new().chain_update(msg),
        Some(&h[..]),
        &Signature::from_bytes(&sig),
    );
    assert!(ok.is_ok());
    let wrong_context = vk.verify_prehashed(
        Sha512::new().chain_update(msg),
        Some(&[0u8; 32][..]),
        &Signature::from_bytes(&sig),
    );
    assert!(wrong_context.is_err());
}
