//! Ledgers, lists, text and numbers.
use mine_schedule::cancellation::CancellationToken;
use mine_schedule::ledger::{pair_key, Ledger, Pair};
use mine_schedule::listing::{contains_key, copied, find_key, find_last_key, unique};
use mine_schedule::optimisation::ids::MaterialId;
use mine_schedule::optimisation::input::Material;
use mine_schedule::scalar::{Fixed, Scalar, Shown};
use mine_schedule::text::{append_padded, decimal_text};

fn fixed(billionths: i64) -> Fixed {
    Fixed(billionths)
}

#[test]
fn a_ledger_gives_back_what_was_put() {
    let mut ledger: Ledger<u64, Fixed> = Ledger::new();
    assert_eq!(ledger.get(7), None);
    ledger.put(7, fixed(3));
    ledger.put(2, fixed(4));
    ledger.put(7, fixed(5));
    assert_eq!(ledger.get(7), Some(fixed(5)));
    assert_eq!(ledger.find(2), Some(&fixed(4)));
    assert_eq!(ledger.amount(9), fixed(0));
    let keys: Vec<u64> = ledger.entries.iter().map(|(key, _)| *key).collect();
    assert_eq!(keys, vec![2, 7]);
    ledger.raise(2, fixed(10));
    ledger.raise(9, fixed(1));
    ledger.lower(7, fixed(6));
    assert_eq!((ledger.amount(2), ledger.amount(9), ledger.amount(7)), (fixed(14), fixed(1), fixed(-1)));
    let other = ledger.copy();
    ledger.remove(2);
    assert_eq!(ledger.get(2), None);
    assert_eq!(other.get(2), Some(fixed(14)));
}

#[test]
fn pairs_are_kept_in_order() {
    let mut ledger: Ledger<Pair<u64, u64>, Fixed> = Ledger::new();
    ledger.put(Pair(1, 9), fixed(1));
    ledger.put(Pair(0, 10), fixed(2));
    ledger.put(Pair(1, 2), fixed(3));
    let keys: Vec<(u64, u64)> = ledger.entries.iter().map(|(key, _)| (key.0, key.1)).collect();
    assert_eq!(keys, vec![(0, 10), (1, 2), (1, 9)]);
    assert_ne!(pair_key(1, 2), pair_key(2, 1));
    assert_eq!(pair_key(1, 2), (1 << 32) + 2);
}

#[test]
fn keys_are_found_where_they_stand() {
    let material = |id: u32| Material { id: MaterialId(id), label: String::new() };
    let mut materials = vec![material(4), material(2), material(4)];
    assert_eq!(find_key(&materials, 4), Some(0));
    assert_eq!(find_last_key(&materials, 4), Some(2));
    assert_eq!(find_key(&materials, 5), None);
    assert!(contains_key(&materials, 2) && !contains_key(&materials, 3));
    assert!(!unique(&materials));
    materials.pop();
    assert!(unique(&materials));
    assert_eq!(copied(&vec![3, 1, 2]), vec![3, 1, 2]);
}

#[test]
fn numbers_are_written_in_tens() {
    assert_eq!(decimal_text(0), "0");
    assert_eq!(decimal_text(u64::MAX), "18446744073709551615");
    let mut out = String::from("x");
    append_padded(&mut out, 42, 5);
    assert_eq!(out, "x00042");
}

#[test]
fn fixed_numbers_are_exact_billionths() {
    let one: Fixed = Fixed::whole(1);
    assert_eq!(one, fixed(1_000_000_000));
    assert_eq!(Fixed::decimal(25, 2), fixed(250_000_000));
    assert_eq!(Fixed::decimal(1, 12), fixed(0));
    assert_eq!(one.add(one).sub(Fixed::decimal(5, 1)), fixed(1_500_000_000));
    assert_eq!(Fixed::whole(3).mul(Fixed::decimal(5, 1)), fixed(1_500_000_000));
    assert_eq!(one.div(Fixed::whole(3)), fixed(333_333_333));
    assert_eq!(one.neg().div(Fixed::whole(3)), fixed(-333_333_333));
    assert_eq!(one.div(fixed(0)), Fixed::infinity());
    assert_eq!(fixed(0).div(fixed(0)), fixed(0));
    assert_eq!(Fixed::infinity().add(one), Fixed::infinity());
    assert!(!Fixed::infinity().is_finite() && one.is_finite());
    assert_eq!((fixed(2_500_000_000).round(), fixed(-2_500_000_000).round()), (3, -3));
    assert_eq!((fixed(2_500_000_000).floor(), fixed(-1).floor()), (2, 0));
    assert_eq!((fixed(2_000_000_001).ceil(), fixed(-5).ceil()), (3, 0));
    assert_eq!((one.larger(fixed(2)), one.smaller(fixed(2))), (one, fixed(2)));
    assert!(fixed(1).is_below(fixed(2)) && fixed(2).is_at_most(fixed(2)) && fixed(2).is_same(fixed(2)));
    assert!(fixed(-3).comes_before(fixed(2)) && fixed(-3).abs() == fixed(3));
    assert_eq!(fixed(-1_500_000_000).text(), "-1.500000000");
    assert_eq!(Fixed::whole(12).text(), "12");
    assert_eq!(fixed(5).to_bits(), 5);
}

#[test]
fn a_raised_flag_is_seen_by_every_copy() {
    let token = CancellationToken::new();
    let other = token.clone();
    assert!(!other.is_cancelled());
    token.cancel();
    assert!(other.is_cancelled());
}
