use exchange_core::fast_ulid::{accept_ulid, FastUlidGen, FastUlidHalfGen, UlidGenError};
use std::collections::HashSet;

#[test]
fn test_fast_ulid_half_gen_monotonicity() {
    let mut gen = FastUlidHalfGen::new();
    let mut last = gen.generate();

    for _ in 0..10000 {
        let next = gen.generate();
        assert!(next > last, "IDs must be strictly increasing. Last: {}, Next: {}", last, next);
        last = next;
    }
}

#[test]
fn test_fast_ulid_half_gen_uniqueness() {
    let mut gen = FastUlidHalfGen::new();
    let mut set = HashSet::new();
    for _ in 0..1_000_000 {
        let id = gen.generate();
        assert!(set.insert(id), "Duplicate ID generated: {}", id);
    }
}

#[test]
fn test_serialization() {
    let val = 0x0123456789ABCDEF;
    let b32 = FastUlidHalfGen::to_str_base32(val);
    let dec = FastUlidHalfGen::to_str_decimal(val);

    println!("Val: {}, Base32: {}, Dec: {}", val, b32, dec);
    assert!(!b32.is_empty());
    assert!(!dec.is_empty());

    assert!(b32.chars().all(|c| "0123456789ABCDEFGHJKMNPQRSTVWXYZ".contains(c)));
}

#[test]
fn demo_usage_half_ulid_gen() {
    let mut gen = FastUlidHalfGen::new();
    println!("\n--- FastUlidHalfGen Demo ---");
    println!("{:<20} | {:<15} | {:<20}", "u64 (Decimal)", "Base32", "Timestamp (ms)");
    println!("{:-<20}-+-{:-<15}-+-{:-<20}", "", "", "");

    for _ in 0..5 {
        let id = gen.generate();
        let b32 = FastUlidHalfGen::to_str_base32(id);
        let dec = FastUlidHalfGen::to_str_decimal(id);
        let ts = id >> 16;

        println!("{:<20} | {:<15} | {:<20}", dec, b32, ts);
    }
    println!("----------------------------\n");
}

#[test]
fn demo_usage_ulid_gen() {
    let mut gen = FastUlidGen::new();
    println!("\n--- FastUlidGen Demo ---");
    println!("{:<20} | {:<15} | {:<20}", "u128 (Decimal)", "Base32", "Timestamp (ms)");
    println!("{:-<20}-+-{:-<15}-+-{:-<20}", "", "", "");

    for _ in 0..5 {
        let ulid = gen.generate().unwrap();
        let dec = ulid.to_string();
        let ts = ulid.timestamp_ms();

        println!("{:<20} | {:<15} | {:<20}", dec, ulid, ts);
    }
    println!("----------------------------\n");
}

#[test]
fn text_forms_have_exact_digits() {
    assert_eq!(FastUlidHalfGen::to_str_base32(0), "00000000000000");
    // timestamp part 1, low part 31
    assert_eq!(FastUlidHalfGen::to_str_base32((1u64 << 16) | 31), "0000000001000Z");
    assert_eq!(FastUlidHalfGen::to_str_base32(u64::MAX), "7ZZZZZZZZZ1ZZZ");
    assert_eq!(FastUlidHalfGen::to_str_decimal(0x0123456789ABCDEF), "81985529216486895");
}

#[test]
fn ids_from_a_fixed_clock_count_up_and_a_later_clock_jumps() {
    let mut gen = FastUlidHalfGen::new();
    let a = gen.generate_from_ts(1000);
    assert_eq!(a >> 16, 1000);
    let b = gen.generate_from_ts(1000);
    assert_eq!(b, a + 1);
    let c = gen.generate_from_ts(999);
    assert_eq!(c, b + 1);
    let d = gen.generate_from_ts(2000);
    assert_eq!(d >> 16, 2000);
    assert!(d > c);
}

#[test]
fn standard_ulids_increase() {
    let mut gen = FastUlidGen::new();
    let mut last = gen.generate().unwrap();
    for _ in 0..100 {
        let next = gen.generate().unwrap();
        assert!(next > last);
        last = next;
    }
}

#[test]
fn a_drawn_ulid_is_handed_out_only_when_it_increases() {
    assert_eq!(accept_ulid(5, Some(6)), Ok(6));
    assert_eq!(accept_ulid(5, Some(5)), Err(UlidGenError::NotIncreasing));
    assert_eq!(accept_ulid(5, Some(1)), Err(UlidGenError::NotIncreasing));
    assert_eq!(accept_ulid(0, None), Err(UlidGenError::Overflow));
}
