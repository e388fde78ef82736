use optimized_paillier::table::FieldValue;
use optimized_paillier::{BigNat, DecryptionKey, EncryptionKey, PaillierError, PrecomputeTable};

fn num(x: u64) -> BigNat {
    BigNat::from_u64(x)
}

fn field(name: &str, v: FieldValue) -> (String, FieldValue) {
    (name.to_string(), v)
}

fn text(s: &str) -> FieldValue {
    FieldValue::Text(s.to_string())
}

fn same_table(a: &PrecomputeTable, b: &PrecomputeTable, exps: u64) {
    for e in 0..exps {
        assert_eq!(a.compute(&num(e)), b.compute(&num(e)));
    }
}

#[test]
fn table_serialization_round_trip_with_one_bit_blocks() {
    let t = PrecomputeTable::new_dp(num(3), 1, 5, num(1000003));
    let fields = t.serialize();
    let back = PrecomputeTable::deserialize(&fields).unwrap();
    same_table(&t, &back, 32);
    assert_eq!(format!("{:?}", back.serialize()), format!("{:?}", fields));
}

#[test]
fn table_serialization_round_trip_with_uneven_blocks() {
    // 10 bits in blocks of 3: the last block holds one bit
    let t = PrecomputeTable::new(num(2), 3, 10, num(1000000000));
    let fields = t.serialize();
    let back = PrecomputeTable::deserialize(&fields).unwrap();
    same_table(&t, &back, 1024);
    assert_eq!(format!("{:?}", back.serialize()), format!("{:?}", fields));
}

#[test]
fn table_fields_are_lower_case_hex() {
    let t = PrecomputeTable::new(num(2), 2, 4, num(1000));
    let fields = t.serialize();
    assert_eq!(fields[0].0, "block_size");
    assert!(matches!(fields[0].1, FieldValue::Size(2)));
    assert_eq!(fields[1].0, "pow_size");
    assert!(matches!(fields[1].1, FieldValue::Size(4)));
    assert_eq!(fields[2].0, "modulo");
    match &fields[2].1 {
        FieldValue::Text(s) => assert_eq!(s, "3e8"),
        other => panic!("unexpected {:?}", other),
    }
    match &fields[3].1 {
        // row 0 holds 2^j and row 1 holds 16^j mod 1000, for j = 0..4
        FieldValue::Grid(rows) => {
            assert_eq!(rows.len(), 3);
            assert_eq!(rows[0], vec!["1", "2", "4", "8"]);
            assert_eq!(rows[1], vec!["1", "10", "100", "60"]);
        }
        other => panic!("unexpected {:?}", other),
    }
}

fn table_fields() -> Vec<(String, FieldValue)> {
    PrecomputeTable::new(num(2), 2, 4, num(1000)).serialize()
}

#[test]
fn table_fields_in_any_order_are_accepted() {
    let mut fields = table_fields();
    fields.reverse();
    let t = PrecomputeTable::deserialize(&fields).unwrap();
    assert_eq!(t.compute(&num(5)), num(32));
}

#[test]
fn unknown_table_field_is_rejected() {
    let mut fields = table_fields();
    fields.push(field("extra", FieldValue::Size(1)));
    assert_eq!(PrecomputeTable::deserialize(&fields).unwrap_err(), PaillierError::ParseError);
}

#[test]
fn repeated_table_field_is_rejected() {
    let mut fields = table_fields();
    fields.push(field("pow_size", FieldValue::Size(4)));
    assert_eq!(PrecomputeTable::deserialize(&fields).unwrap_err(), PaillierError::ParseError);
}

#[test]
fn missing_table_field_is_rejected() {
    let mut fields = table_fields();
    fields.remove(2);
    assert_eq!(PrecomputeTable::deserialize(&fields).unwrap_err(), PaillierError::ParseError);
}

#[test]
fn wrong_kind_or_bad_numeral_is_rejected() {
    let mut fields = table_fields();
    fields[0] = field("block_size", text("2"));
    assert_eq!(PrecomputeTable::deserialize(&fields).unwrap_err(), PaillierError::ParseError);
    let mut fields = table_fields();
    fields[2] = field("modulo", text("-3e8"));
    assert_eq!(PrecomputeTable::deserialize(&fields).unwrap_err(), PaillierError::ParseError);
    let mut fields = table_fields();
    fields[2] = field("modulo", text(""));
    assert_eq!(PrecomputeTable::deserialize(&fields).unwrap_err(), PaillierError::ParseError);
}

#[test]
fn misshapen_table_is_rejected() {
    let mut fields = table_fields();
    if let FieldValue::Grid(rows) = &mut fields[3].1 {
        rows[1].pop();
    }
    assert_eq!(PrecomputeTable::deserialize(&fields).unwrap_err(), PaillierError::ParseError);
    let mut fields = table_fields();
    fields[0] = field("block_size", FieldValue::Size(0));
    assert_eq!(PrecomputeTable::deserialize(&fields).unwrap_err(), PaillierError::ParseError);
}

#[test]
fn key_serialization_round_trip() {
    let ek = EncryptionKey::new(448, num(143), num(4), num(3000));
    let fields = ek.serialize();
    assert_eq!(fields[1].0, "n");
    match &fields[1].1 {
        FieldValue::Text(s) => assert_eq!(s, "8f"),
        other => panic!("unexpected {:?}", other),
    }
    let back = EncryptionKey::deserialize(&fields).unwrap();
    assert_eq!(back.alpha_size, 448);
    assert_eq!(back.n, ek.n);
    assert_eq!(back.nn, ek.nn);
    assert_eq!(back.h, ek.h);
    assert_eq!(back.hn, ek.hn);

    let dk = DecryptionKey::new(num(11), num(13), num(6), num(143));
    let fields = dk.serialize();
    let back = DecryptionKey::deserialize(&fields).unwrap();
    assert_eq!(back.p, dk.p);
    assert_eq!(back.q, dk.q);
    assert_eq!(back.alpha, dk.alpha);
    assert_eq!(back.n, dk.n);
    assert_eq!(back.nn, num(143 * 143));
}

#[test]
fn key_fields_are_checked() {
    let ek = EncryptionKey::new(448, num(143), num(4), num(3000));
    let mut fields = ek.serialize();
    fields.push(field("p", text("b")));
    assert_eq!(EncryptionKey::deserialize(&fields).unwrap_err(), PaillierError::ParseError);
    let mut fields = ek.serialize();
    fields.pop();
    assert_eq!(EncryptionKey::deserialize(&fields).unwrap_err(), PaillierError::ParseError);
    let dk = DecryptionKey::new(num(11), num(13), num(6), num(143));
    let mut fields = dk.serialize();
    fields[0] = field("p", FieldValue::Size(11));
    assert_eq!(DecryptionKey::deserialize(&fields).unwrap_err(), PaillierError::ParseError);
}
