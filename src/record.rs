//! Keys as named fields: the sizes as numbers and the big integers as lower-case
//! hexadecimal numerals, read back with unknown, repeated and missing fields
//! rejected.

use vstd::prelude::*;

use crate::bignat::{all_hex_digits, big_from_hex, big_to_hex, hex_numeral, hex_value, is_hex_numeral, lemma_hex_round_trip, BigNat};
use crate::keys::{DecryptionKey, EncryptionKey, PaillierError};
use crate::table::{has_key, value_of, FieldValue};

verus! {

/// The keys of `fs` are exactly `names`: each key is one of them, no key repeats,
/// and each name is present.
pub open spec fn fields_exactly(fs: Seq<(String, FieldValue)>, names: Seq<Seq<char>>) -> bool {
    &&& forall|i: int| 0 <= i < fs.len() ==> names.contains(#[trigger] fs[i].0@)
    &&& forall|i: int, j: int| 0 <= i < j < fs.len() ==> #[trigger] fs[i].0@ != #[trigger] fs[j].0@
    &&& forall|k: int| 0 <= k < names.len() ==> has_key(fs, #[trigger] names[k])
}

/// A field value that is a non-empty hexadecimal numeral.
pub open spec fn text_ok(v: FieldValue) -> bool {
    v is Text && v->Text_0@.len() > 0 && all_hex_digits(v->Text_0@)
}

pub open spec fn text_value(v: FieldValue) -> nat {
    hex_value(v->Text_0@)
}

pub open spec fn ek_names() -> Seq<Seq<char>> {
    seq!["alpha_size"@, "n"@, "nn"@, "h"@, "hn"@]
}

pub open spec fn dk_names() -> Seq<Seq<char>> {
    seq!["p"@, "q"@, "alpha"@, "n"@, "nn"@]
}

/// The fields describe a public key.
pub open spec fn ek_fields_ok(fs: Seq<(String, FieldValue)>) -> bool {
    &&& fields_exactly(fs, ek_names())
    &&& value_of(fs, "alpha_size"@) is Size
    &&& text_ok(value_of(fs, "n"@)) && text_ok(value_of(fs, "nn"@))
    &&& text_ok(value_of(fs, "h"@)) && text_ok(value_of(fs, "hn"@))
}

/// The fields describe a private key.
pub open spec fn dk_fields_ok(fs: Seq<(String, FieldValue)>) -> bool {
    &&& fields_exactly(fs, dk_names())
    &&& text_ok(value_of(fs, "p"@)) && text_ok(value_of(fs, "q"@))
    &&& text_ok(value_of(fs, "alpha"@)) && text_ok(value_of(fs, "n"@)) && text_ok(value_of(fs, "nn"@))
}

/// The fields that `EncryptionKey::serialize` writes for `ek`.
pub open spec fn ek_serialized(ek: EncryptionKey, fs: Seq<(String, FieldValue)>) -> bool {
    &&& fs.len() == 5
    &&& fs[0].0@ == "alpha_size"@ && fs[0].1 == FieldValue::Size(ek.alpha_size)
    &&& fs[1].0@ == "n"@ && fs[1].1 is Text && fs[1].1->Text_0@ == hex_numeral(ek.n@)
    &&& fs[2].0@ == "nn"@ && fs[2].1 is Text && fs[2].1->Text_0@ == hex_numeral(ek.nn@)
    &&& fs[3].0@ == "h"@ && fs[3].1 is Text && fs[3].1->Text_0@ == hex_numeral(ek.h@)
    &&& fs[4].0@ == "hn"@ && fs[4].1 is Text && fs[4].1->Text_0@ == hex_numeral(ek.hn@)
}

/// The fields that `DecryptionKey::serialize` writes for `dk`.
pub open spec fn dk_serialized(dk: DecryptionKey, fs: Seq<(String, FieldValue)>) -> bool {
    &&& fs.len() == 5
    &&& fs[0].0@ == "p"@ && fs[0].1 is Text && fs[0].1->Text_0@ == hex_numeral(dk.p@)
    &&& fs[1].0@ == "q"@ && fs[1].1 is Text && fs[1].1->Text_0@ == hex_numeral(dk.q@)
    &&& fs[2].0@ == "alpha"@ && fs[2].1 is Text && fs[2].1->Text_0@ == hex_numeral(dk.alpha@)
    &&& fs[3].0@ == "n"@ && fs[3].1 is Text && fs[3].1->Text_0@ == hex_numeral(dk.n@)
    &&& fs[4].0@ == "nn"@ && fs[4].1 is Text && fs[4].1->Text_0@ == hex_numeral(dk.nn@)
}

pub open spec fn names_of(names: Seq<String>) -> Seq<Seq<char>> {
    names.map_values(|s: String| s@)
}

/// Whether the keys of `fields` are exactly `names`.
fn check_names(fields: &Vec<(String, FieldValue)>, names: &Vec<String>) -> (r: bool)
    ensures
        r == fields_exactly(fields@, names_of(names@)),
{
    let ghost fs = fields@;
    let ghost ns = names_of(names@);
    // every key is a name
    let mut i: usize = 0;
    while i < fields.len()
        invariant
            fs == fields@,
            ns == names_of(names@),
            i <= fs.len(),
            forall|a: int| 0 <= a < i ==> ns.contains(#[trigger] fs[a].0@),
        decreases fields.len() - i,
    {
        let mut found = false;
        let mut k: usize = 0;
        while k < names.len()
            invariant
                fs == fields@,
                ns == names_of(names@),
                i < fs.len(),
                k <= names.len(),
                found ==> ns.contains(fs[i as int].0@),
                !found ==> forall|b: int| 0 <= b < k ==> #[trigger] ns[b] != fs[i as int].0@,
            decreases names.len() - k,
        {
            if fields[i].0 == names[k] {
                proof {
                    assert(ns[k as int] == fs[i as int].0@);
                }
                found = true;
            }
            k = k + 1;
        }
        if !found {
            proof {
                assert(!ns.contains(fs[i as int].0@));
            }
            return false;
        }
        i = i + 1;
    }
    // no key repeats
    let mut a: usize = 0;
    while a < fields.len()
        invariant
            fs == fields@,
            ns == names_of(names@),
            a <= fs.len(),
            forall|x: int| 0 <= x < fs.len() ==> ns.contains(#[trigger] fs[x].0@),
            forall|x: int, y: int| 0 <= x < y < fs.len() && x < a ==> #[trigger] fs[x].0@ != #[trigger] fs[y].0@,
        decreases fields.len() - a,
    {
        let mut b: usize = a + 1;
        while b < fields.len()
            invariant
                fs == fields@,
                a < fs.len(),
                a + 1 <= b <= fs.len(),
                forall|x: int, y: int| 0 <= x < y < fs.len() && x < a ==> #[trigger] fs[x].0@ != #[trigger] fs[y].0@,
                forall|y: int| a < y < b ==> #[trigger] fs[y].0@ != fs[a as int].0@,
            decreases fields.len() - b,
        {
            if fields[a].0 == fields[b].0 {
                proof {
                    assert(fs[a as int].0@ == fs[b as int].0@);
                    assert(!fields_exactly(fs, ns));
                }
                return false;
            }
            b = b + 1;
        }
        a = a + 1;
    }
    // each name is present
    let mut k: usize = 0;
    while k < names.len()
        invariant
            fs == fields@,
            ns == names_of(names@),
            k <= names.len(),
            forall|x: int| 0 <= x < fs.len() ==> ns.contains(#[trigger] fs[x].0@),
            forall|x: int, y: int| 0 <= x < y < fs.len() ==> #[trigger] fs[x].0@ != #[trigger] fs[y].0@,
            forall|c: int| 0 <= c < k ==> has_key(fs, #[trigger] ns[c]),
        decreases names.len() - k,
    {
        let mut present = false;
        let mut j: usize = 0;
        while j < fields.len()
            invariant
                fs == fields@,
                ns == names_of(names@),
                k < names.len(),
                j <= fs.len(),
                present ==> has_key(fs, ns[k as int]),
                !present ==> forall|x: int| 0 <= x < j ==> #[trigger] fs[x].0@ != ns[k as int],
            decreases fields.len() - j,
        {
            if fields[j].0 == names[k] {
                proof {
                    assert(fs[j as int].0@ == ns[k as int]);
                }
                present = true;
            }
            j = j + 1;
        }
        if !present {
            proof {
                assert(!has_key(fs, ns[k as int]));
                assert(ns.len() == names@.len());
                assert(!fields_exactly(fs, ns));
            }
            return false;
        }
        k = k + 1;
    }
    proof {
        assert(ns.len() == names@.len());
    }
    true
}

/// The index of the field named `name`.
fn find(fields: &Vec<(String, FieldValue)>, name: &String) -> (r: usize)
    requires
        has_key(fields@, name@),
        forall|x: int, y: int|
            0 <= x < y < fields@.len() ==> #[trigger] fields@[x].0@ != #[trigger] fields@[y].0@,
    ensures
        r < fields@.len(),
        fields@[r as int].0@ == name@,
        value_of(fields@, name@) == fields@[r as int].1,
{
    let mut j: usize = 0;
    while j < fields.len()
        invariant
            has_key(fields@, name@),
            forall|x: int, y: int|
                0 <= x < y < fields@.len() ==> #[trigger] fields@[x].0@ != #[trigger] fields@[y].0@,
            j <= fields@.len(),
            forall|x: int| 0 <= x < j ==> #[trigger] fields@[x].0@ != name@,
        decreases fields.len() - j,
    {
        if fields[j].0 == *name {
            proof {
                let c = choose|i: int| 0 <= i < fields@.len() && #[trigger] fields@[i].0@ == name@;
                if c != j as int {
                    if c < j {
                        assert(fields@[c].0@ != name@);
                    } else {
                        assert(fields@[j as int].0@ != fields@[c].0@);
                    }
                }
            }
            return j;
        }
        j = j + 1;
    }
    proof {
        assert(false);
    }
    0
}

/// The number that a hexadecimal text field holds.
fn text_number(v: &FieldValue) -> (r: Result<BigNat, PaillierError>)
    ensures
        text_ok(*v) <==> r is Ok,
        r is Ok ==> r.unwrap()@ == text_value(*v),
        r is Err ==> r == Err::<BigNat, PaillierError>(PaillierError::ParseError),
{
    match v {
        FieldValue::Text(t) => {
            if !is_hex_numeral(t.as_str()) {
                return Err(PaillierError::ParseError);
            }
            match big_from_hex(t.as_str()) {
                Some(x) => Ok(x),
                None => Err(PaillierError::ParseError),
            }
        },
        _ => Err(PaillierError::ParseError),
    }
}

fn name_list(a: &str, b: &str, c: &str, d: &str, e: &str) -> (r: Vec<String>)
    ensures
        names_of(r@) == seq![a@, b@, c@, d@, e@],
{
    let mut r: Vec<String> = Vec::new();
    r.push(a.to_owned());
    r.push(b.to_owned());
    r.push(c.to_owned());
    r.push(d.to_owned());
    r.push(e.to_owned());
    proof {
        assert(names_of(r@) =~= seq![a@, b@, c@, d@, e@]);
    }
    r
}

impl EncryptionKey {
    /// The key as named fields `alpha_size`, `n`, `nn`, `h`, `hn`.
    pub fn serialize(&self) -> (r: Vec<(String, FieldValue)>)
        ensures
            ek_serialized(*self, r@),
    {
        let mut r: Vec<(String, FieldValue)> = Vec::new();
        r.push(("alpha_size".to_owned(), FieldValue::Size(self.alpha_size)));
        r.push(("n".to_owned(), FieldValue::Text(big_to_hex(&self.n))));
        r.push(("nn".to_owned(), FieldValue::Text(big_to_hex(&self.nn))));
        r.push(("h".to_owned(), FieldValue::Text(big_to_hex(&self.h))));
        r.push(("hn".to_owned(), FieldValue::Text(big_to_hex(&self.hn))));
        r
    }

    /// A public key from named fields; `ParseError` on an unknown, repeated or
    /// missing field, or a value of the wrong kind.
    pub fn deserialize(fields: &Vec<(String, FieldValue)>) -> (r: Result<EncryptionKey, PaillierError>)
        ensures
            ek_fields_ok(fields@) <==> r is Ok,
            r is Err ==> r == Err::<EncryptionKey, PaillierError>(PaillierError::ParseError),
            r is Ok ==> ({
                let ek = r.unwrap();
                let fs = fields@;
                &&& ek.alpha_size == value_of(fs, "alpha_size"@)->Size_0
                &&& ek.n@ == text_value(value_of(fs, "n"@))
                &&& ek.nn@ == text_value(value_of(fs, "nn"@))
                &&& ek.h@ == text_value(value_of(fs, "h"@))
                &&& ek.hn@ == text_value(value_of(fs, "hn"@))
            }),
    {
        let names = name_list("alpha_size", "n", "nn", "h", "hn");
        if !check_names(fields, &names) {
            return Err(PaillierError::ParseError);
        }
        proof {
            assert(has_key(fields@, names@[0]@));
            assert(has_key(fields@, names@[1]@));
            assert(has_key(fields@, names@[2]@));
            assert(has_key(fields@, names@[3]@));
            assert(has_key(fields@, names@[4]@));
        }
        let alpha_size = match &fields[find(fields, &names[0])].1 {
            FieldValue::Size(v) => *v,
            _ => {
                return Err(PaillierError::ParseError);
            },
        };
        let n = text_number(&fields[find(fields, &names[1])].1)?;
        let nn = text_number(&fields[find(fields, &names[2])].1)?;
        let h = text_number(&fields[find(fields, &names[3])].1)?;
        let hn = text_number(&fields[find(fields, &names[4])].1)?;
        Ok(EncryptionKey { alpha_size, n, nn, h, hn })
    }
}

impl DecryptionKey {
    /// The key as named fields `p`, `q`, `alpha`, `n`, `nn`.
    pub fn serialize(&self) -> (r: Vec<(String, FieldValue)>)
        ensures
            dk_serialized(*self, r@),
    {
        let mut r: Vec<(String, FieldValue)> = Vec::new();
        r.push(("p".to_owned(), FieldValue::Text(big_to_hex(&self.p))));
        r.push(("q".to_owned(), FieldValue::Text(big_to_hex(&self.q))));
        r.push(("alpha".to_owned(), FieldValue::Text(big_to_hex(&self.alpha))));
        r.push(("n".to_owned(), FieldValue::Text(big_to_hex(&self.n))));
        r.push(("nn".to_owned(), FieldValue::Text(big_to_hex(&self.nn))));
        r
    }

    /// A private key from named fields; `ParseError` on an unknown, repeated or
    /// missing field, or a value of the wrong kind.
    pub fn deserialize(fields: &Vec<(String, FieldValue)>) -> (r: Result<DecryptionKey, PaillierError>)
        ensures
            dk_fields_ok(fields@) <==> r is Ok,
            r is Err ==> r == Err::<DecryptionKey, PaillierError>(PaillierError::ParseError),
            r is Ok ==> ({
                let dk = r.unwrap();
                let fs = fields@;
                &&& dk.p@ == text_value(value_of(fs, "p"@))
                &&& dk.q@ == text_value(value_of(fs, "q"@))
                &&& dk.alpha@ == text_value(value_of(fs, "alpha"@))
                &&& dk.n@ == text_value(value_of(fs, "n"@))
                &&& dk.nn@ == text_value(value_of(fs, "nn"@))
            }),
    {
        let names = name_list("p", "q", "alpha", "n", "nn");
        if !check_names(fields, &names) {
            return Err(PaillierError::ParseError);
        }
        proof {
            assert(has_key(fields@, names@[0]@));
            assert(has_key(fields@, names@[1]@));
            assert(has_key(fields@, names@[2]@));
            assert(has_key(fields@, names@[3]@));
            assert(has_key(fields@, names@[4]@));
        }
        let p = text_number(&fields[find(fields, &names[0])].1)?;
        let q = text_number(&fields[find(fields, &names[1])].1)?;
        let alpha = text_number(&fields[find(fields, &names[2])].1)?;
        let n = text_number(&fields[find(fields, &names[3])].1)?;
        let nn = text_number(&fields[find(fields, &names[4])].1)?;
        Ok(DecryptionKey { p, q, alpha, n, nn })
    }
}


/// The value that a list of distinct keys holds under the key at `i`.
proof fn lemma_value_at(fs: Seq<(String, FieldValue)>, i: int)
    requires
        0 <= i < fs.len(),
        forall|x: int, y: int| 0 <= x < y < fs.len() ==> #[trigger] fs[x].0@ != #[trigger] fs[y].0@,
    ensures
        value_of(fs, fs[i].0@) == fs[i].1,
{
    let name = fs[i].0@;
    assert(has_key(fs, name));
    let c = choose|k: int| 0 <= k < fs.len() && #[trigger] fs[k].0@ == name;
    if c < i {
        assert(fs[c].0@ != fs[i].0@);
    } else if c > i {
        assert(fs[i].0@ != fs[c].0@);
    }
}

/// Five distinct names, listed in order, are exactly the keys of fields that carry
/// them in that order.
proof fn lemma_listed_names(fs: Seq<(String, FieldValue)>, names: Seq<Seq<char>>)
    requires
        fs.len() == 5,
        names.len() == 5,
        forall|i: int| 0 <= i < 5 ==> #[trigger] fs[i].0@ == names[i],
        forall|i: int, j: int| 0 <= i < j < 5 ==> #[trigger] names[i] != #[trigger] names[j],
    ensures
        fields_exactly(fs, names),
        forall|i: int| 0 <= i < 5 ==> value_of(fs, #[trigger] names[i]) == fs[i].1,
{
    assert forall|i: int| 0 <= i < fs.len() implies names.contains(#[trigger] fs[i].0@) by {
        assert(names[i] == fs[i].0@);
    }
    assert forall|i: int, j: int| 0 <= i < j < fs.len() implies #[trigger] fs[i].0@ != #[trigger] fs[j].0@ by {
        assert(names[i] != names[j]);
    }
    assert forall|k: int| 0 <= k < names.len() implies has_key(fs, #[trigger] names[k]) by {
        assert(fs[k].0@ == names[k]);
    }
    assert forall|i: int| 0 <= i < 5 implies value_of(fs, #[trigger] names[i]) == fs[i].1 by {
        lemma_value_at(fs, i);
    }
}

/// Key serialization round trip: the fields that `serialize` writes for a public
/// and a private key are read back by `deserialize` as those same keys.
pub proof fn lemma_key_serialization_round_trip(
    ek: EncryptionKey,
    fe: Seq<(String, FieldValue)>,
    dk: DecryptionKey,
    fd: Seq<(String, FieldValue)>,
)
    requires
        ek_serialized(ek, fe),
        dk_serialized(dk, fd),
    ensures
        ek_fields_ok(fe),
        value_of(fe, "alpha_size"@)->Size_0 == ek.alpha_size,
        text_value(value_of(fe, "n"@)) == ek.n@,
        text_value(value_of(fe, "nn"@)) == ek.nn@,
        text_value(value_of(fe, "h"@)) == ek.h@,
        text_value(value_of(fe, "hn"@)) == ek.hn@,
        dk_fields_ok(fd),
        text_value(value_of(fd, "p"@)) == dk.p@,
        text_value(value_of(fd, "q"@)) == dk.q@,
        text_value(value_of(fd, "alpha"@)) == dk.alpha@,
        text_value(value_of(fd, "n"@)) == dk.n@,
        text_value(value_of(fd, "nn"@)) == dk.nn@,
{
    reveal_strlit("alpha_size");
    reveal_strlit("n");
    reveal_strlit("nn");
    reveal_strlit("h");
    reveal_strlit("hn");
    reveal_strlit("p");
    reveal_strlit("q");
    reveal_strlit("alpha");
    let en = ek_names();
    let dn = dk_names();
    assert forall|i: int, j: int| 0 <= i < j < 5 implies #[trigger] en[i] != #[trigger] en[j] by {
        assert(en[i].len() != en[j].len() || en[i][0] != en[j][0]);
    }
    assert forall|i: int, j: int| 0 <= i < j < 5 implies #[trigger] dn[i] != #[trigger] dn[j] by {
        assert(dn[i].len() != dn[j].len() || dn[i][0] != dn[j][0]);
    }
    lemma_listed_names(fe, en);
    lemma_listed_names(fd, dn);
    assert(value_of(fe, en[0]) == fe[0].1);
    assert(value_of(fe, en[1]) == fe[1].1);
    assert(value_of(fe, en[2]) == fe[2].1);
    assert(value_of(fe, en[3]) == fe[3].1);
    assert(value_of(fe, en[4]) == fe[4].1);
    assert(value_of(fd, dn[0]) == fd[0].1);
    assert(value_of(fd, dn[1]) == fd[1].1);
    assert(value_of(fd, dn[2]) == fd[2].1);
    assert(value_of(fd, dn[3]) == fd[3].1);
    assert(value_of(fd, dn[4]) == fd[4].1);
    lemma_hex_round_trip(ek.n@);
    lemma_hex_round_trip(ek.nn@);
    lemma_hex_round_trip(ek.h@);
    lemma_hex_round_trip(ek.hn@);
    lemma_hex_round_trip(dk.p@);
    lemma_hex_round_trip(dk.q@);
    lemma_hex_round_trip(dk.alpha@);
    lemma_hex_round_trip(dk.n@);
    lemma_hex_round_trip(dk.nn@);
}

} // verus!
