//! A fixed-base exponentiation table: `table[i][j] = (g^(2^(i·b)))^j mod modulo`,
//! which turns `g^x mod modulo` into one lookup and one multiplication per
//! `b`-bit block of the exponent.

use vstd::arithmetic::div_mod::{lemma_fundamental_div_mod, lemma_mod_breakdown, lemma_mod_pos_bound, lemma_small_mod};
use vstd::arithmetic::power::{lemma_pow0, lemma_pow1, pow};
use vstd::arithmetic::power2::{lemma2_to64, lemma_pow2, lemma_pow2_adds, lemma_pow2_pos, lemma_pow2_strictly_increases, pow2};
use vstd::prelude::*;

use crate::arith::{
    lemma_bit_of_low_bits, lemma_bit_of_shifted, lemma_low_bits_step, lemma_pow_mod_product,
    lemma_pow_of_reduced_pow,
};
use crate::bignat::{
    all_hex_digits, big_from_hex, big_lt, big_mod_mul, big_mod_pow, big_pow, big_rem, big_test_bit, big_to_hex,
    hex_numeral, hex_value, is_hex_numeral, lemma_hex_round_trip, BigNat,
};
use crate::keys::PaillierError;

verus! {

pub open spec fn min(a: nat, b: nat) -> nat {
    if a <= b {
        a
    } else {
        b
    }
}

/// Number of `block_size`-bit blocks that cover `pow_size` bits.
pub open spec fn num_blocks(pow_size: nat, block_size: nat) -> nat {
    pow_size / block_size + if pow_size % block_size > 0 { 1nat } else { 0nat }
}

/// Block `k` of the low `pow_size` bits of `x`.
pub open spec fn block_of(x: nat, block_size: nat, pow_size: nat, k: nat) -> nat {
    ((x % pow2(pow_size)) / pow2(k * block_size)) % pow2(block_size)
}

/// The value that a table over base `g` holds at row `i`, column `j`.
pub open spec fn table_entry(g: nat, block_size: nat, modulo: nat, i: nat, j: nat) -> nat {
    (pow(g as int, (pow2(i * block_size) * j) as nat) % (modulo as int)) as nat
}

/// The parameters that a table can be built for: at least one bit per block,
/// few enough that a row fits in memory, and exponents that curv's `pow` takes.
pub open spec fn table_params_ok(block_size: nat, pow_size: nat, modulo: nat) -> bool {
    1 <= block_size <= 31 && pow_size + 2 * block_size <= u32::MAX && modulo > 0
}

/// What a table holds, as numbers.
pub ghost struct TableModel {
    pub block_size: nat,
    pub pow_size: nat,
    pub modulo: nat,
    pub entries: Seq<Seq<nat>>,
}

impl TableModel {
    /// `num_blocks + 1` rows of `2^block_size` entries.
    pub open spec fn well_shaped(self) -> bool {
        &&& table_params_ok(self.block_size, self.pow_size, self.modulo)
        &&& self.entries.len() == num_blocks(self.pow_size, self.block_size) + 1
        &&& forall|i: int|
            0 <= i < self.entries.len() ==> #[trigger] self.entries[i].len() == pow2(self.block_size)
    }

    /// Every entry is the power of `g` that its place calls for.
    pub open spec fn built_from(self, g: nat) -> bool {
        &&& self.well_shaped()
        &&& forall|i: int, j: int|
            0 <= i < self.entries.len() && 0 <= j < pow2(self.block_size) ==> #[trigger] self.entries[i][j]
                == table_entry(g, self.block_size, self.modulo, i as nat, j as nat)
    }

    /// The product, reduced, of the entries that the first `k` blocks of `x` select.
    pub open spec fn product_upto(self, x: nat, k: nat) -> nat
        decreases k,
    {
        if k == 0 {
            1nat % self.modulo
        } else {
            (self.product_upto(x, (k - 1) as nat) * self.entries[k - 1][block_of(
                x,
                self.block_size,
                self.pow_size,
                (k - 1) as nat,
            ) as int]) % self.modulo
        }
    }

    /// What the table computes for exponent `x`.
    pub open spec fn product(self, x: nat) -> nat {
        self.product_upto(x, num_blocks(self.pow_size, self.block_size))
    }
}

pub open spec fn rows_model(rows: Seq<Vec<BigNat>>) -> Seq<Seq<nat>> {
    rows.map_values(|row: Vec<BigNat>| row@.map_values(|v: BigNat| v@))
}

#[derive(Debug)]
pub struct PrecomputeTable {
    pow_size: usize,
    block_size: usize,
    modulo: BigNat,
    table: Vec<Vec<BigNat>>,
}

impl View for PrecomputeTable {
    type V = TableModel;

    closed spec fn view(&self) -> TableModel {
        TableModel {
            block_size: self.block_size as nat,
            pow_size: self.pow_size as nat,
            modulo: self.modulo@,
            entries: rows_model(self.table@),
        }
    }
}

/// `2^e` as a machine integer.
fn two_pow(e: usize) -> (r: usize)
    requires
        e <= 31,
    ensures
        r == pow2(e as nat),
{
    proof {
        lemma2_to64();
    }
    let mut r: usize = 1;
    let mut i: usize = 0;
    while i < e
        invariant
            i <= e <= 31,
            r == pow2(i as nat),
        decreases e - i,
    {
        proof {
            lemma2_to64();
            lemma_pow2_adds(i as nat, 1);
            lemma_pow2(1);
            lemma_pow1(2);
            if i + 1 < 31 {
                lemma_pow2_strictly_increases((i + 1) as nat, 31);
            }
            assert(pow2(31) == 0x80000000);
            assert(pow2((i + 1) as nat) == r * 2);
            assert(r * 2 <= 0x80000000);
        }
        r = r * 2;
        i = i + 1;
    }
    r
}

fn block_count(pow_size: usize, block_size: usize) -> (r: usize)
    requires
        block_size >= 1,
        pow_size + 2 * block_size <= u32::MAX,
    ensures
        r == num_blocks(pow_size as nat, block_size as nat),
{
    assert(pow_size / block_size <= pow_size) by (nonlinear_arith)
        requires
            block_size >= 1,
    ;
    pow_size / block_size + if pow_size % block_size > 0 { 1 } else { 0 }
}

/// The covering blocks reach at least as far as `pow_size` bits, and row indices
/// times the block size stay within the bound that `table_params_ok` sets.
proof fn lemma_blocks_cover(pow_size: nat, block_size: nat)
    requires
        block_size >= 1,
    ensures
        num_blocks(pow_size, block_size) * block_size >= pow_size,
        num_blocks(pow_size, block_size) * block_size < pow_size + block_size,
{
    lemma_fundamental_div_mod(pow_size as int, block_size as int);
    lemma_mod_pos_bound(pow_size as int, block_size as int);
    let q = pow_size / block_size;
    let r = pow_size % block_size;
    assert(pow_size == block_size * q + r);
    if r > 0 {
        assert((q + 1) * block_size == block_size * q + block_size) by (nonlinear_arith);
    } else {
        assert(q * block_size == block_size * q) by (nonlinear_arith);
    }
}

proof fn lemma_row_exponent_bound(i: nat, n: nat, b: nat)
    requires
        i <= n,
    ensures
        i * b <= n * b,
{
    assert(i * b <= n * b) by (nonlinear_arith)
        requires
            i <= n,
    ;
}

/// Multiplying in the entry of block `k` extends the product by that block's share of `x`.
#[verifier::spinoff_prover]
proof fn lemma_product_upto(t: TableModel, g: nat, x: nat, k: nat)
    requires
        t.built_from(g),
        k <= num_blocks(t.pow_size, t.block_size),
    ensures
        t.product_upto(x, k) == pow(g as int, (x % pow2(t.pow_size)) % pow2(k * t.block_size)) % (
        t.modulo as int),
    decreases k,
{
    let b = t.block_size;
    let m = t.modulo as int;
    let xl = x % pow2(t.pow_size);
    if k == 0 {
        lemma_pow2(0);
        lemma_pow0(2);
        assert(xl % 1 == 0);
        lemma_pow0(g as int);
    } else {
        let k1 = (k - 1) as nat;
        lemma_product_upto(t, g, x, k1);
        let blk = block_of(x, b, t.pow_size, k1);
        lemma_pow2_pos(b);
        lemma_pow2_pos(k1 * b);
        lemma_pow2_pos(t.pow_size);
        lemma_mod_pos_bound(x as int, pow2(t.pow_size) as int);
        vstd::arithmetic::div_mod::lemma_div_pos_is_pos(xl as int, pow2(k1 * b) as int);
        lemma_mod_pos_bound((xl / pow2(k1 * b)) as int, pow2(b) as int);
        assert(k1 * b + b == k * b) by (nonlinear_arith)
            requires
                k1 + 1 == k,
        ;
        lemma_pow2_adds(k1 * b, b);
        lemma_mod_breakdown(xl as int, pow2(k1 * b) as int, pow2(b) as int);
        let low = xl % pow2(k1 * b);
        assert(0 <= blk < pow2(b));
        assert(t.entries[k1 as int][blk as int] == table_entry(g, b, t.modulo, k1, blk));
        lemma_pow_mod_product(g as int, low, (pow2(k1 * b) * blk) as nat, m);
        assert(xl % pow2(k * b) == low + pow2(k1 * b) * blk);
    }
}

/// Over a table built from `g`, the product for `x` is `g` raised to the low
/// `pow_size` bits of `x`.
pub proof fn lemma_table_product_is_power(t: TableModel, g: nat, x: nat)
    requires
        t.built_from(g),
    ensures
        t.product(x) == pow(g as int, x % pow2(t.pow_size)) % (t.modulo as int),
{
    let nb = num_blocks(t.pow_size, t.block_size);
    lemma_product_upto(t, g, x, nb);
    lemma_blocks_cover(t.pow_size, t.block_size);
    lemma_pow2_pos(t.pow_size);
    lemma_mod_pos_bound(x as int, pow2(t.pow_size) as int);
    if nb * t.block_size > t.pow_size {
        vstd::arithmetic::power::lemma_pow_increases(2, t.pow_size, nb * t.block_size);
        lemma_pow2(t.pow_size);
        lemma_pow2(nb * t.block_size);
    }
    lemma_small_mod(x % pow2(t.pow_size), pow2(nb * t.block_size));
}

/// Table equivalence: tables built from one base with the same parameters, naively
/// or incrementally, compute the same value for every exponent below `2^pow_size`,
/// and that value is `g^x mod modulo`.
pub proof fn lemma_table_equivalence(t1: TableModel, t2: TableModel, g: nat, x: nat)
    requires
        t1.built_from(g),
        t2.built_from(g),
        t1.block_size == t2.block_size,
        t1.pow_size == t2.pow_size,
        t1.modulo == t2.modulo,
        x < pow2(t1.pow_size),
    ensures
        t1.product(x) == t2.product(x),
        t1.product(x) == pow(g as int, x) % (t1.modulo as int),
{
    lemma_tables_of_one_base_agree(t1, t2, g);
    lemma_table_product_is_power(t1, g, x);
    lemma_small_mod(x, pow2(t1.pow_size));
}

/// Two tables built from one base with the same parameters are the same table.
pub proof fn lemma_tables_of_one_base_agree(t1: TableModel, t2: TableModel, g: nat)
    requires
        t1.built_from(g),
        t2.built_from(g),
        t1.block_size == t2.block_size,
        t1.pow_size == t2.pow_size,
        t1.modulo == t2.modulo,
    ensures
        t1 == t2,
{
    assert forall|i: int| 0 <= i < t1.entries.len() implies t1.entries[i] == t2.entries[i] by {
        assert(t1.entries[i] =~= t2.entries[i]);
    }
    assert(t1.entries =~= t2.entries);
}

impl PrecomputeTable {
    /// Shape, parameters and sizes that `compute` relies on; every table has them.
    #[verifier::type_invariant]
    closed spec fn inv(&self) -> bool {
        self@.well_shaped()
    }

    pub closed spec fn wf(&self) -> bool {
        self@.well_shaped()
    }


    /// Rows of the naive build: each entry is computed from scratch from its row's
    /// base `g^(2^(i·b)) mod modulo`.
    fn calculate_table(g: &BigNat, block_size: usize, pow_size: usize, modulo: &BigNat) -> (r: Vec<Vec<BigNat>>)
        requires
            table_params_ok(block_size as nat, pow_size as nat, modulo@),
        ensures
            (TableModel {
                block_size: block_size as nat,
                pow_size: pow_size as nat,
                modulo: modulo@,
                entries: rows_model(r@),
            }).built_from(g@),
    {
        let i_max = block_count(pow_size, block_size);
        let cols = two_pow(block_size);
        let two = BigNat::from_u64(2);
        proof {
            lemma_blocks_cover(pow_size as nat, block_size as nat);
        }
        let mut table: Vec<Vec<BigNat>> = Vec::new();
        let mut i: usize = 0;
        while i <= i_max
            invariant
                table_params_ok(block_size as nat, pow_size as nat, modulo@),
                i_max == num_blocks(pow_size as nat, block_size as nat),
                i_max * block_size < pow_size + block_size,
                cols == pow2(block_size as nat),
                two@ == 2,
                i <= i_max + 1,
                table.len() == i,
                forall|ii: int| 0 <= ii < i ==> #[trigger] table@[ii]@.len() == cols,
                forall|ii: int, j: int|
                    0 <= ii < i && 0 <= j < cols ==> #[trigger] table@[ii]@[j]@ == table_entry(
                        g@,
                        block_size as nat,
                        modulo@,
                        ii as nat,
                        j as nat,
                    ),
            decreases i_max + 1 - i,
        {
            proof {
                lemma_row_exponent_bound(i as nat, i_max as nat, block_size as nat);
            }
            let shift = big_pow(&two, (i * block_size) as u32);
            let base = big_mod_pow(g, &shift, modulo);
            let mut row: Vec<BigNat> = Vec::new();
            let mut j: usize = 0;
            while j < cols
                invariant
                    modulo@ > 0,
                    shift@ == pow2((i * block_size) as nat),
                    base@ == pow(g@ as int, shift@) % (modulo@ as int),
                    j <= cols,
                    row.len() == j,
                    forall|jj: int|
                        0 <= jj < j ==> #[trigger] row@[jj]@ == table_entry(
                            g@,
                            block_size as nat,
                            modulo@,
                            i as nat,
                            jj as nat,
                        ),
                decreases cols - j,
            {
                let e = BigNat::from_u64(j as u64);
                let v = big_mod_pow(&base, &e, modulo);
                proof {
                    lemma_pow_of_reduced_pow(g@ as int, shift@, j as nat, modulo@ as int);
                }
                row.push(v);
                j = j + 1;
            }
            proof {
                lemma_pow2(0);
            }
            table.push(row);
            i = i + 1;
        }
        proof {
            let rows = rows_model(table@);
            assert forall|ii: int, j: int|
                0 <= ii < rows.len() && 0 <= j < pow2(block_size as nat) implies #[trigger] rows[ii][j]
                == table_entry(g@, block_size as nat, modulo@, ii as nat, j as nat) by {
                assert(table@[ii]@[j]@ == table_entry(g@, block_size as nat, modulo@, ii as nat, j as nat));
            }
        }
        table
    }

    /// Rows of the incremental build: row 0 by repeated multiplication by `g`, each
    /// row's generator by raising the previous one to `2^block_size`, and each row by
    /// repeated multiplication by its generator.
    fn calculate_table_dp(g: &BigNat, block_size: usize, pow_size: usize, modulo: &BigNat) -> (r: Vec<Vec<BigNat>>)
        requires
            table_params_ok(block_size as nat, pow_size as nat, modulo@),
        ensures
            (TableModel {
                block_size: block_size as nat,
                pow_size: pow_size as nat,
                modulo: modulo@,
                entries: rows_model(r@),
            }).built_from(g@),
    {
        let i_max = block_count(pow_size, block_size);
        let cols = two_pow(block_size);
        let two = BigNat::from_u64(2);
        let two_pow_b = big_pow(&two, block_size as u32);
        let one = big_rem(&BigNat::from_u64(1), modulo);
        let mut gen = big_rem(g, modulo);
        proof {
            lemma_pow2(block_size as nat);
            lemma_pow2(0);
            lemma_pow1(g@ as int);
            lemma_pow0(g@ as int);
            lemma_pow0(2);
            lemma_pow2_strictly_increases(0, block_size as nat);
            assert(0nat * block_size as nat == 0);
            assert(pow2(0nat * block_size as nat) == 1);
        }
        let mut table: Vec<Vec<BigNat>> = Vec::new();
        let mut i: usize = 0;
        while i <= i_max
            invariant
                table_params_ok(block_size as nat, pow_size as nat, modulo@),
                i_max == num_blocks(pow_size as nat, block_size as nat),
                cols == pow2(block_size as nat),
                cols >= 2,
                two_pow_b@ == pow2(block_size as nat),
                one@ == 1nat % modulo@,
                i <= i_max + 1,
                i <= i_max ==> gen@ == table_entry(g@, block_size as nat, modulo@, i as nat, 1),
                table.len() == i,
                forall|ii: int| 0 <= ii < i ==> #[trigger] table@[ii]@.len() == cols,
                forall|ii: int, j: int|
                    0 <= ii < i && 0 <= j < cols ==> #[trigger] table@[ii]@[j]@ == table_entry(
                        g@,
                        block_size as nat,
                        modulo@,
                        ii as nat,
                        j as nat,
                    ),
            decreases i_max + 1 - i,
        {
            let ghost p = pow2((i * block_size) as nat);
            proof {
                lemma_pow0(g@ as int);
                assert(p * 0 == 0);
                assert(p * 1 == p);
            }
            let mut row: Vec<BigNat> = Vec::new();
            row.push(one.clone());
            row.push(gen.clone());
            let mut j: usize = 2;
            while j < cols
                invariant
                    modulo@ > 0,
                    p == pow2((i * block_size) as nat),
                    gen@ == table_entry(g@, block_size as nat, modulo@, i as nat, 1),
                    2 <= j <= cols,
                    row.len() == j,
                    forall|jj: int|
                        0 <= jj < j ==> #[trigger] row@[jj]@ == table_entry(
                            g@,
                            block_size as nat,
                            modulo@,
                            i as nat,
                            jj as nat,
                        ),
                decreases cols - j,
            {
                let v = big_mod_mul(&row[j - 1], &gen, modulo);
                proof {
                    assert(p * 1 == p);
                    let jm = (j - 1) as nat;
                    assert(p * jm + p == p * (jm + 1)) by (nonlinear_arith);
                    assert(jm + 1 == j);
                    lemma_pow_mod_product(g@ as int, p * jm, p, modulo@ as int);
                }
                row.push(v);
                j = j + 1;
            }
            table.push(row);
            if i < i_max {
                let next = big_mod_pow(&gen, &two_pow_b, modulo);
                proof {
                    assert(p * 1 == p);
                    lemma_pow_of_reduced_pow(g@ as int, p, two_pow_b@, modulo@ as int);
                    assert(i * block_size + block_size == (i + 1) * block_size) by (nonlinear_arith);
                    lemma_pow2_adds((i * block_size) as nat, block_size as nat);
                    assert(pow2(((i + 1) * block_size) as nat) * 1 == pow2(((i + 1) * block_size) as nat));
                }
                gen = next;
            }
            i = i + 1;
        }
        proof {
            let rows = rows_model(table@);
            assert forall|ii: int, j: int|
                0 <= ii < rows.len() && 0 <= j < pow2(block_size as nat) implies #[trigger] rows[ii][j]
                == table_entry(g@, block_size as nat, modulo@, ii as nat, j as nat) by {
                assert(table@[ii]@[j]@ == table_entry(g@, block_size as nat, modulo@, ii as nat, j as nat));
            }
        }
        table
    }

    /// Builds the table of `g` naively: every entry from its row's base.
    pub fn new(g: BigNat, block_size: usize, pow_size: usize, modulo: BigNat) -> (r: Self)
        requires
            table_params_ok(block_size as nat, pow_size as nat, modulo@),
        ensures
            r.wf(),
            r@.built_from(g@),
            r@.block_size == block_size,
            r@.pow_size == pow_size,
            r@.modulo == modulo@,
    {
        let table = Self::calculate_table(&g, block_size, pow_size, &modulo);
        PrecomputeTable { table, block_size, pow_size, modulo }
    }

    /// Builds the table of `g` incrementally; it holds the same entries as `new`.
    pub fn new_dp(g: BigNat, block_size: usize, pow_size: usize, modulo: BigNat) -> (r: Self)
        requires
            table_params_ok(block_size as nat, pow_size as nat, modulo@),
        ensures
            r.wf(),
            r@.built_from(g@),
            r@.block_size == block_size,
            r@.pow_size == pow_size,
            r@.modulo == modulo@,
    {
        let table = Self::calculate_table_dp(&g, block_size, pow_size, &modulo);
        PrecomputeTable { table, block_size, pow_size, modulo }
    }

    /// The blocks of the low `pow_size` bits of `x`, least significant block first.
    fn convert_into_block(&self, x: &BigNat) -> (r: Vec<usize>)
        requires
            self.wf(),
        ensures
            r@.len() == num_blocks(self@.pow_size, self@.block_size),
            forall|k: int|
                0 <= k < r@.len() ==> #[trigger] r@[k] == block_of(
                    x@,
                    self@.block_size,
                    self@.pow_size,
                    k as nat,
                ),
    {
        let b = self.block_size;
        let ps = self.pow_size;
        let nb = block_count(ps, b);
        proof {
            lemma_blocks_cover(ps as nat, b as nat);
            lemma_pow2_pos(ps as nat);
        }
        let mut result: Vec<usize> = Vec::new();
        let mut k: usize = 0;
        while k < nb
            invariant
                self.wf(),
                b == self.block_size,
                ps == self.pow_size,
                nb == num_blocks(ps as nat, b as nat),
                nb * b < ps + b,
                ps + 2 * b <= u32::MAX,
                1 <= b <= 31,
                k <= nb,
                result@.len() == k,
                forall|kk: int|
                    0 <= kk < k ==> #[trigger] result@[kk] == block_of(x@, b as nat, ps as nat, kk as nat),
            decreases nb - k,
        {
            proof {
                lemma_row_exponent_bound(k as nat, nb as nat, b as nat);
            }
            let base = k * b;
            let ghost y = (x@ % pow2(ps as nat)) / pow2(base as nat);
            let mut v: usize = 0;
            let mut bit: usize = 1;
            let mut t: usize = 0;
            proof {
                lemma_pow2(0);
                lemma_pow0(2);
                assert(y % 1 == 0);
            }
            while t < b
                invariant
                    1 <= b <= 31,
                    t <= b,
                    base + b <= u32::MAX,
                    bit == pow2(t as nat),
                    y == (x@ % pow2(ps as nat)) / pow2(base as nat),
                    v == y % pow2(t as nat),
                decreases b - t,
            {
                proof {
                    lemma2_to64();
                    lemma_pow2_pos(t as nat);
                    lemma_mod_pos_bound(y as int, pow2(t as nat) as int);
                    lemma_low_bits_step(y, t as nat);
                    lemma_bit_of_shifted(x@ % pow2(ps as nat), base as nat, t as nat);
                    lemma_bit_of_low_bits(x@, ps as nat, (base + t) as nat);
                    lemma_pow2_adds(t as nat, 1);
                    lemma_pow2(1);
                    lemma_pow1(2);
                    if t + 1 < 31 {
                        lemma_pow2_strictly_increases((t + 1) as nat, 31);
                    }
                    assert(pow2((t + 1) as nat) == bit * 2);
                    assert(bit * 2 <= 0x80000000);
                }
                if base + t < ps && big_test_bit(x, base + t) {
                    v = v + bit;
                }
                bit = bit * 2;
                t = t + 1;
            }
            result.push(v);
            k = k + 1;
        }
        result
    }

    /// An estimate of the table's memory: the number of entries times the size of one
    /// entry's handle, saturated at `usize::MAX`.
    pub fn size_in_bytes(&self) -> (r: usize)
        ensures
            r as nat == min(
                (self@.entries.len() * pow2(self@.block_size) * vstd::layout::size_of::<BigNat>()) as nat,
                usize::MAX as nat,
            ),
    {
        proof {
            use_type_invariant(self);
        }
        let elem = std::mem::size_of::<BigNat>();
        let ghost row_bytes: nat = pow2(self.block_size as nat) * elem as nat;
        let mut size: usize = 0;
        let mut i: usize = 0;
        while i < self.table.len()
            invariant
                self.wf(),
                elem as nat == vstd::layout::size_of::<BigNat>(),
                row_bytes == pow2(self.block_size as nat) * elem as nat,
                i <= self.table.len(),
                size as nat == min((i * row_bytes) as nat, usize::MAX as nat),
            decreases self.table.len() - i,
        {
            let len = self.table[i].len();
            assert(self@.entries[i as int].len() == pow2(self.block_size as nat));
            let row: usize = if elem != 0 && len > usize::MAX / elem {
                proof {
                    assert(len * elem > usize::MAX) by (nonlinear_arith)
                        requires
                            elem > 0,
                            len > usize::MAX / elem,
                    ;
                }
                usize::MAX
            } else {
                proof {
                    assert(len * elem <= usize::MAX) by (nonlinear_arith)
                        requires
                            elem == 0 || len <= usize::MAX / elem,
                    ;
                }
                len * elem
            };
            proof {
                assert((i + 1) * row_bytes == i * row_bytes + row_bytes) by (nonlinear_arith);
            }
            size = if size > usize::MAX - row {
                usize::MAX
            } else {
                size + row
            };
            i = i + 1;
        }
        proof {
            let k = self@.entries.len();
            let pb = pow2(self.block_size as nat);
            let sz = vstd::layout::size_of::<BigNat>();
            assert(k == i);
            assert(i * row_bytes == k * pb * sz) by (nonlinear_arith)
                requires
                    row_bytes == pb * sz,
                    k == i,
            ;
        }
        size
    }

    /// The blocks of the low `pow_size` bits of `x`, least significant block first.
    pub fn blocks(&self, x: &BigNat) -> (r: Vec<usize>)
        ensures
            r@.len() == num_blocks(self@.pow_size, self@.block_size),
            forall|k: int|
                0 <= k < r@.len() ==> #[trigger] r@[k] == block_of(
                    x@,
                    self@.block_size,
                    self@.pow_size,
                    k as nat,
                ),
    {
        proof {
            use_type_invariant(self);
        }
        self.convert_into_block(x)
    }

    /// `g^x mod modulo` for the base `g` that the table was built from, `x` taken
    /// to its low `pow_size` bits.
    pub fn compute(&self, exponent: &BigNat) -> (r: BigNat)
        ensures
            r@ == self@.product(exponent@),
            forall|g: nat| #[trigger] self@.built_from(g) ==> r@ == pow(g as int, exponent@ % pow2(self@.pow_size))
                % (self@.modulo as int),
    {
        proof {
            use_type_invariant(self);
        }
        let pow_blocks = self.convert_into_block(exponent);
        let mut result = big_rem(&BigNat::from_u64(1), &self.modulo);
        let mut id: usize = 0;
        while id < pow_blocks.len()
            invariant
                self.wf(),
                pow_blocks@.len() == num_blocks(self@.pow_size, self@.block_size),
                forall|k: int|
                    0 <= k < pow_blocks@.len() ==> #[trigger] pow_blocks@[k] == block_of(
                        exponent@,
                        self@.block_size,
                        self@.pow_size,
                        k as nat,
                    ),
                id <= pow_blocks.len(),
                result@ == self@.product_upto(exponent@, id as nat),
            decreases pow_blocks.len() - id,
        {
            proof {
                lemma_pow2_pos(self.block_size as nat);
                lemma_pow2_pos(id as nat * self.block_size as nat);
                lemma_pow2_pos(self.pow_size as nat);
                lemma_mod_pos_bound(exponent@ as int, pow2(self.pow_size as nat) as int);
                vstd::arithmetic::div_mod::lemma_div_pos_is_pos(
                    (exponent@ % pow2(self.pow_size as nat)) as int,
                    pow2(id as nat * self.block_size as nat) as int,
                );
                lemma_mod_pos_bound(
                    ((exponent@ % pow2(self.pow_size as nat)) / pow2(id as nat * self.block_size as nat)) as int,
                    pow2(self.block_size as nat) as int,
                );
                assert(self@.entries[id as int].len() == pow2(self.block_size as nat));
            }
            let entry = &self.table[id][pow_blocks[id]];
            result = big_mod_mul(&result, entry, &self.modulo);
            id = id + 1;
        }
        proof {
            assert forall|g: nat| #[trigger] self@.built_from(g) implies result@ == pow(
                g as int,
                exponent@ % pow2(self@.pow_size),
            ) % (self@.modulo as int) by {
                lemma_table_product_is_power(self@, g, exponent@);
            }
        }
        result
    }
}


/// The value of one field of a serialized record.
#[derive(Debug)]
pub enum FieldValue {
    Size(usize),
    Text(String),
    Grid(Vec<Vec<String>>),
}

/// The four fields of a serialized table.
pub open spec fn is_field_name(k: Seq<char>) -> bool {
    k == "block_size"@ || k == "pow_size"@ || k == "modulo"@ || k == "table"@
}

pub open spec fn has_key(fs: Seq<(String, FieldValue)>, name: Seq<char>) -> bool {
    exists|i: int| 0 <= i < fs.len() && #[trigger] fs[i].0@ == name
}

/// Every key is one of the four fields, none repeats, and none is missing.
pub open spec fn keys_ok(fs: Seq<(String, FieldValue)>) -> bool {
    &&& forall|i: int| 0 <= i < fs.len() ==> is_field_name(#[trigger] fs[i].0@)
    &&& forall|i: int, j: int| 0 <= i < j < fs.len() ==> #[trigger] fs[i].0@ != #[trigger] fs[j].0@
    &&& has_key(fs, "block_size"@)
    &&& has_key(fs, "pow_size"@)
    &&& has_key(fs, "modulo"@)
    &&& has_key(fs, "table"@)
}

/// The value of the field named `name`.
pub open spec fn value_of(fs: Seq<(String, FieldValue)>, name: Seq<char>) -> FieldValue {
    fs[choose|i: int| 0 <= i < fs.len() && #[trigger] fs[i].0@ == name].1
}

pub open spec fn row_text(row: Vec<String>) -> Seq<Seq<char>> {
    row@.map_values(|t: String| t@)
}

pub open spec fn grid_text(g: Vec<Vec<String>>) -> Seq<Seq<Seq<char>>> {
    g@.map_values(|row: Vec<String>| row_text(row))
}

pub open spec fn grid_is_hex(g: Seq<Seq<Seq<char>>>) -> bool {
    forall|i: int, j: int|
        0 <= i < g.len() && 0 <= j < g[i].len() ==> #[trigger] g[i][j].len() > 0 && all_hex_digits(g[i][j])
}

pub open spec fn grid_values(g: Seq<Seq<Seq<char>>>) -> Seq<Seq<nat>> {
    g.map_values(|row: Seq<Seq<char>>| row.map_values(|t: Seq<char>| hex_value(t)))
}

/// The table that a list of fields describes, where its keys and values are
/// well formed: sizes as sizes, the modulus and every entry as hexadecimal numerals.
pub open spec fn decoded(fs: Seq<(String, FieldValue)>) -> Option<TableModel> {
    if keys_ok(fs) && value_of(fs, "block_size"@) is Size && value_of(fs, "pow_size"@) is Size && value_of(
        fs,
        "modulo"@,
    ) is Text && value_of(fs, "table"@) is Grid && value_of(fs, "modulo"@)->Text_0@.len() > 0
        && all_hex_digits(value_of(fs, "modulo"@)->Text_0@) && grid_is_hex(
        grid_text(value_of(fs, "table"@)->Grid_0),
    ) {
        Some(
            TableModel {
                block_size: value_of(fs, "block_size"@)->Size_0 as nat,
                pow_size: value_of(fs, "pow_size"@)->Size_0 as nat,
                modulo: hex_value(value_of(fs, "modulo"@)->Text_0@),
                entries: grid_values(grid_text(value_of(fs, "table"@)->Grid_0)),
            },
        )
    } else {
        None
    }
}

/// The fields as `serialize` writes them, in the order `block_size`, `pow_size`,
/// `modulo`, `table`.
pub open spec fn serialized_fields(t: TableModel, fs: Seq<(String, FieldValue)>) -> bool {
    &&& fs.len() == 4
    &&& fs[0].0@ == "block_size"@ && fs[0].1 is Size && fs[0].1->Size_0 == t.block_size
    &&& fs[1].0@ == "pow_size"@ && fs[1].1 is Size && fs[1].1->Size_0 == t.pow_size
    &&& fs[2].0@ == "modulo"@ && fs[2].1 is Text && fs[2].1->Text_0@ == hex_numeral(t.modulo)
    &&& fs[3].0@ == "table"@ && fs[3].1 is Grid && grid_text(fs[3].1->Grid_0) == t.entries.map_values(
        |row: Seq<nat>| row.map_values(|v: nat| hex_numeral(v)),
    )
}

/// What `deserialize` returns for a list of fields: the decoded table where it is well
/// shaped, `ParseError` otherwise.
pub open spec fn deserialize_outcome(fs: Seq<(String, FieldValue)>, r: Result<PrecomputeTable, PaillierError>) -> bool {
    match decoded(fs) {
        Some(t) => if t.well_shaped() {
            r is Ok && r.unwrap()@ == t
        } else {
            r == Err::<PrecomputeTable, PaillierError>(PaillierError::ParseError)
        },
        None => r == Err::<PrecomputeTable, PaillierError>(PaillierError::ParseError),
    }
}

/// Parses every numeral of a grid that `grid_is_hex` accepts.
fn parse_grid(g: &Vec<Vec<String>>) -> (r: Option<Vec<Vec<BigNat>>>)
    ensures
        grid_is_hex(grid_text(*g)) <==> r is Some,
        r is Some ==> rows_model(r.unwrap()@) == grid_values(grid_text(*g)),
{
    let mut out: Vec<Vec<BigNat>> = Vec::new();
    let mut i: usize = 0;
    while i < g.len()
        invariant
            i <= g.len(),
            out@.len() == i,
            forall|a: int, b: int|
                0 <= a < i && 0 <= b < g@[a]@.len() ==> #[trigger] g@[a]@[b]@.len() > 0 && all_hex_digits(
                    g@[a]@[b]@,
                ),
            forall|a: int| 0 <= a < i ==> #[trigger] out@[a]@.len() == g@[a]@.len(),
            forall|a: int, b: int|
                0 <= a < i && 0 <= b < g@[a]@.len() ==> #[trigger] out@[a]@[b]@ == hex_value(g@[a]@[b]@),
        decreases g.len() - i,
    {
        let row = &g[i];
        let mut parsed: Vec<BigNat> = Vec::new();
        let mut j: usize = 0;
        while j < row.len()
            invariant
                i < g@.len(),
                row@ == g@[i as int]@,
                j <= row.len(),
                parsed@.len() == j,
                forall|b: int| 0 <= b < j ==> #[trigger] row@[b]@.len() > 0 && all_hex_digits(row@[b]@),
                forall|b: int| 0 <= b < j ==> #[trigger] parsed@[b]@ == hex_value(row@[b]@),
            decreases row.len() - j,
        {
            let text = row[j].as_str();
            if !is_hex_numeral(text) {
                proof {
                    let gt = grid_text(*g);
                    assert(gt[i as int] == row_text(g@[i as int]));
                    assert(gt[i as int][j as int] == row@[j as int]@);
                }
                return None;
            }
            match big_from_hex(text) {
                Some(v) => parsed.push(v),
                None => {
                    proof {
                        assert(false);
                    }
                    return None;
                },
            }
            j = j + 1;
        }
        out.push(parsed);
        i = i + 1;
    }
    proof {
        let gt = grid_text(*g);
        assert forall|a: int, b: int| 0 <= a < gt.len() && 0 <= b < gt[a].len() implies #[trigger] gt[a][b].len()
            > 0 && all_hex_digits(gt[a][b]) by {
            assert(gt[a] == row_text(g@[a]));
            assert(gt[a][b] == g@[a]@[b]@);
        }
        let rm = rows_model(out@);
        let gv = grid_values(gt);
        assert forall|a: int| 0 <= a < rm.len() implies rm[a] == gv[a] by {
            assert(gt[a] == row_text(g@[a]));
            assert(rm[a] =~= gv[a]);
        }
        assert(rm =~= gv);
    }
    Some(out)
}

impl PrecomputeTable {
    /// The table as named fields: the sizes, and the modulus and every entry as
    /// lower-case hexadecimal numerals.
    pub fn serialize(&self) -> (r: Vec<(String, FieldValue)>)
        ensures
            serialized_fields(self@, r@),
            self@.well_shaped(),
    {
        proof {
            use_type_invariant(self);
        }
        let mut grid: Vec<Vec<String>> = Vec::new();
        let mut i: usize = 0;
        while i < self.table.len()
            invariant
                i <= self.table.len(),
                grid@.len() == i,
                forall|a: int| 0 <= a < i ==> #[trigger] grid@[a]@.len() == self.table@[a]@.len(),
                forall|a: int, b: int|
                    0 <= a < i && 0 <= b < self.table@[a]@.len() ==> #[trigger] grid@[a]@[b]@ == hex_numeral(
                        self.table@[a]@[b]@,
                    ),
            decreases self.table.len() - i,
        {
            let row = &self.table[i];
            let mut texts: Vec<String> = Vec::new();
            let mut j: usize = 0;
            while j < row.len()
                invariant
                    j <= row.len(),
                    texts@.len() == j,
                    forall|b: int| 0 <= b < j ==> #[trigger] texts@[b]@ == hex_numeral(row@[b]@),
                decreases row.len() - j,
            {
                texts.push(big_to_hex(&row[j]));
                j = j + 1;
            }
            grid.push(texts);
            i = i + 1;
        }
        let mut fields: Vec<(String, FieldValue)> = Vec::new();
        fields.push(("block_size".to_owned(), FieldValue::Size(self.block_size)));
        fields.push(("pow_size".to_owned(), FieldValue::Size(self.pow_size)));
        fields.push(("modulo".to_owned(), FieldValue::Text(big_to_hex(&self.modulo))));
        proof {
            let gt = grid_text(grid);
            let want = self@.entries.map_values(|row: Seq<nat>| row.map_values(|v: nat| hex_numeral(v)));
            assert forall|a: int| 0 <= a < gt.len() implies gt[a] == want[a] by {
                assert(gt[a] == row_text(grid@[a]));
                assert(gt[a] =~= want[a]);
            }
            assert(gt =~= want);
        }
        fields.push(("table".to_owned(), FieldValue::Grid(grid)));
        fields
    }

    /// A table from named fields. Fails with `ParseError` on an unknown, repeated or
    /// missing field, a value of the wrong kind, a numeral that is not hexadecimal,
    /// or sizes and rows that do not make a table.
    pub fn deserialize(fields: &Vec<(String, FieldValue)>) -> (r: Result<PrecomputeTable, PaillierError>)
        ensures
            deserialize_outcome(fields@, r),
    {
        let n_block = "block_size".to_owned();
        let n_pow = "pow_size".to_owned();
        let n_modulo = "modulo".to_owned();
        let n_table = "table".to_owned();
        let mut i_block: Option<usize> = None;
        let mut i_pow: Option<usize> = None;
        let mut i_modulo: Option<usize> = None;
        let mut i_table: Option<usize> = None;
        let ghost fs = fields@;
        proof {
            reveal_strlit("block_size");
            reveal_strlit("pow_size");
            reveal_strlit("modulo");
            reveal_strlit("table");
        }
        let mut i: usize = 0;
        while i < fields.len()
            invariant
                fs == fields@,
                n_block@ == "block_size"@,
                n_pow@ == "pow_size"@,
                n_modulo@ == "modulo"@,
                n_table@ == "table"@,
                i <= fs.len(),
                forall|k: int| 0 <= k < i ==> is_field_name(#[trigger] fs[k].0@),
                forall|a: int, b: int| 0 <= a < b < i ==> #[trigger] fs[a].0@ != #[trigger] fs[b].0@,
                i_block is Some <==> exists|k: int| 0 <= k < i && #[trigger] fs[k].0@ == "block_size"@,
                i_block is Some ==> i_block.unwrap() < i && fs[i_block.unwrap() as int].0@ == "block_size"@,
                i_pow is Some <==> exists|k: int| 0 <= k < i && #[trigger] fs[k].0@ == "pow_size"@,
                i_pow is Some ==> i_pow.unwrap() < i && fs[i_pow.unwrap() as int].0@ == "pow_size"@,
                i_modulo is Some <==> exists|k: int| 0 <= k < i && #[trigger] fs[k].0@ == "modulo"@,
                i_modulo is Some ==> i_modulo.unwrap() < i && fs[i_modulo.unwrap() as int].0@ == "modulo"@,
                i_table is Some <==> exists|k: int| 0 <= k < i && #[trigger] fs[k].0@ == "table"@,
                i_table is Some ==> i_table.unwrap() < i && fs[i_table.unwrap() as int].0@ == "table"@,
            decreases fs.len() - i,
        {
            proof {
                reveal_strlit("block_size");
                reveal_strlit("pow_size");
                reveal_strlit("modulo");
                reveal_strlit("table");
                assert("block_size"@.len() == 10);
                assert("pow_size"@.len() == 8);
                assert("modulo"@.len() == 6);
                assert("table"@.len() == 5);
            }
            let key = &fields[i].0;
            if *key == n_block {
                if i_block.is_some() {
                    proof {
                        assert(!keys_ok(fs));
                    }
                    return Err(PaillierError::ParseError);
                }
                i_block = Some(i);
            } else if *key == n_pow {
                if i_pow.is_some() {
                    proof {
                        assert(!keys_ok(fs));
                    }
                    return Err(PaillierError::ParseError);
                }
                i_pow = Some(i);
            } else if *key == n_modulo {
                if i_modulo.is_some() {
                    proof {
                        assert(!keys_ok(fs));
                    }
                    return Err(PaillierError::ParseError);
                }
                i_modulo = Some(i);
            } else if *key == n_table {
                if i_table.is_some() {
                    proof {
                        assert(!keys_ok(fs));
                    }
                    return Err(PaillierError::ParseError);
                }
                i_table = Some(i);
            } else {
                proof {
                    assert(!is_field_name(fs[i as int].0@));
                }
                return Err(PaillierError::ParseError);
            }
            i = i + 1;
        }
        let (ib, ip, im, it) = match (i_block, i_pow, i_modulo, i_table) {
            (Some(a), Some(b), Some(c), Some(d)) => (a, b, c, d),
            _ => {
                return Err(PaillierError::ParseError);
            },
        };
        proof {
            assert(keys_ok(fs));
            assert(value_of(fs, "block_size"@) == fs[ib as int].1);
            assert(value_of(fs, "pow_size"@) == fs[ip as int].1);
            assert(value_of(fs, "modulo"@) == fs[im as int].1);
            assert(value_of(fs, "table"@) == fs[it as int].1);
        }
        let block_size = match &fields[ib].1 {
            FieldValue::Size(v) => *v,
            _ => {
                return Err(PaillierError::ParseError);
            },
        };
        let pow_size = match &fields[ip].1 {
            FieldValue::Size(v) => *v,
            _ => {
                return Err(PaillierError::ParseError);
            },
        };
        let modulo = match &fields[im].1 {
            FieldValue::Text(text) => {
                if !is_hex_numeral(text.as_str()) {
                    return Err(PaillierError::ParseError);
                }
                match big_from_hex(text.as_str()) {
                    Some(v) => v,
                    None => {
                        return Err(PaillierError::ParseError);
                    },
                }
            },
            _ => {
                return Err(PaillierError::ParseError);
            },
        };
        let table = match &fields[it].1 {
            FieldValue::Grid(g) => match parse_grid(g) {
                Some(t) => t,
                None => {
                    return Err(PaillierError::ParseError);
                },
            },
            _ => {
                return Err(PaillierError::ParseError);
            },
        };
        // shape
        let zero = BigNat::from_u64(0);
        if block_size < 1 || block_size > 31 || pow_size > 0xffff_ffff - 2 * block_size || !big_lt(&zero, &modulo) {
            return Err(PaillierError::ParseError);
        }
        let rows = block_count(pow_size, block_size);
        let cols = two_pow(block_size);
        if table.len() != rows + 1 {
            return Err(PaillierError::ParseError);
        }
        proof {
            assert(decoded(fs) is Some);
            assert(decoded(fs).unwrap().entries == rows_model(table@));
        }
        let mut k: usize = 0;
        while k < table.len()
            invariant
                fs == fields@,
                decoded(fs) is Some,
                decoded(fs).unwrap().entries == rows_model(table@),
                decoded(fs).unwrap().block_size == block_size,
                k <= table.len(),
                cols == pow2(block_size as nat),
                forall|a: int| 0 <= a < k ==> #[trigger] table@[a]@.len() == cols,
            decreases table.len() - k,
        {
            if table[k].len() != cols {
                proof {
                    let t = decoded(fs).unwrap();
                    assert(rows_model(table@)[k as int].len() != pow2(block_size as nat));
                    assert(t.entries[k as int].len() != pow2(t.block_size));
                    assert(!t.well_shaped());
                }
                return Err(PaillierError::ParseError);
            }
            k = k + 1;
        }
        let r = PrecomputeTable { pow_size, block_size, modulo, table };
        proof {
            assert(r@ =~= decoded(fs).unwrap());
        }
        Ok(r)
    }
}


/// Table serialization round trip: the fields that `serialize` writes for a table
/// decode to that same table, entry for entry; with the contract of `deserialize`
/// (a well-shaped decoded table is returned as it is), `deserialize(serialize(t))`
/// is `t`.
pub proof fn lemma_table_serialization_round_trip(t: TableModel, fs: Seq<(String, FieldValue)>)
    requires
        t.well_shaped(),
        serialized_fields(t, fs),
    ensures
        decoded(fs) == Some(t),
{
    reveal_strlit("block_size");
    reveal_strlit("pow_size");
    reveal_strlit("modulo");
    reveal_strlit("table");
    assert("block_size"@.len() == 10);
    assert("pow_size"@.len() == 8);
    assert("modulo"@.len() == 6);
    assert("table"@.len() == 5);
    assert(fs[0].0@ == "block_size"@);
    assert(fs[1].0@ == "pow_size"@);
    assert(fs[2].0@ == "modulo"@);
    assert(fs[3].0@ == "table"@);
    assert(has_key(fs, "block_size"@));
    assert(has_key(fs, "pow_size"@));
    assert(has_key(fs, "modulo"@));
    assert(has_key(fs, "table"@));
    assert(keys_ok(fs));
    assert(value_of(fs, "block_size"@) == fs[0].1);
    assert(value_of(fs, "pow_size"@) == fs[1].1);
    assert(value_of(fs, "modulo"@) == fs[2].1);
    assert(value_of(fs, "table"@) == fs[3].1);
    lemma_hex_round_trip(t.modulo);
    let gt = grid_text(fs[3].1->Grid_0);
    assert forall|i: int, j: int| 0 <= i < gt.len() && 0 <= j < gt[i].len() implies #[trigger] gt[i][j].len() > 0
        && all_hex_digits(gt[i][j]) by {
        lemma_hex_round_trip(t.entries[i][j]);
    }
    let gv = grid_values(gt);
    assert forall|i: int| 0 <= i < gv.len() implies gv[i] == t.entries[i] by {
        assert forall|j: int| 0 <= j < gv[i].len() implies gv[i][j] == t.entries[i][j] by {
            lemma_hex_round_trip(t.entries[i][j]);
        }
        assert(gv[i] =~= t.entries[i]);
    }
    assert(gv =~= t.entries);
}


/// `deserialize(serialize(t)) == t`: whatever `deserialize` returns on the fields that
/// `serialize` wrote for a table is that table.
pub proof fn lemma_table_deserialize_of_serialize(
    t: TableModel,
    fs: Seq<(String, FieldValue)>,
    r: Result<PrecomputeTable, PaillierError>,
)
    requires
        t.well_shaped(),
        serialized_fields(t, fs),
        deserialize_outcome(fs, r),
    ensures
        r is Ok && r.unwrap()@ == t,
{
    lemma_table_serialization_round_trip(t, fs);
}

} // verus!
