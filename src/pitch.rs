use vstd::prelude::*;

verus! {

/// Number of key identifiers that carry a pitch; valid identifiers are `0..MAX_SCANCODE`.
pub const MAX_SCANCODE: usize = 64;

/// `b` raised to the `e`-th power.
pub open spec fn power(b: nat, e: nat) -> nat
    decreases e,
{
    if e == 0 {
        1
    } else {
        b * power(b, (e - 1) as nat)
    }
}

/// Integer division rounding toward zero, as Rust's `/` does on signed integers.
pub open spec fn trunc_div(a: int, d: int) -> int {
    if a >= 0 {
        a / d
    } else {
        -((-a) / d)
    }
}

/// Remainder that goes with `trunc_div`: it has the sign of `a`, as Rust's `%` does.
pub open spec fn trunc_rem(a: int, d: int) -> int {
    a - d * trunc_div(a, d)
}

pub open spec fn valid_key(k: int) -> bool {
    0 <= k < MAX_SCANCODE
}

/// Row of key `k` on the lattice: one row up is a perfect fifth.
pub open spec fn row_of(k: int) -> int {
    trunc_div(53 - k, 13)
}

/// Column of key `k` on the lattice: one column right is a perfect fourth.
pub open spec fn column_of(k: int) -> int {
    trunc_rem(k - 5 + row_of(k), 13) - row_of(k)
}

/// Numerator of `100 * (3/2)^row * (4/3)^column`.
pub open spec fn lattice_num(row: int, col: int) -> int {
    (100 * power(3, row as nat) * (if col >= 0 {
        power(4, col as nat)
    } else {
        power(3, (-col) as nat)
    })) as int
}

/// Denominator of `100 * (3/2)^row * (4/3)^column`.
pub open spec fn lattice_den(row: int, col: int) -> int {
    (power(2, row as nat) * (if col >= 0 {
        power(3, col as nat)
    } else {
        power(4, (-col) as nat)
    })) as int
}

/// A frequency in hertz, held exactly as the fraction `num / den`.
#[derive(Clone, Copy, Debug, PartialEq, Eq, Structural)]
pub struct Frequency {
    pub num: u64,
    pub den: u64,
}

/// Numerator of the pitch of key `k`, in hertz.
pub open spec fn pitch_num(k: int) -> int {
    lattice_num(row_of(k), column_of(k))
}

/// Denominator of the pitch of key `k`, in hertz.
pub open spec fn pitch_den(k: int) -> int {
    lattice_den(row_of(k), column_of(k))
}

impl Frequency {
    /// This value is exactly the pitch of key `k`.
    pub open spec fn is_pitch_of(self, k: int) -> bool {
        self.num == pitch_num(k) && self.den == pitch_den(k)
    }
}

proof fn lemma_row_column_range(k: int)
    requires
        valid_key(k),
    ensures
        0 <= row_of(k) <= 4,
        -5 <= column_of(k) <= 12,
{
}

proof fn lemma_power_base_le(b: nat, c: nat, e: nat)
    requires
        b <= c,
    ensures
        power(b, e) <= power(c, e),
    decreases e,
{
    if e > 0 {
        lemma_power_base_le(b, c, (e - 1) as nat);
        let pb = power(b, (e - 1) as nat);
        let pc = power(c, (e - 1) as nat);
        assert(b * pb <= c * pc) by (nonlinear_arith)
            requires
                b <= c,
                pb <= pc,
        ;
    }
}

proof fn lemma_power_exp_le(b: nat, e1: nat, e2: nat)
    requires
        b >= 1,
        e1 <= e2,
    ensures
        power(b, e1) <= power(b, e2),
    decreases e2,
{
    if e1 < e2 {
        lemma_power_exp_le(b, e1, (e2 - 1) as nat);
        let p = power(b, (e2 - 1) as nat);
        assert(p <= b * p) by (nonlinear_arith)
            requires
                b >= 1,
        ;
    }
}

proof fn lemma_small_power_bound(b: nat, e: nat)
    requires
        b <= 4,
        e <= 12,
    ensures
        power(b, e) <= 16777216,
{
    lemma_power_base_le(b, 4, e);
    lemma_power_exp_le(4, e, 12);
    reveal_with_fuel(power, 13);
    assert(power(4, 12) == 16777216);
}

/// `b^e` for the small bases and exponents of the lattice.
fn small_power(b: u64, e: u64) -> (r: u64)
    requires
        b <= 4,
        e <= 12,
    ensures
        r == power(b as nat, e as nat),
        r <= 16777216,
{
    let mut acc: u64 = 1;
    let mut i: u64 = 0;
    while i < e
        invariant
            b <= 4,
            i <= e <= 12,
            acc == power(b as nat, i as nat),
        decreases e - i,
    {
        proof {
            lemma_small_power_bound(b as nat, (i + 1) as nat);
            assert(power(b as nat, (i + 1) as nat) == b * power(b as nat, i as nat));
            assert(acc * b == b * acc) by (nonlinear_arith);
        }
        acc = acc * b;
        i = i + 1;
    }
    proof {
        lemma_small_power_bound(b as nat, e as nat);
    }
    acc
}

/// Row of key `scancode`, with the truncating division of signed integers.
pub fn key_row(scancode: i32) -> (r: i32)
    requires
        valid_key(scancode as int),
    ensures
        r == row_of(scancode as int),
        0 <= r <= 4,
{
    proof {
        lemma_row_column_range(scancode as int);
    }
    let a: i32 = 53 - scancode;
    if a >= 0 {
        a / 13
    } else {
        -((-a) / 13)
    }
}

/// Column of key `scancode`, with the truncating remainder of signed integers.
pub fn key_column(scancode: i32) -> (r: i32)
    requires
        valid_key(scancode as int),
    ensures
        r == column_of(scancode as int),
        -5 <= r <= 12,
{
    proof {
        lemma_row_column_range(scancode as int);
    }
    let row = key_row(scancode);
    let s: i32 = scancode - 5 + row;
    let rem: i32 = if s >= 0 {
        s % 13
    } else {
        -((-s) % 13)
    };
    rem - row
}

/// Pitch of key `scancode`: `100 * 1.5^row * (4/3)^column` hertz, exactly.
pub fn scancode_to_frequency(scancode: i32) -> (r: Frequency)
    requires
        valid_key(scancode as int),
    ensures
        r.is_pitch_of(scancode as int),
        r.den > 0,
{
    let row = key_row(scancode);
    let column = key_column(scancode);
    let rise3 = small_power(3, row as u64);
    let rise2 = small_power(2, row as u64);
    let (cn, cd) = if column >= 0 {
        (small_power(4, column as u64), small_power(3, column as u64))
    } else {
        (small_power(3, (-column) as u64), small_power(4, (-column) as u64))
    };
    assert(100 * rise3 * cn <= 100 * 16777216 * 16777216) by (nonlinear_arith)
        requires
            rise3 <= 16777216,
            cn <= 16777216,
    ;
    assert(rise2 * cd <= 16777216 * 16777216) by (nonlinear_arith)
        requires
            rise2 <= 16777216,
            cd <= 16777216,
    ;
    proof {
        lemma_power_positive(2, row as nat);
        lemma_power_positive(if column >= 0 { 3 } else { 4 }, if column >= 0 { column as nat } else { (-column) as nat });
        assert(rise2 * cd > 0) by (nonlinear_arith)
            requires
                rise2 > 0,
                cd > 0,
        ;
    }
    Frequency { num: 100 * rise3 * cn, den: rise2 * cd }
}

/// The pitch table: entry `k` is the pitch of key `k`, for every valid key.
pub fn build_pitch_table() -> (table: Vec<Frequency>)
    ensures
        table@.len() == MAX_SCANCODE,
        forall|k: int| 0 <= k < MAX_SCANCODE ==> (#[trigger] table@[k]).is_pitch_of(k),
{
    let mut table: Vec<Frequency> = Vec::new();
    let mut k: usize = 0;
    while k < MAX_SCANCODE
        invariant
            k <= MAX_SCANCODE,
            table@.len() == k,
            forall|j: int| 0 <= j < k ==> (#[trigger] table@[j]).is_pitch_of(j),
        decreases MAX_SCANCODE - k,
    {
        table.push(scancode_to_frequency(k as i32));
        k = k + 1;
    }
    table
}

/// Moving one row up the lattice, in the same column, raises the pitch by a
/// perfect fifth: `pitch(k2) / pitch(k1) == 3 / 2`.
pub proof fn lemma_row_interval(k1: int, k2: int)
    requires
        valid_key(k1),
        valid_key(k2),
        row_of(k2) == row_of(k1) + 1,
        column_of(k2) == column_of(k1),
    ensures
        2 * pitch_num(k2) * pitch_den(k1) == 3 * pitch_num(k1) * pitch_den(k2),
{
    lemma_row_column_range(k1);
    lemma_row_column_range(k2);
    let r = row_of(k1);
    let c = column_of(k1);
    let cn: int = (if c >= 0 { power(4, c as nat) } else { power(3, (-c) as nat) }) as int;
    let cd: int = (if c >= 0 { power(3, c as nat) } else { power(4, (-c) as nat) }) as int;
    let rise3: int = power(3, r as nat) as int;
    let rise2: int = power(2, r as nat) as int;
    assert(power(3, (r + 1) as nat) == 3 * power(3, r as nat));
    assert(power(2, (r + 1) as nat) == 2 * power(2, r as nat));
    let (a2, b1, a1, b2) = (pitch_num(k2), pitch_den(k1), pitch_num(k1), pitch_den(k2));
    assert(a2 == 100 * (3 * rise3) * cn);
    assert(b1 == rise2 * cd);
    assert(a1 == 100 * rise3 * cn);
    assert(b2 == (2 * rise2) * cd);
    assert(2 * a2 * b1 == 3 * a1 * b2) by (nonlinear_arith)
        requires
            a2 == 100 * (3 * rise3) * cn,
            b1 == rise2 * cd,
            a1 == 100 * rise3 * cn,
            b2 == (2 * rise2) * cd,
    ;
}

/// Moving one column right on the lattice, in the same row, raises the pitch
/// by a perfect fourth: `pitch(k2) / pitch(k1) == 4 / 3`.
pub proof fn lemma_column_interval(k1: int, k2: int)
    requires
        valid_key(k1),
        valid_key(k2),
        row_of(k2) == row_of(k1),
        column_of(k2) == column_of(k1) + 1,
    ensures
        3 * pitch_num(k2) * pitch_den(k1) == 4 * pitch_num(k1) * pitch_den(k2),
{
    lemma_row_column_range(k1);
    lemma_row_column_range(k2);
    let r = row_of(k1);
    let c = column_of(k1);
    let rise3: int = power(3, r as nat) as int;
    let rise2: int = power(2, r as nat) as int;
    let (n1, d1, n2, d2): (int, int, int, int) = if c >= 0 {
        (power(4, c as nat) as int, power(3, c as nat) as int, power(4, (c + 1) as nat) as int, power(3, (c + 1) as nat) as int)
    } else {
        (power(3, (-c) as nat) as int, power(4, (-c) as nat) as int, power(3, (-c - 1) as nat) as int, power(4, (-c - 1) as nat) as int)
    };
    assert(pitch_num(k1) == 100 * rise3 * n1);
    assert(pitch_den(k1) == rise2 * d1);
    assert(pitch_num(k2) == 100 * rise3 * n2);
    assert(pitch_den(k2) == rise2 * d2);
    if c >= 0 {
        assert(n2 == 4 * n1 && d2 == 3 * d1);
    } else {
        assert(n1 == 3 * n2 && d1 == 4 * d2);
    }
    let (a2, b1, a1, b2) = (pitch_num(k2), pitch_den(k1), pitch_num(k1), pitch_den(k2));
    assert(3 * a2 * b1 == 4 * a1 * b2) by (nonlinear_arith)
        requires
            a1 == 100 * rise3 * n1,
            b1 == rise2 * d1,
            a2 == 100 * rise3 * n2,
            b2 == rise2 * d2,
            (n2 == 4 * n1 && d2 == 3 * d1) || (n1 == 3 * n2 && d1 == 4 * d2),
    ;
}

proof fn lemma_power_positive(b: nat, e: nat)
    requires
        b > 0,
    ensures
        power(b, e) > 0,
    decreases e,
{
    if e > 0 {
        lemma_power_positive(b, (e - 1) as nat);
        let p = power(b, (e - 1) as nat);
        assert(b * p > 0) by (nonlinear_arith)
            requires
                b > 0,
                p > 0,
        ;
    }
}

} // verus!
