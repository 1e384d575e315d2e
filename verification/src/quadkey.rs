//! Quadkeys: the base-4 digit strings that name tiles.
use crate::errors::UtilesError;
use crate::tile::{bit_of, Tile};
use vstd::prelude::*;
use vstd::std_specs::iter::IteratorSpec;
use vstd::string::StringExecFns;

verus! {

broadcast use vstd::string::group_string_axioms;

/// The quadkey digit for bit `i` of the column and row: bit `i` of `x`
/// plus twice bit `i` of `y`.
pub open spec fn qk_char(x: u32, y: u32, i: u32) -> char {
    let d = bit_of(x, i) + 2 * bit_of(y, i);
    if d == 0 {
        '0'
    } else if d == 1 {
        '1'
    } else if d == 2 {
        '2'
    } else {
        '3'
    }
}

/// The quadkey of `(x, y, z)`: one digit per zoom level, for bits `z - 1`
/// down to `0` of the column and row.
pub open spec fn quadkey_spec(x: u32, y: u32, z: nat) -> Seq<char> {
    Seq::new(z, |k: int| qk_char(x, y, (z - 1 - k) as u32))
}

/// The quadkey of `(x, y, z)`.
pub fn xyz2quadkey(x: u32, y: u32, z: u8) -> (qk: String)
    requires
        z <= 32,
    ensures
        qk@ == quadkey_spec(x, y, z as nat),
{
    let mut quadkey = String::new();
    let mut i: u8 = z;
    while i > 0
        invariant
            i <= z <= 32,
            quadkey@ == Seq::new((z - i) as nat, |k: int| qk_char(x, y, (z - 1 - k) as u32)),
        decreases i,
    {
        i = i - 1;
        let b: u32 = i as u32;
        let mask: u32 = 1u32 << b;
        let mut digit: u32 = 0;
        assert(((x & mask) != 0) == (bit_of(x, b) == 1)) by (bit_vector)
            requires
                b < 32,
                mask == 1u32 << b,
        ;
        assert(((y & mask) != 0) == (bit_of(y, b) == 1)) by (bit_vector)
            requires
                b < 32,
                mask == 1u32 << b,
        ;
        assert(bit_of(x, b) <= 1 && bit_of(y, b) <= 1) by (bit_vector);
        if (x & mask) != 0 {
            digit += 1;
        }
        if (y & mask) != 0 {
            digit += 2;
        }
        let ghost before = quadkey@;
        if digit == 0 {
            proof { reveal_strlit("0"); }
            quadkey.append("0");
        } else if digit == 1 {
            proof { reveal_strlit("1"); }
            quadkey.append("1");
        } else if digit == 2 {
            proof { reveal_strlit("2"); }
            quadkey.append("2");
        } else {
            proof { reveal_strlit("3"); }
            quadkey.append("3");
        }
        assert(quadkey@ =~= Seq::new((z - i) as nat, |k: int| qk_char(x, y, (z - 1 - k) as u32)));
    }
    quadkey
}

impl Tile {
    /// The tile's quadkey.
    pub fn quadkey(&self) -> (qk: String)
        requires
            self.z <= 32,
        ensures
            qk@ == quadkey_spec(self.x, self.y, self.z as nat),
    {
        xyz2quadkey(self.x, self.y, self.z)
    }

    /// The tile's quadkey.
    pub fn qk(&self) -> (qk: String)
        requires
            self.z <= 32,
        ensures
            qk@ == quadkey_spec(self.x, self.y, self.z as nat),
    {
        xyz2quadkey(self.x, self.y, self.z)
    }
}

/// A character that may stand in a quadkey.
pub open spec fn qk_valid_char(c: char) -> bool {
    c == '0' || c == '1' || c == '2' || c == '3'
}

/// The column bit that a quadkey digit carries.
pub open spec fn qk_x_bit(c: char) -> u32 {
    if c == '1' || c == '3' { 1 } else { 0 }
}

/// The row bit that a quadkey digit carries.
pub open spec fn qk_y_bit(c: char) -> u32 {
    if c == '2' || c == '3' { 1 } else { 0 }
}

/// The column that the digits of `s` spell, most significant digit first,
/// in a 32-bit register (digits shifted out at the top are lost).
pub open spec fn qk_x(s: Seq<char>) -> u32
    decreases s.len(),
{
    if s.len() == 0 {
        0
    } else {
        ((qk_x(s.drop_last()) << 1u32) + qk_x_bit(s.last())) as u32
    }
}

/// The row that the digits of `s` spell (see `qk_x`).
pub open spec fn qk_y(s: Seq<char>) -> u32
    decreases s.len(),
{
    if s.len() == 0 {
        0
    } else {
        ((qk_y(s.drop_last()) << 1u32) + qk_y_bit(s.last())) as u32
    }
}

/// Every character of `s` is a quadkey digit.
pub open spec fn qk_all_valid(s: Seq<char>) -> bool {
    forall|k: int| 0 <= k < s.len() ==> qk_valid_char(#[trigger] s[k])
}

/// The zoom counter does not run past 255 before the parse ends: the key is
/// at most 255 long, or a bad character comes within its first 255.
pub open spec fn qk_zoom_fits(s: Seq<char>) -> bool {
    s.len() <= 255 || exists|k: int| 0 <= k < 255 && !qk_valid_char(#[trigger] s[k])
}

proof fn lemma_shift_in(v: u32, b: u32)
    requires
        b <= 1,
    ensures
        (v << 1u32) + b <= u32::MAX,
{
    assert((v << 1u32) + b <= u32::MAX) by (bit_vector)
        requires
            b <= 1,
    ;
}

/// The error for a quadkey with a character other than `0` to `3`, with the
/// message `Invalid quadkey char found`.
pub open spec fn quadkey_error(e: UtilesError) -> bool {
    e matches UtilesError::InvalidQuadkeyChar(m) && m@ == "Invalid quadkey char found"@
}

/// The column, row and zoom that a quadkey names.
pub fn quadkey2xyz(quadkey: &str) -> (r: Result<(u32, u32, u8), UtilesError>)
    requires
        qk_zoom_fits(quadkey@),
    ensures
        match r {
            Ok((x, y, z)) => qk_all_valid(quadkey@) && x == qk_x(quadkey@) && y == qk_y(quadkey@)
                && z == quadkey@.len(),
            Err(e) => !qk_all_valid(quadkey@) && quadkey_error(e),
        },
{
    let ghost s = quadkey@;
    let mut x: u32 = 0;
    let mut y: u32 = 0;
    let mut z: u8 = 0;
    let mut it = quadkey.chars();
    let ghost mut idx: int = 0;
    proof {
        vstd::string::axiom_spec_iter(quadkey);
    }
    loop
        invariant
            0 <= idx <= s.len(),
            s == quadkey@,
            it.remaining() == s.skip(idx),
            qk_zoom_fits(s),
            z == idx,
            x == qk_x(s.take(idx)),
            y == qk_y(s.take(idx)),
            forall|k: int| 0 <= k < idx ==> qk_valid_char(#[trigger] s[k]),
        decreases s.len() - idx,
    {
        let next = it.next();
        match next {
            None => {
                assert(s.skip(idx).len() == 0);
                assert(idx == s.len());
                assert(s.take(idx) =~= s);
                assert(qk_all_valid(s));
                return Ok((x, y, z));
            },
            Some(c) => {
                assert(c == s[idx]);
                if z == 255 {
                    assert(s.len() > 255);
                    assert(forall|k: int| 0 <= k < 255 ==> qk_valid_char(#[trigger] s[k]));
                    assert(false);
                }
                proof {
                    lemma_shift_in(x, qk_x_bit(c));
                    lemma_shift_in(y, qk_y_bit(c));
                    assert(s.take(idx + 1).drop_last() =~= s.take(idx));
                }
                x <<= 1;
                y <<= 1;
                z += 1;
                if c == '0' {
                } else if c == '1' {
                    x += 1;
                } else if c == '2' {
                    y += 1;
                } else if c == '3' {
                    x += 1;
                    y += 1;
                } else {
                    assert(!qk_valid_char(s[idx]));
                    assert(!qk_all_valid(s));
                    return Err(UtilesError::InvalidQuadkeyChar(String::from_str("Invalid quadkey char found")));
                }
                proof {
                    idx = idx + 1;
                    assert(it.remaining() =~= s.skip(idx));
                }
            },
        }
    }
}

/// The tile that a quadkey names.
pub fn quadkey2tile(quadkey: &str) -> (r: Result<Tile, UtilesError>)
    requires
        qk_zoom_fits(quadkey@),
    ensures
        match r {
            Ok(t) => qk_all_valid(quadkey@) && t.x == qk_x(quadkey@) && t.y == qk_y(quadkey@)
                && t.z == quadkey@.len(),
            Err(e) => !qk_all_valid(quadkey@) && quadkey_error(e),
        },
{
    let (x, y, z) = quadkey2xyz(quadkey)?;
    Ok(Tile::new(x, y, z))
}

impl Tile {
    /// The tile that a quadkey names.
    pub fn from_quadkey(quadkey: &str) -> (r: Result<Tile, UtilesError>)
        requires
            qk_zoom_fits(quadkey@),
        ensures
            match r {
                Ok(t) => qk_all_valid(quadkey@) && t.x == qk_x(quadkey@) && t.y == qk_y(quadkey@)
                    && t.z == quadkey@.len(),
                Err(e) => !qk_all_valid(quadkey@) && quadkey_error(e),
            },
    {
        quadkey2tile(quadkey)
    }

    /// The tile that a well-formed quadkey names.
    pub fn from_qk(qk: &str) -> (t: Tile)
        requires
            qk@.len() <= 255,
            qk_all_valid(qk@),
        ensures
            t.x == qk_x(qk@),
            t.y == qk_y(qk@),
            t.z == qk@.len(),
    {
        let res = quadkey2tile(qk);
        match res {
            Ok(tile) => tile,
            Err(_) => {
                proof {
                    assert(false);
                }
                Tile::new(0, 0, 0)
            },
        }
    }
}

/// The low `n` bits of a 32-bit word set (all of them when `n >= 32`).
pub open spec fn low_mask32(n: nat) -> u32 {
    if n >= 32 {
        u32::MAX
    } else {
        ((1u64 << (n as u64)) - 1) as u32
    }
}

proof fn lemma_qk_char_bits(x: u32, y: u32, i: u32)
    ensures
        qk_valid_char(qk_char(x, y, i)),
        qk_x_bit(qk_char(x, y, i)) == bit_of(x, i),
        qk_y_bit(qk_char(x, y, i)) == bit_of(y, i),
{
    assert(bit_of(x, i) <= 1 && bit_of(y, i) <= 1) by (bit_vector);
}

proof fn lemma_bit_of_shr(v: u32, j: u32)
    requires
        j < 31,
    ensures
        bit_of(v >> 1u32, j) == bit_of(v, (j + 1) as u32),
{
    assert(bit_of(v >> 1u32, j) == bit_of(v, (j + 1) as u32)) by (bit_vector)
        requires
            j < 31,
    ;
}

proof fn lemma_mask_step(v: u32, z: u32)
    requires
        1 <= z <= 32,
    ensures
        (((v >> 1u32) & low_mask32((z - 1) as nat)) << 1u32) + bit_of(v, 0) == v & low_mask32(z as nat),
        (((v >> 1u32) & low_mask32((z - 1) as nat)) << 1u32) + bit_of(v, 0) <= u32::MAX,
{
    if z == 32 {
        assert((((v >> 1u32) & (((1u64 << 31u64) - 1) as u32)) << 1u32) + ((v >> 0u32) & 1) == v & u32::MAX)
            by (bit_vector);
    } else {
        let zz = z as u64;
        let zm = (z - 1) as u64;
        assert((((v >> 1u32) & (((1u64 << zm) - 1) as u32)) << 1u32) + ((v >> 0u32) & 1)
            == v & (((1u64 << zz) - 1) as u32)) by (bit_vector)
            requires
                1 <= zz < 32,
                zz == zm + 1,
        ;
    }
}

/// Reading back the quadkey of a tile gives its column and row cut to `z`
/// bits; for a tile of the grid (every tile the quadkey can name) that is
/// the tile itself.
pub proof fn lemma_quadkey_roundtrip(x: u32, y: u32, z: nat)
    requires
        z <= 32,
    ensures
        qk_all_valid(quadkey_spec(x, y, z)),
        quadkey_spec(x, y, z).len() == z,
        qk_x(quadkey_spec(x, y, z)) == x & low_mask32(z),
        qk_y(quadkey_spec(x, y, z)) == y & low_mask32(z),
        x < vstd::arithmetic::power2::pow2(z) ==> qk_x(quadkey_spec(x, y, z)) == x,
        y < vstd::arithmetic::power2::pow2(z) ==> qk_y(quadkey_spec(x, y, z)) == y,
    decreases z,
{
    let s = quadkey_spec(x, y, z);
    assert forall|k: int| 0 <= k < s.len() implies qk_valid_char(#[trigger] s[k]) by {
        lemma_qk_char_bits(x, y, (z - 1 - k) as u32);
    }
    if z == 0 {
        assert(x & low_mask32(0) == 0) by {
            assert(x & (((1u64 << 0u64) - 1) as u32) == 0) by (bit_vector);
        }
        assert(y & low_mask32(0) == 0) by {
            assert(y & (((1u64 << 0u64) - 1) as u32) == 0) by (bit_vector);
        }
    } else {
        let xs = x >> 1u32;
        let ys = y >> 1u32;
        lemma_quadkey_roundtrip(xs, ys, (z - 1) as nat);
        let p = quadkey_spec(xs, ys, (z - 1) as nat);
        assert forall|k: int| 0 <= k < z - 1 implies #[trigger] s.drop_last()[k] == p[k] by {
            lemma_bit_of_shr(x, (z - 2 - k) as u32);
            lemma_bit_of_shr(y, (z - 2 - k) as u32);
        }
        assert(s.drop_last() =~= p);
        lemma_qk_char_bits(x, y, 0);
        assert(s.last() == qk_char(x, y, 0));
        lemma_mask_step(x, z as u32);
        lemma_mask_step(y, z as u32);
    }
    lemma_mask_keeps_small(x, z);
    lemma_mask_keeps_small(y, z);
}

proof fn lemma_shift_in_bits(a: u32, b: u32, j: u32)
    requires
        b <= 1,
        j < 32,
    ensures
        j == 0 ==> bit_of(((a << 1u32) + b) as u32, j) == b,
        j >= 1 ==> bit_of(((a << 1u32) + b) as u32, j) == bit_of(a, (j - 1) as u32),
{
    assert(j == 0 ==> bit_of(((a << 1u32) + b) as u32, j) == b) by (bit_vector)
        requires
            b <= 1,
            j < 32,
    ;
    assert(j >= 1 ==> bit_of(((a << 1u32) + b) as u32, j) == bit_of(a, (j - 1) as u32))
        by (bit_vector)
        requires
            b <= 1,
            j < 32,
    ;
}

/// The digit of a quadkey character is rebuilt from the column and row bits
/// it carries.
proof fn lemma_qk_char_of_bits(c: char, x: u32, y: u32, i: u32)
    requires
        qk_valid_char(c),
        bit_of(x, i) == qk_x_bit(c),
        bit_of(y, i) == qk_y_bit(c),
    ensures
        qk_char(x, y, i) == c,
{
}

/// Reading a string of quadkey digits (at most 32 of them) into a column
/// and row and writing their quadkey gives the string back.
pub proof fn lemma_quadkey_parse_roundtrip(s: Seq<char>)
    requires
        qk_all_valid(s),
        s.len() <= 32,
    ensures
        quadkey_spec(qk_x(s), qk_y(s), s.len()) == s,
    decreases s.len(),
{
    let n = s.len();
    let q = quadkey_spec(qk_x(s), qk_y(s), n);
    if n > 0 {
        let init = s.drop_last();
        let c = s.last();
        assert(qk_valid_char(s[n - 1]));
        assert forall|k: int| 0 <= k < init.len() implies qk_valid_char(#[trigger] init[k]) by {
            assert(init[k] == s[k]);
        }
        lemma_quadkey_parse_roundtrip(init);
        let xa = qk_x(init);
        let ya = qk_y(init);
        let bx = qk_x_bit(c);
        let by = qk_y_bit(c);
        assert(qk_x(s) == ((xa << 1u32) + bx) as u32);
        assert(qk_y(s) == ((ya << 1u32) + by) as u32);
        assert forall|k: int| 0 <= k < n implies #[trigger] q[k] == s[k] by {
            let i = (n - 1 - k) as u32;
            lemma_shift_in_bits(xa, bx, i);
            lemma_shift_in_bits(ya, by, i);
            if k == n - 1 {
                lemma_qk_char_of_bits(c, qk_x(s), qk_y(s), i);
            } else {
                let p = quadkey_spec(xa, ya, (n - 1) as nat);
                assert(p[k] == init[k]);
                assert(p[k] == qk_char(xa, ya, (i - 1) as u32));
                lemma_qk_char_bits(xa, ya, (i - 1) as u32);
                lemma_qk_char_of_bits(s[k], qk_x(s), qk_y(s), i);
            }
        }
    }
    assert(q =~= s);
}

proof fn lemma_mask_keeps_small(v: u32, z: nat)
    requires
        z <= 32,
    ensures
        v < vstd::arithmetic::power2::pow2(z) ==> v & low_mask32(z) == v,
{
    if v < vstd::arithmetic::power2::pow2(z) {
        if z == 32 {
            assert(v & u32::MAX == v) by (bit_vector);
        } else {
            let zz = z as u64;
            vstd::bits::lemma_u64_pow2_no_overflow(z);
            vstd::bits::lemma_u64_shl_is_mul(1, zz);
            assert(v & (((1u64 << zz) - 1) as u32) == v) by (bit_vector)
                requires
                    zz < 32,
                    (v as u64) < (1u64 << zz),
            ;
        }
    }
}

} // verus!
