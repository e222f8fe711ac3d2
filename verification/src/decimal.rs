//! Parsing of wire decimal strings ("27123.50000000") into fixed-point
//! atoms. A value carries `ATOM_DECIMALS` decimal places; fractional digits
//! beyond that must be zero, and the result must fit in `ATOM_MAX`.
use vstd::prelude::*;
use crate::{ATOM_DECIMALS, ATOM_MAX};

verus! {

/// The byte is an ASCII decimal digit.
pub open spec fn is_digit_byte(b: u8) -> bool {
    48 <= b <= 57
}

/// Every byte of `s` is an ASCII decimal digit.
pub open spec fn all_digit_bytes(s: Seq<u8>) -> bool {
    forall|i: int| 0 <= i < s.len() ==> is_digit_byte(#[trigger] s[i])
}

/// The numeric value of a string of ASCII digits, most significant first.
pub open spec fn digits_value(s: Seq<u8>) -> int
    decreases s.len(),
{
    if s.len() == 0 {
        0
    } else {
        digits_value(s.drop_last()) * 10 + (s.last() - 48)
    }
}

/// Ten to the `n`.
pub open spec fn pow10(n: nat) -> int
    decreases n,
{
    if n == 0 {
        1
    } else {
        10 * pow10((n - 1) as nat)
    }
}

/// `s` holds exactly one ASCII dot, at position `k`.
pub open spec fn dot_at(s: Seq<u8>, k: int) -> bool {
    &&& 0 <= k < s.len()
    &&& s[k] == 46
    &&& forall|i: int| 0 <= i < s.len() && i != k ==> s[i] != 46
}

/// A decimal string the pipeline accepts: digits with at most one dot, a
/// non-empty part on each side of it, and nothing but zeros past the
/// `ATOM_DECIMALS`th fractional digit.
pub open spec fn decimal_str_wf(s: Seq<u8>) -> bool {
    if exists|k: int| dot_at(s, k) {
        let k = choose|k: int| dot_at(s, k);
        &&& 1 <= k <= s.len() - 2
        &&& all_digit_bytes(s.subrange(0, k))
        &&& all_digit_bytes(s.subrange(k + 1, s.len() as int))
        &&& forall|i: int| k + 1 + ATOM_DECIMALS <= i < s.len() ==> s[i] == 48
    } else {
        s.len() >= 1 && all_digit_bytes(s)
    }
}

/// The value of a well-formed decimal string, in atoms.
pub open spec fn decimal_str_atoms(s: Seq<u8>) -> int {
    if exists|k: int| dot_at(s, k) {
        let k = choose|k: int| dot_at(s, k);
        let ipart = digits_value(s.subrange(0, k));
        let f = s.subrange(k + 1, s.len() as int);
        let f8 = if f.len() >= ATOM_DECIMALS {
            f.subrange(0, ATOM_DECIMALS as int)
        } else {
            f
        };
        ipart * pow10(ATOM_DECIMALS as nat) + digits_value(f8) * pow10(
            (ATOM_DECIMALS - f8.len()) as nat,
        )
    } else {
        digits_value(s) * pow10(ATOM_DECIMALS as nat)
    }
}

proof fn lemma_digits_value_nonneg(s: Seq<u8>)
    requires
        all_digit_bytes(s),
    ensures
        digits_value(s) >= 0,
    decreases s.len(),
{
    if s.len() > 0 {
        let d = s.drop_last();
        assert(all_digit_bytes(d)) by {
            assert forall|i: int| 0 <= i < d.len() implies is_digit_byte(#[trigger] d[i]) by {
                assert(d[i] == s[i]);
            }
        }
        lemma_digits_value_nonneg(d);
        assert(is_digit_byte(s[s.len() - 1]));
    }
}

proof fn lemma_pow10_pos(n: nat)
    ensures
        pow10(n) >= 1,
    decreases n,
{
    if n > 0 {
        lemma_pow10_pos((n - 1) as nat);
    }
}

proof fn lemma_digits_value_upper(s: Seq<u8>)
    requires
        all_digit_bytes(s),
    ensures
        digits_value(s) < pow10(s.len()),
    decreases s.len(),
{
    if s.len() > 0 {
        let d = s.drop_last();
        assert(all_digit_bytes(d)) by {
            assert forall|i: int| 0 <= i < d.len() implies is_digit_byte(#[trigger] d[i]) by {
                assert(d[i] == s[i]);
            }
        }
        lemma_digits_value_upper(d);
        assert(is_digit_byte(s[s.len() - 1]));
        assert(digits_value(d) * 10 <= (pow10(d.len()) - 1) * 10) by (nonlinear_arith)
            requires digits_value(d) <= pow10(d.len()) - 1;
    }
}

proof fn lemma_digits_value_lower(s: Seq<u8>)
    requires
        all_digit_bytes(s),
        s.len() >= 1,
        s[0] != 48,
    ensures
        digits_value(s) >= pow10((s.len() - 1) as nat),
    decreases s.len(),
{
    if s.len() == 1 {
        assert(s.drop_last() =~= Seq::<u8>::empty());
        assert(digits_value(Seq::<u8>::empty()) == 0);
        assert(is_digit_byte(s[0]));
        assert(s.last() == s[0]);
        assert(digits_value(s) == 0 * 10 + (s.last() - 48));
        assert(pow10(0) == 1);
    } else {
        let d = s.drop_last();
        assert(all_digit_bytes(d)) by {
            assert forall|i: int| 0 <= i < d.len() implies is_digit_byte(#[trigger] d[i]) by {
                assert(d[i] == s[i]);
            }
        }
        assert(d[0] == s[0]);
        lemma_digits_value_lower(d);
        assert(is_digit_byte(s[s.len() - 1]));
        assert(s.last() == s[s.len() - 1]);
        assert(digits_value(s) == digits_value(d) * 10 + (s.last() - 48));
        assert(digits_value(d) * 10 >= pow10((d.len() - 1) as nat) * 10) by (nonlinear_arith)
            requires digits_value(d) >= pow10((d.len() - 1) as nat);
        assert((d.len() - 1) as nat == (s.len() - 2) as nat);
        assert(pow10((s.len() - 1) as nat) == 10 * pow10((s.len() - 2) as nat));
    }
}

proof fn lemma_digits_value_all_zero(s: Seq<u8>)
    requires
        forall|i: int| 0 <= i < s.len() ==> s[i] == 48,
    ensures
        digits_value(s) == 0,
    decreases s.len(),
{
    if s.len() > 0 {
        let d = s.drop_last();
        assert(forall|i: int| 0 <= i < d.len() ==> d[i] == s[i] && #[trigger] d[i] == 48);
        lemma_digits_value_all_zero(d);
        assert(s.last() == s[s.len() - 1]);
    }
}

proof fn lemma_digits_value_skip_zeros(s: Seq<u8>, z: int)
    requires
        0 <= z <= s.len(),
        forall|i: int| 0 <= i < z ==> s[i] == 48,
    ensures
        digits_value(s) == digits_value(s.skip(z)),
    decreases s.len(),
{
    if s.len() == z {
        lemma_digits_value_all_zero(s);
        assert(s.skip(z) =~= Seq::<u8>::empty());
    } else if s.len() > z {
        let d = s.drop_last();
        assert(forall|i: int| 0 <= i < z ==> #[trigger] d[i] == s[i]);
        lemma_digits_value_skip_zeros(d, z);
        assert(s.skip(z).drop_last() =~= d.skip(z));
        assert(s.skip(z).last() == s.last());
    }
}

/// The parser's value accumulator advances digit by digit.
proof fn lemma_digits_value_step(s: Seq<u8>, lo: int, i: int)
    requires
        0 <= lo <= i < s.len(),
    ensures
        digits_value(s.subrange(lo, i + 1)) == digits_value(s.subrange(lo, i)) * 10 + (s[i] - 48),
{
    let t = s.subrange(lo, i + 1);
    assert(t.drop_last() =~= s.subrange(lo, i));
    assert(t.last() == s[i]);
}

/// Reads the digit span `[lo, hi)` of `b`; `None` when the span's value, in
/// whole atoms, could not fit `ATOM_MAX` anyway.
fn span_value(b: &[u8], lo: usize, hi: usize) -> (r: Option<u64>)
    requires
        0 <= lo <= hi <= b@.len(),
        all_digit_bytes(b@.subrange(lo as int, hi as int)),
    ensures
        r matches Some(v) ==> v == digits_value(b@.subrange(lo as int, hi as int))
            && v < 100_000_000,
        r is None ==> digits_value(b@.subrange(lo as int, hi as int)) >= 100_000_000,
{
    let ghost full = b@.subrange(lo as int, hi as int);
    let mut z: usize = lo;
    while z < hi && b[z] == 48
        invariant
            lo <= z <= hi <= b@.len(),
            forall|i: int| lo <= i < z ==> b@[i] == 48,
        decreases hi - z,
    {
        z = z + 1;
    }
    proof {
        assert forall|i: int| 0 <= i < z - lo implies full[i] == 48 by {
            assert(full[i] == b@[lo + i]);
        }
        lemma_digits_value_skip_zeros(full, z - lo);
        assert(full.skip(z - lo) =~= b@.subrange(z as int, hi as int));
    }
    if hi - z > 8 {
        proof {
            let sig = b@.subrange(z as int, hi as int);
            assert(all_digit_bytes(sig)) by {
                assert forall|i: int| 0 <= i < sig.len() implies is_digit_byte(
                    #[trigger] sig[i],
                ) by {
                    assert(sig[i] == full[z - lo + i]);
                }
            }
            assert(sig[0] == b@[z as int]);
            assert(is_digit_byte(full[z - lo]));
            lemma_digits_value_lower(sig);
            lemma_pow10_mono(8, (sig.len() - 1) as nat);
            lemma_pow10_vals();
        }
        return None;
    }
    let mut v: u64 = 0;
    let mut i: usize = z;
    while i < hi
        invariant
            z <= i <= hi <= b@.len(),
            hi - z <= 8,
            all_digit_bytes(b@.subrange(z as int, hi as int)),
            v == digits_value(b@.subrange(z as int, i as int)),
            v < 100_000_000,
        decreases hi - i,
    {
        proof {
            lemma_digits_value_step(b@, z as int, i as int);
            assert(is_digit_byte(b@[i as int])) by {
                assert(b@.subrange(z as int, hi as int)[i - z] == b@[i as int]);
            }
            let part = b@.subrange(z as int, i as int + 1);
            assert(all_digit_bytes(part)) by {
                assert forall|t: int| 0 <= t < part.len() implies is_digit_byte(
                    #[trigger] part[t],
                ) by {
                    assert(part[t] == b@.subrange(z as int, hi as int)[t]);
                }
            }
            lemma_digits_value_upper(part);
            lemma_pow10_mono(part.len() as nat, 8);
            lemma_pow10_vals();
        }
        v = v * 10 + (b[i] - 48) as u64;
        i = i + 1;
    }
    Some(v)
}

proof fn lemma_pow10_mono(m: nat, n: nat)
    requires
        m <= n,
    ensures
        pow10(m) <= pow10(n),
    decreases n,
{
    if m < n {
        lemma_pow10_mono(m, (n - 1) as nat);
        lemma_pow10_pos((n - 1) as nat);
    }
}

proof fn lemma_pow10_vals()
    ensures
        pow10(0) == 1,
        pow10(1) == 10,
        pow10(2) == 100,
        pow10(3) == 1000,
        pow10(4) == 10000,
        pow10(5) == 100000,
        pow10(6) == 1000000,
        pow10(7) == 10000000,
        pow10(8) == 100000000,
{
    assert(pow10(0) == 1);
    assert(pow10(1) == 10);
    assert(pow10(2) == 100);
    assert(pow10(3) == 1000);
    assert(pow10(4) == 10000);
    assert(pow10(5) == 100000);
    assert(pow10(6) == 1000000);
    assert(pow10(7) == 10000000);
    assert(pow10(8) == 100000000);
}

proof fn lemma_pow10_split(a: nat, b: nat)
    ensures
        pow10(a) * pow10(b) == pow10(a + b),
    decreases a,
{
    if a == 0 {
        assert(pow10(0) == 1);
    } else {
        lemma_pow10_split((a - 1) as nat, b);
        assert((10 * pow10((a - 1) as nat)) * pow10(b) == 10 * (pow10((a - 1) as nat) * pow10(
            b,
        ))) by (nonlinear_arith);
    }
}

/// A witness of the single dot pins down the one the spec chooses.
proof fn lemma_wf_dot(s: Seq<u8>, k: int)
    requires
        dot_at(s, k),
    ensures
        exists|k2: int| dot_at(s, k2),
        (choose|k2: int| dot_at(s, k2)) == k,
{
    assert(dot_at(s, k));
    let k2 = choose|k2: int| dot_at(s, k2);
    if k2 != k {
        assert(s[k2] != 46);
        assert(false);
    }
}

/// Ten to the `e`, on machine integers.
fn pow10_u64(e: usize) -> (r: u64)
    requires
        e <= 8,
    ensures
        r == pow10(e as nat),
{
    proof {
        lemma_pow10_vals();
    }
    let mut r: u64 = 1;
    let mut j: usize = 0;
    while j < e
        invariant
            0 <= j <= e <= 8,
            r == pow10(j as nat),
            r <= 100000000,
        decreases e - j,
    {
        proof {
            lemma_pow10_vals();
            lemma_pow10_mono((j + 1) as nat, 8);
        }
        r = r * 10;
        j = j + 1;
    }
    r
}

/// Parses the byte form of a wire decimal string into atoms.
fn parse_atoms_bytes(b: &[u8]) -> (r: Option<u64>)
    ensures
        r is Some <==> (decimal_str_wf(b@) && decimal_str_atoms(b@) <= ATOM_MAX),
        r matches Some(v) ==> v == decimal_str_atoms(b@),
{
    let n: usize = b.len();
    if n == 0 {
        return None;
    }
    let mut dot: usize = n;
    let mut i: usize = 0;
    while i < n
        invariant
            0 <= i <= n,
            n == b@.len(),
            dot <= n,
            dot == n ==> forall|t: int| 0 <= t < i ==> b@[t] != 46,
            dot < n ==> dot < i && b@[dot as int] == 46 && forall|t: int|
                0 <= t < i && t != dot ==> b@[t] != 46,
            forall|t: int| 0 <= t < i && b@[t] != 46 ==> is_digit_byte(#[trigger] b@[t]),
        decreases n - i,
    {
        let c: u8 = b[i];
        if c == 46 {
            if dot < n {
                proof {
                    assert(!(exists|k: int| dot_at(b@, k))) by {
                        if exists|k: int| dot_at(b@, k) {
                            let k = choose|k: int| dot_at(b@, k);
                            if k != dot as int {
                                assert(b@[dot as int] != 46);
                            } else {
                                assert(b@[i as int] != 46);
                            }
                        }
                    }
                    assert(!is_digit_byte(b@[dot as int]));
                }
                return None;
            }
            dot = i;
        } else if c < 48 || c > 57 {
            proof {
                if decimal_str_wf(b@) {
                    if exists|k: int| dot_at(b@, k) {
                        let k = choose|k: int| dot_at(b@, k);
                        assert(k != i as int);
                        if (i as int) < k {
                            assert(b@.subrange(0, k)[i as int] == b@[i as int]);
                        } else {
                            assert(b@.subrange(k + 1, n as int)[i - k - 1] == b@[i as int]);
                        }
                    } else {
                        assert(!is_digit_byte(b@[i as int]));
                    }
                    assert(false);
                }
            }
            return None;
        }
        i = i + 1;
    }
    if dot == n {
        proof {
            assert(!(exists|k: int| dot_at(b@, k))) by {
                if exists|k: int| dot_at(b@, k) {
                    let k = choose|k: int| dot_at(b@, k);
                    assert(b@[k] != 46);
                }
            }
            assert(all_digit_bytes(b@));
            assert(b@.subrange(0, n as int) =~= b@);
            lemma_pow10_vals();
        }
        let whole = span_value(b, 0, n);
        match whole {
            None => {
                proof {
                    assert(digits_value(b@) * pow10(8) >= 100_000_000 * 100_000_000)
                        by (nonlinear_arith)
                        requires digits_value(b@) >= 100_000_000 && pow10(8) == 100_000_000;
                }
                None
            },
            Some(v) => {
                proof {
                    assert(v * pow10(8) == v * 100_000_000);
                    assert(v * 100_000_000 < 0x2386F26FC10000u64) by (nonlinear_arith)
                        requires v < 100_000_000u64;
                }
                let atoms: u64 = v * 100_000_000;
                if atoms > ATOM_MAX {
                    None
                } else {
                    Some(atoms)
                }
            },
        }
    } else {
        proof {
            assert(dot_at(b@, dot as int));
            lemma_wf_dot(b@, dot as int);
        }
        if dot == 0 || dot > n - 2 {
            return None;
        }
        let ghost ipart_seq = b@.subrange(0, dot as int);
        let ghost f = b@.subrange(dot as int + 1, n as int);
        proof {
            assert(all_digit_bytes(ipart_seq)) by {
                assert forall|t: int| 0 <= t < ipart_seq.len() implies is_digit_byte(
                    #[trigger] ipart_seq[t],
                ) by {
                    assert(ipart_seq[t] == b@[t]);
                }
            }
            assert(all_digit_bytes(f)) by {
                assert forall|t: int| 0 <= t < f.len() implies is_digit_byte(
                    #[trigger] f[t],
                ) by {
                    assert(f[t] == b@[dot + 1 + t]);
                }
            }
        }
        let mut j: usize = dot + 1;
        let mut off: usize = 0;
        while j < n
            invariant
                n == b@.len(),
                dot + 2 <= n,
                j == dot + 1 + off,
                dot + 1 <= j <= n,
                b@[dot as int] == 46,
                forall|t: int| 0 <= t < n && t != dot ==> b@[t] != 46,
                forall|t: int| dot + 9 <= t < j ==> b@[t] == 48,
            decreases n - j,
        {
            if off >= 8 && b[j] != 48 {
                proof {
                    if decimal_str_wf(b@) {
                        assert(b@[j as int] == 48);
                    }
                }
                return None;
            }
            off = off + 1;
            j = j + 1;
        }
        let ipart_opt = span_value(b, 0, dot);
        let f8len: usize = if n - dot - 1 >= 8 {
            8
        } else {
            n - dot - 1
        };
        let ghost f8 = if f.len() >= 8 {
            f.subrange(0, 8)
        } else {
            f
        };
        proof {
            assert(b@.subrange(dot as int + 1, dot as int + 1 + f8len as int) =~= f8);
            assert(all_digit_bytes(f8)) by {
                assert forall|t: int| 0 <= t < f8.len() implies is_digit_byte(
                    #[trigger] f8[t],
                ) by {
                    assert(f8[t] == f[t]);
                }
            }
            lemma_pow10_vals();
            lemma_digits_value_nonneg(f8);
            lemma_digits_value_upper(f8);
            lemma_pow10_pos((8 - f8len) as nat);
            lemma_pow10_mono(f8.len() as nat, 8);
            assert(digits_value(f8) * pow10((8 - f8len) as nat) >= 0) by (nonlinear_arith)
                requires digits_value(f8) >= 0 && pow10((8 - f8len) as nat) >= 1;
            lemma_pow10_split(f8.len() as nat, (8 - f8len) as nat);
            assert(digits_value(f8) * pow10((8 - f8len) as nat) <= (pow10(f8.len() as nat) - 1)
                * pow10((8 - f8len) as nat)) by (nonlinear_arith)
                requires
                    digits_value(f8) <= pow10(f8.len() as nat) - 1,
                    pow10((8 - f8len) as nat) >= 1,
            ;
            assert((pow10(f8.len() as nat) - 1) * pow10((8 - f8len) as nat) == pow10(
                f8.len() as nat,
            ) * pow10((8 - f8len) as nat) - pow10((8 - f8len) as nat)) by (nonlinear_arith);
        }
        match ipart_opt {
            None => {
                proof {
                    lemma_digits_value_nonneg(ipart_seq);
                    assert(digits_value(ipart_seq) * pow10(8) >= 100_000_000 * 100_000_000)
                        by (nonlinear_arith)
                        requires digits_value(ipart_seq) >= 100_000_000 && pow10(8)
                            == 100_000_000;
                }
                None
            },
            Some(vi) => {
                let fv_opt = span_value(b, dot + 1, dot + 1 + f8len);
                match fv_opt {
                    None => {
                        proof {
                            assert(false);
                        }
                        None
                    },
                    Some(fv) => {
                        let scale: u64 = pow10_u64(8 - f8len);
                        proof {
                            assert(vi * 100_000_000 < 0x2386F26FC10000u64) by (nonlinear_arith)
                                requires vi < 100_000_000u64;
                            assert(fv as int * scale as int <= 100_000_000) by (nonlinear_arith)
                                requires
                                    fv as int == digits_value(f8),
                                    scale as int == pow10((8 - f8len) as nat),
                                    digits_value(f8) * pow10((8 - f8len) as nat) <= pow10(8)
                                        - pow10((8 - f8len) as nat),
                                    pow10((8 - f8len) as nat) >= 0,
                                    pow10(8) == 100_000_000,
                            ;
                        }
                        let atoms: u64 = vi * 100_000_000 + fv * scale;
                        if atoms > ATOM_MAX {
                            None
                        } else {
                            Some(atoms)
                        }
                    },
                }
            },
        }
    }
}

/// The character string is a well-formed decimal whose value fits the
/// fixed-point range.
pub open spec fn parses_to_atoms(s: Seq<char>) -> bool {
    decimal_str_wf(vstd::utf8::encode_utf8(s)) && decimal_str_atoms(vstd::utf8::encode_utf8(s))
        <= ATOM_MAX
}

/// The atom value of a character string.
pub open spec fn atoms_of(s: Seq<char>) -> int {
    decimal_str_atoms(vstd::utf8::encode_utf8(s))
}

/// Parses a wire decimal string ("27123.50000000") into fixed-point atoms:
/// `Some` exactly when the string is well-formed and its value fits the
/// fixed-point range.
pub fn parse_decimal_atoms(s: &str) -> (r: Option<u64>)
    ensures
        r is Some <==> parses_to_atoms(s@),
        r matches Some(v) ==> v == atoms_of(s@),
{
    parse_atoms_bytes(s.as_bytes())
}

} // verus!
