use vstd::prelude::*;

verus! {

// ---------------------------------------------------------------------------
// Decimal rendering
// ---------------------------------------------------------------------------

/// The ASCII decimal digits of `n`, most significant first, no sign and no
/// leading zeroes (a single `0` for zero).
pub open spec fn dec_digits(n: nat) -> Seq<u8>
    decreases n,
{
    if n < 10 {
        seq![(48 + n) as u8]
    } else {
        dec_digits(n / 10).push((48 + n % 10) as u8)
    }
}

/// The ASCII rendering of a signed integer: a `-` for negative values,
/// then the decimal digits of the magnitude.
pub open spec fn dec_int(v: int) -> Seq<u8> {
    if v < 0 {
        seq![45u8] + dec_digits((-v) as nat)
    } else {
        dec_digits(v as nat)
    }
}

/// Appends the decimal digits of `n` to `out`.
pub fn push_u64_dec(out: &mut Vec<u8>, n: u64)
    ensures
        final(out)@ == old(out)@ + dec_digits(n as nat),
    decreases n,
{
    if n < 10 {
        out.push(48 + n as u8);
        assert(out@ =~= old(out)@ + dec_digits(n as nat));
    } else {
        push_u64_dec(out, n / 10);
        out.push(48 + (n % 10) as u8);
        assert(out@ =~= old(out)@ + dec_digits(n as nat));
    }
}

/// Appends the decimal rendering of a signed value to `out`.
pub fn push_i64_dec(out: &mut Vec<u8>, v: i64)
    ensures
        final(out)@ == old(out)@ + dec_int(v as int),
{
    if v >= 0 {
        push_u64_dec(out, v as u64);
    } else {
        out.push(45);
        let mag: u64 = (-(v as i128)) as u64;
        push_u64_dec(out, mag);
        assert(out@ =~= old(out)@ + dec_int(v as int));
    }
}

// ---------------------------------------------------------------------------
// Decimal parsing
// ---------------------------------------------------------------------------

/// True when `s` is one or more ASCII digits.
pub open spec fn is_digits(s: Seq<u8>) -> bool {
    s.len() > 0 && forall|i: int| 0 <= i < s.len() ==> 48 <= #[trigger] s[i] <= 57
}

/// The value of a digit string, most significant digit first.
pub open spec fn digits_value(s: Seq<u8>) -> int
    decreases s.len(),
{
    if s.len() == 0 {
        0
    } else {
        digits_value(s.drop_last()) * 10 + (s.last() - 48)
    }
}

/// True when `s` is an optional `-` followed by one or more digits.
pub open spec fn is_int_literal(s: Seq<u8>) -> bool {
    if s.len() > 0 && s[0] == 45 {
        is_digits(s.skip(1))
    } else {
        is_digits(s)
    }
}

/// The integer denoted by an integer literal.
pub open spec fn int_literal_value(s: Seq<u8>) -> int {
    if s.len() > 0 && s[0] == 45 {
        -digits_value(s.skip(1))
    } else {
        digits_value(s)
    }
}

/// The value of a digit string is nonnegative.
proof fn lemma_digits_value_nonneg(s: Seq<u8>)
    requires
        forall|i: int| 0 <= i < s.len() ==> 48 <= #[trigger] s[i] <= 57,
    ensures
        digits_value(s) >= 0,
    decreases s.len(),
{
    if s.len() > 0 {
        lemma_digits_value_nonneg(s.drop_last());
    }
}

/// Extending a digit string on the right never lowers its value.
proof fn lemma_digits_value_prefix_le(s: Seq<u8>, i: int)
    requires
        forall|k: int| 0 <= k < s.len() ==> 48 <= #[trigger] s[k] <= 57,
        0 <= i <= s.len(),
    ensures
        digits_value(s.take(i)) <= digits_value(s),
    decreases s.len() - i,
{
    if i < s.len() {
        lemma_digits_value_prefix_le(s, i + 1);
        let t = s.take(i + 1);
        assert(t.drop_last() =~= s.take(i));
        lemma_digits_value_nonneg(s.take(i));
        assert(digits_value(t) == digits_value(s.take(i)) * 10 + (t.last() - 48));
    } else {
        assert(s.take(i) =~= s);
    }
}

/// Parses an unsigned decimal. Returns the value exactly when `s` is a
/// digit string whose value fits in `u64`.
pub fn parse_u64(s: &[u8]) -> (r: Option<u64>)
    ensures
        r is Some <==> is_digits(s@) && digits_value(s@) <= u64::MAX,
        r is Some ==> r->0 as int == digits_value(s@),
{
    if s.len() == 0 {
        return None;
    }
    let mut acc: u64 = 0;
    let mut i: usize = 0;
    while i < s.len()
        invariant
            0 <= i <= s@.len(),
            forall|k: int| 0 <= k < i ==> 48 <= #[trigger] s@[k] <= 57,
            acc as int == digits_value(s@.take(i as int)),
        decreases s@.len() - i,
    {
        let c = s[i];
        if c < 48 || c > 57 {
            return None;
        }
        let d: u64 = (c - 48) as u64;
        proof {
            assert(s@.take(i + 1).drop_last() =~= s@.take(i as int));
        }
        let shifted = match acc.checked_mul(10) {
            Some(v) => v,
            None => {
                proof {
                    lemma_digits_value_prefix_le_helper(s@, i as int);
                }
                return None;
            },
        };
        let next = match shifted.checked_add(d) {
            Some(v) => v,
            None => {
                proof {
                    lemma_digits_value_prefix_le_helper(s@, i as int);
                }
                return None;
            },
        };
        acc = next;
        i = i + 1;
    }
    proof {
        assert(s@.take(i as int) =~= s@);
    }
    Some(acc)
}

/// When every byte of `s` is a digit, the value of the prefix up to and
/// including position `i` bounds the value of the whole string from below.
proof fn lemma_digits_value_prefix_le_helper(s: Seq<u8>, i: int)
    requires
        forall|k: int| 0 <= k < i ==> 48 <= #[trigger] s[k] <= 57,
        0 <= i < s.len(),
        48 <= s[i] <= 57,
    ensures
        is_digits(s) ==> digits_value(s.take(i + 1)) <= digits_value(s),
{
    if is_digits(s) {
        lemma_digits_value_prefix_le(s, i + 1);
    }
}

/// Parses a signed decimal: an optional `-`, then digits. Returns the
/// value exactly when the literal is well formed and fits in `i64`.
pub fn parse_i64(s: &[u8]) -> (r: Option<i64>)
    ensures
        r is Some <==> is_int_literal(s@) && i64::MIN <= int_literal_value(s@) <= i64::MAX,
        r is Some ==> r->0 as int == int_literal_value(s@),
{
    if s.len() > 0 && s[0] == 45 {
        let digits = &s[1..s.len()];
        assert(digits@ =~= s@.skip(1));
        match parse_u64(digits) {
            Some(v) => {
                if v <= 0x8000_0000_0000_0000u64 {
                    let r: i64 = (-(v as i128)) as i64;
                    Some(r)
                } else {
                    None
                }
            },
            None => {
                proof {
                    if is_digits(s@.skip(1)) {
                        lemma_digits_value_nonneg(s@.skip(1));
                    }
                }
                None
            },
        }
    } else {
        match parse_u64(s) {
            Some(v) => {
                if v <= i64::MAX as u64 {
                    Some(v as i64)
                } else {
                    None
                }
            },
            None => {
                proof {
                    if is_digits(s@) {
                        lemma_digits_value_nonneg(s@);
                    }
                }
                None
            },
        }
    }
}

// ---------------------------------------------------------------------------
// Splitting
// ---------------------------------------------------------------------------

/// The pieces of `s` between occurrences of `sep`: always at least one
/// piece, and empty pieces are kept.
pub open spec fn split_seq(s: Seq<u8>, sep: u8) -> Seq<Seq<u8>>
    decreases s.len(),
{
    if s.len() == 0 {
        seq![Seq::<u8>::empty()]
    } else if s[0] == sep {
        seq![Seq::<u8>::empty()] + split_seq(s.skip(1), sep)
    } else {
        let rest = split_seq(s.skip(1), sep);
        seq![seq![s[0]] + rest[0]] + rest.skip(1)
    }
}

/// A split has at least one piece.
pub proof fn lemma_split_seq_len(s: Seq<u8>, sep: u8)
    ensures
        split_seq(s, sep).len() >= 1,
    decreases s.len(),
{
    if s.len() > 0 {
        lemma_split_seq_len(s.skip(1), sep);
    }
}

/// Splitting `a + b`, when `a` is free of the separator, prepends `a`
/// to the first piece of the split of `b`.
proof fn lemma_split_seq_prepend(a: Seq<u8>, b: Seq<u8>, sep: u8)
    requires
        forall|i: int| 0 <= i < a.len() ==> #[trigger] a[i] != sep,
    ensures
        split_seq(a + b, sep) == seq![a + split_seq(b, sep)[0]] + split_seq(b, sep).skip(1),
    decreases a.len(),
{
    lemma_split_seq_len(b, sep);
    if a.len() == 0 {
        assert(a + b =~= b);
        assert(a + split_seq(b, sep)[0] =~= split_seq(b, sep)[0]);
        assert(seq![split_seq(b, sep)[0]] + split_seq(b, sep).skip(1) =~= split_seq(b, sep));
    } else {
        let ab = a + b;
        assert(ab[0] == a[0]);
        assert(ab.skip(1) =~= a.skip(1) + b);
        lemma_split_seq_prepend(a.skip(1), b, sep);
        let rest = split_seq(a.skip(1) + b, sep);
        assert(split_seq(ab, sep) == seq![seq![ab[0]] + rest[0]] + rest.skip(1));
        assert(seq![ab[0]] + rest[0] =~= a + split_seq(b, sep)[0]);
        assert(rest.skip(1) =~= split_seq(b, sep).skip(1));
        assert(split_seq(ab, sep) =~= seq![a + split_seq(b, sep)[0]] + split_seq(b, sep).skip(
            1,
        ));
    }
}

/// A separator-free string splits into itself alone.
proof fn lemma_split_seq_whole(a: Seq<u8>, sep: u8)
    requires
        forall|i: int| 0 <= i < a.len() ==> #[trigger] a[i] != sep,
    ensures
        split_seq(a, sep) == seq![a],
{
    let empty = Seq::<u8>::empty();
    lemma_split_seq_prepend(a, empty, sep);
    assert(a + empty =~= a);
    assert(a + split_seq(empty, sep)[0] =~= a);
    assert(split_seq(a, sep) =~= seq![a]);
}

/// The views of a vector of byte vectors.
pub open spec fn views_of(v: Seq<Vec<u8>>) -> Seq<Seq<u8>> {
    v.map_values(|p: Vec<u8>| p@)
}

/// Splits `s` on `sep`, keeping empty pieces, as `split_seq` describes.
pub fn split_bytes(s: &[u8], sep: u8) -> (r: Vec<Vec<u8>>)
    ensures
        views_of(r@) == split_seq(s@, sep),
        r.len() >= 1,
{
    let mut out: Vec<Vec<u8>> = Vec::new();
    let mut cur: Vec<u8> = Vec::new();
    let mut i: usize = 0;
    proof {
        assert(cur@ + s@.skip(0) =~= s@);
        assert(views_of(out@) + split_seq(s@, sep) =~= split_seq(s@, sep));
    }
    while i < s.len()
        invariant
            0 <= i <= s@.len(),
            forall|k: int| 0 <= k < cur@.len() ==> #[trigger] cur@[k] != sep,
            split_seq(s@, sep) == views_of(out@) + split_seq(cur@ + s@.skip(i as int), sep),
        decreases s@.len() - i,
    {
        let c = s[i];
        if c == sep {
            proof {
                let tail = s@.skip(i as int);
                assert(tail[0] == sep);
                assert(tail.skip(1) =~= s@.skip(i + 1));
                lemma_split_seq_prepend(cur@, tail, sep);
                assert(split_seq(tail, sep) == seq![Seq::<u8>::empty()] + split_seq(
                    s@.skip(i + 1),
                    sep,
                ));
                assert(cur@ + split_seq(tail, sep)[0] =~= cur@);
                assert(split_seq(cur@ + tail, sep) =~= seq![cur@] + split_seq(
                    s@.skip(i + 1),
                    sep,
                ));
                assert(Seq::<u8>::empty() + s@.skip(i + 1) =~= s@.skip(i + 1));
                assert(views_of(out@.push(cur)) =~= views_of(out@) + seq![cur@]);
            }
            out.push(cur);
            cur = Vec::new();
        } else {
            proof {
                let tail = s@.skip(i as int);
                assert(tail[0] == c);
                assert(tail.skip(1) =~= s@.skip(i + 1));
                assert(cur@.push(c) + s@.skip(i + 1) =~= cur@ + tail);
            }
            cur.push(c);
        }
        i = i + 1;
    }
    proof {
        assert(cur@ + s@.skip(i as int) =~= cur@);
        lemma_split_seq_whole(cur@, sep);
        assert(views_of(out@.push(cur)) =~= views_of(out@) + seq![cur@]);
        assert(views_of(out@.push(cur)) =~= split_seq(s@, sep));
        lemma_split_seq_len(s@, sep);
    }
    out.push(cur);
    out
}

// ---------------------------------------------------------------------------
// Big-endian encoding
// ---------------------------------------------------------------------------

/// The eight bytes of `x`, most significant first.
pub open spec fn be8(x: u64) -> Seq<u8> {
    seq![
        ((x as int / 0x100000000000000) % 256) as u8,
        ((x as int / 0x1000000000000) % 256) as u8,
        ((x as int / 0x10000000000) % 256) as u8,
        ((x as int / 0x100000000) % 256) as u8,
        ((x as int / 0x1000000) % 256) as u8,
        ((x as int / 0x10000) % 256) as u8,
        ((x as int / 0x100) % 256) as u8,
        ((x as int) % 256) as u8,
    ]
}

/// The two's-complement `u64` representation of a signed 64-bit value.
pub open spec fn u64_rep(x: int) -> u64
    recommends
        i64::MIN <= x <= i64::MAX,
{
    if x >= 0 {
        x as u64
    } else {
        (x + 0x10000000000000000) as u64
    }
}

/// The eight big-endian bytes of a signed 64-bit value, two's complement.
pub open spec fn be8_i64(x: int) -> Seq<u8>
    recommends
        i64::MIN <= x <= i64::MAX,
{
    be8(u64_rep(x))
}

/// The four big-endian bytes of a 32-bit value.
pub open spec fn be4(x: u32) -> Seq<u8> {
    seq![
        ((x as int / 0x1000000) % 256) as u8,
        ((x as int / 0x10000) % 256) as u8,
        ((x as int / 0x100) % 256) as u8,
        ((x as int) % 256) as u8,
    ]
}

/// Appends the eight big-endian bytes of `x` to `out`.
pub fn push_be_u64(out: &mut Vec<u8>, x: u64)
    ensures
        final(out)@ == old(out)@ + be8(x),
{
    out.push((x / 0x100000000000000 % 256) as u8);
    out.push((x / 0x1000000000000 % 256) as u8);
    out.push((x / 0x10000000000 % 256) as u8);
    out.push((x / 0x100000000 % 256) as u8);
    out.push((x / 0x1000000 % 256) as u8);
    out.push((x / 0x10000 % 256) as u8);
    out.push((x / 0x100 % 256) as u8);
    out.push((x % 256) as u8);
    assert(out@ =~= old(out)@ + be8(x));
}

/// Appends the eight big-endian two's-complement bytes of `x` to `out`.
pub fn push_be_i64(out: &mut Vec<u8>, x: i64)
    ensures
        final(out)@ == old(out)@ + be8_i64(x as int),
{
    let m: u64 = if x >= 0 {
        x as u64
    } else {
        let mag: u64 = (-(x as i128)) as u64;
        (u64::MAX - mag) + 1
    };
    assert(m == u64_rep(x as int));
    push_be_u64(out, m);
}

/// Appends the four big-endian bytes of `x` to `out`.
pub fn push_be_u32(out: &mut Vec<u8>, x: u32)
    ensures
        final(out)@ == old(out)@ + be4(x),
{
    out.push((x / 0x1000000 % 256) as u8);
    out.push((x / 0x10000 % 256) as u8);
    out.push((x / 0x100 % 256) as u8);
    out.push((x % 256) as u8);
    assert(out@ =~= old(out)@ + be4(x));
}

/// Reads a big-endian `u32` from the first four bytes.
pub fn read_be_u32(s: &[u8]) -> (r: Option<u32>)
    ensures
        r is Some <==> s@.len() >= 4,
        r is Some ==> be4(r->0) == s@.take(4),
{
    if s.len() < 4 {
        return None;
    }
    let x: u32 = (s[0] as u32) * 0x1000000 + (s[1] as u32) * 0x10000 + (s[2] as u32) * 0x100 + (
    s[3] as u32);
    proof {
        let a0 = s@[0] as int;
        let a1 = s@[1] as int;
        let a2 = s@[2] as int;
        let a3 = s@[3] as int;
        assert(x as int == a0 * 0x1000000 + a1 * 0x10000 + a2 * 0x100 + a3);
        vstd::arithmetic::div_mod::lemma_fundamental_div_mod_converse(
            x as int,
            0x1000000,
            a0,
            a1 * 0x10000 + a2 * 0x100 + a3,
        );
        vstd::arithmetic::div_mod::lemma_fundamental_div_mod_converse(
            x as int,
            0x10000,
            a0 * 0x100 + a1,
            a2 * 0x100 + a3,
        );
        vstd::arithmetic::div_mod::lemma_fundamental_div_mod_converse(
            x as int,
            0x100,
            a0 * 0x10000 + a1 * 0x100 + a2,
            a3,
        );
        vstd::arithmetic::div_mod::lemma_mod_multiples_vanish(a0, a1, 0x100);
        vstd::arithmetic::div_mod::lemma_mod_multiples_vanish(a0 * 0x100 + a1, a2, 0x100);
        vstd::arithmetic::div_mod::lemma_small_mod(a0 as nat, 0x100);
        vstd::arithmetic::div_mod::lemma_small_mod(a1 as nat, 0x100);
        vstd::arithmetic::div_mod::lemma_small_mod(a2 as nat, 0x100);
        vstd::arithmetic::div_mod::lemma_small_mod(a3 as nat, 0x100);
        assert(be4(x) =~= s@.take(4));
    }
    Some(x)
}

/// Appends a copy of `s` to `out`.
pub fn push_bytes(out: &mut Vec<u8>, s: &[u8])
    ensures
        final(out)@ == old(out)@ + s@,
{
    let mut i: usize = 0;
    while i < s.len()
        invariant
            0 <= i <= s@.len(),
            out@ == old(out)@ + s@.take(i as int),
        decreases s@.len() - i,
    {
        out.push(s[i]);
        proof {
            assert(old(out)@ + s@.take(i as int) + seq![s@[i as int]] =~= old(out)@ + s@.take(
                i + 1,
            ));
        }
        i = i + 1;
    }
    proof {
        assert(s@.take(i as int) =~= s@);
    }
}

} // verus!
