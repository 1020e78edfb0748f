//! Byte-level text primitives shared by the envelope and event grammars:
//! token scanning, decimal digit runs, and their mathematical models.

use vstd::prelude::*;
use vstd::slice::{slice_index_get, slice_subrange, slice_to_vec};
use vstd::arithmetic::div_mod::lemma_fundamental_div_mod_converse;

verus! {

pub const SPACE: u8 = 32;
pub const LT: u8 = 60;
pub const GT: u8 = 62;
pub const DASH: u8 = 45;
pub const QUOTE: u8 = 34;
pub const SLASH: u8 = 47;
pub const COLON: u8 = 58;
pub const TEE: u8 = 84;
pub const ZED: u8 = 90;
pub const DIGIT0: u8 = 48;
pub const LBRACE: u8 = 123;
pub const RBRACE: u8 = 125;
pub const COMMA: u8 = 44;
pub const BACKSLASH: u8 = 92;
pub const NEWLINE: u8 = 10;

pub open spec fn is_digit(b: u8) -> bool {
    DIGIT0 <= b && b <= 57
}

pub open spec fn all_digits(s: Seq<u8>) -> bool {
    forall|i: int| 0 <= i < s.len() ==> is_digit(#[trigger] s[i])
}

/// A canonical decimal token: nonempty, digits only, no leading zero.
pub open spec fn is_canon_digits(s: Seq<u8>) -> bool {
    s.len() > 0 && all_digits(s) && (s.len() > 1 ==> s[0] != DIGIT0)
}

/// Index of the first occurrence of `b` in `s` at or after `from`;
/// `s.len()` when there is none.
pub open spec fn find_from(s: Seq<u8>, from: int, b: u8) -> int
    decreases s.len() - from,
{
    if 0 <= from < s.len() {
        if s[from] == b {
            from
        } else {
            find_from(s, from + 1, b)
        }
    } else {
        s.len() as int
    }
}

pub proof fn lemma_find_from(s: Seq<u8>, from: int, b: u8)
    requires
        0 <= from <= s.len(),
    ensures
        from <= find_from(s, from, b) <= s.len(),
        find_from(s, from, b) < s.len() ==> s[find_from(s, from, b)] == b,
        forall|j: int| from <= j < find_from(s, from, b) ==> s[j] != b,
    decreases s.len() - from,
{
    if from < s.len() && s[from] != b {
        lemma_find_from(s, from + 1, b);
    }
}

pub fn find_byte(s: &[u8], from: usize, b: u8) -> (r: usize)
    requires
        from <= s@.len(),
    ensures
        r == find_from(s@, from as int, b),
{
    let mut i: usize = from;
    loop
        invariant
            from <= i <= s@.len(),
            find_from(s@, from as int, b) == find_from(s@, i as int, b),
        decreases s@.len() - i,
    {
        if i == s.len() {
            return i;
        }
        if *slice_index_get(s, i) == b {
            return i;
        }
        i = i + 1;
    }
}

/// The numeric value of a digit run, most significant digit first.
pub open spec fn digits_val(s: Seq<u8>) -> nat
    decreases s.len(),
{
    if s.len() == 0 {
        0
    } else {
        digits_val(s.drop_last()) * 10 + (s.last() - DIGIT0) as nat
    }
}

pub open spec fn pow10(n: nat) -> nat
    decreases n,
{
    if n == 0 {
        1
    } else {
        10 * pow10((n - 1) as nat)
    }
}

pub proof fn lemma_pow10_18()
    ensures
        pow10(18) == 1000000000000000000,
{
    reveal_with_fuel(pow10, 19);
}

pub proof fn lemma_pow10_3()
    ensures
        pow10(3) == 1000,
{
    reveal_with_fuel(pow10, 4);
}

pub proof fn lemma_digits_val_bound(s: Seq<u8>)
    requires
        all_digits(s),
    ensures
        digits_val(s) < pow10(s.len() as nat),
    decreases s.len(),
{
    if s.len() > 0 {
        assert(all_digits(s.drop_last()));
        lemma_digits_val_bound(s.drop_last());
    }
}

pub proof fn lemma_pow10_mono(m: nat, n: nat)
    requires
        m <= n,
    ensures
        pow10(m) <= pow10(n),
    decreases n,
{
    if m < n {
        lemma_pow10_mono(m, (n - 1) as nat);
        assert(pow10(n) == 10 * pow10((n - 1) as nat));
    }
}

pub proof fn lemma_digits_val_pos(s: Seq<u8>)
    requires
        all_digits(s),
        s.len() >= 1,
        s[0] != DIGIT0,
    ensures
        digits_val(s) >= 1,
    decreases s.len(),
{
    if s.len() == 1 {
        assert(is_digit(s[0]));
    } else {
        assert(s.drop_last()[0] == s[0]);
        assert(all_digits(s.drop_last()));
        lemma_digits_val_pos(s.drop_last());
    }
}

/// The canonical decimal rendering of a natural number.
pub open spec fn dec_digits(n: nat) -> Seq<u8>
    decreases n,
{
    if n < 10 {
        seq![(DIGIT0 + n) as u8]
    } else {
        dec_digits(n / 10).push((DIGIT0 + n % 10) as u8)
    }
}

pub proof fn lemma_canon_digits_dec(s: Seq<u8>)
    requires
        is_canon_digits(s),
    ensures
        dec_digits(digits_val(s)) =~= s,
    decreases s.len(),
{
    if s.len() == 1 {
        assert(is_digit(s[0]));
        assert(s.drop_last() =~= Seq::<u8>::empty());
        assert(digits_val(s.drop_last()) == 0);
        assert(s.last() == s[0]);
        assert(digits_val(s) == (s[0] - DIGIT0) as nat);
        assert(dec_digits(digits_val(s)) =~= seq![s[0]]);
    } else {
        let t = s.drop_last();
        assert(t[0] == s[0]);
        assert(all_digits(t));
        assert(is_canon_digits(t));
        lemma_canon_digits_dec(t);
        lemma_digits_val_pos(t);
        let v = digits_val(s);
        let d = (s.last() - DIGIT0) as nat;
        assert(is_digit(s.last()));
        assert(v == digits_val(t) * 10 + d);
        lemma_fundamental_div_mod_converse(v as int, 10, digits_val(t) as int, d as int);
        assert(v / 10 == digits_val(t));
        assert(v % 10 == d);
        assert(v >= 10);
        assert(dec_digits(v) =~= dec_digits(digits_val(t)).push((DIGIT0 + d) as u8));
        assert(dec_digits(v) =~= t.push(s.last()));
        assert(t.push(s.last()) =~= s);
    }
}

pub fn digits_in(s: &[u8], from: usize, to: usize) -> (r: bool)
    requires
        from <= to <= s@.len(),
    ensures
        r == all_digits(s@.subrange(from as int, to as int)),
{
    let ghost sub = s@.subrange(from as int, to as int);
    let mut i: usize = from;
    loop
        invariant
            from <= i <= to <= s@.len(),
            sub == s@.subrange(from as int, to as int),
            forall|j: int| 0 <= j < i - from ==> is_digit(#[trigger] sub[j]),
        decreases to - i,
    {
        if i == to {
            return true;
        }
        let b = *slice_index_get(s, i);
        assert(sub[i - from] == s@[i as int]);
        if !(48 <= b && b <= 57) {
            return false;
        }
        i = i + 1;
    }
}

/// Parses a digit run into its value; at most 18 digits so the value fits.
pub fn parse_digits(s: &[u8], from: usize, to: usize) -> (r: u64)
    requires
        from <= to <= s@.len(),
        all_digits(s@.subrange(from as int, to as int)),
        to - from <= 18,
    ensures
        r == digits_val(s@.subrange(from as int, to as int)),
{
    let ghost sub = s@.subrange(from as int, to as int);
    let mut acc: u64 = 0;
    let mut i: usize = from;
    loop
        invariant
            from <= i <= to <= s@.len(),
            to - from <= 18,
            sub == s@.subrange(from as int, to as int),
            all_digits(sub),
            acc == digits_val(s@.subrange(from as int, i as int)),
        decreases to - i,
    {
        if i == to {
            assert(s@.subrange(from as int, i as int) =~= sub);
            return acc;
        }
        let b = *slice_index_get(s, i);
        assert(sub[i - from] == s@[i as int]);
        proof {
            let pre = s@.subrange(from as int, i as int);
            assert(all_digits(pre)) by {
                assert(forall|j: int| 0 <= j < pre.len() ==> pre[j] == sub[j]);
            }
            lemma_digits_val_bound(pre);
            lemma_pow10_mono(pre.len() as nat, 17);
            lemma_pow10_mono(17, 18);
            lemma_pow10_18();
            assert(pow10(17) * 10 <= pow10(18)) by {
                assert(pow10(18) == 10 * pow10(17));
            }
        }
        acc = acc * 10 + ((b - 48) as u64);
        proof {
            let pre = s@.subrange(from as int, i as int);
            let nxt = s@.subrange(from as int, i + 1);
            assert(nxt.drop_last() =~= pre);
            assert(nxt.last() == s@[i as int]);
        }
        i = i + 1;
    }
}

/// Copies the byte range `[from, to)` of `s` into a fresh vector.
pub fn sub_vec(s: &[u8], from: usize, to: usize) -> (r: Vec<u8>)
    requires
        from <= to <= s@.len(),
    ensures
        r@ == s@.subrange(from as int, to as int),
{
    slice_to_vec(slice_subrange(s, from, to))
}

pub fn bytes_eq(a: &[u8], b: &[u8]) -> (r: bool)
    ensures
        r == (a@ == b@),
{
    if a.len() != b.len() {
        assert(a@.len() != b@.len());
        return false;
    }
    let mut i: usize = 0;
    loop
        invariant
            0 <= i <= a@.len(),
            a@.len() == b@.len(),
            forall|j: int| 0 <= j < i ==> a@[j] == b@[j],
        decreases a@.len() - i,
    {
        if i == a.len() {
            assert(a@ =~= b@);
            return true;
        }
        if *slice_index_get(a, i) != *slice_index_get(b, i) {
            assert(a@[i as int] != b@[i as int]);
            return false;
        }
        i = i + 1;
    }
}

pub fn has_prefix(s: &[u8], p: &[u8]) -> (r: bool)
    ensures
        r == p@.is_prefix_of(s@),
{
    if p.len() > s.len() {
        assert(!p@.is_prefix_of(s@));
        return false;
    }
    let front = slice_subrange(s, 0, p.len());
    let r = bytes_eq(front, p);
    proof {
        if r {
            assert(p@ =~= s@.subrange(0, p@.len() as int));
        } else {
            assert(s@.subrange(0, p@.len() as int) != p@);
        }
    }
    r
}

} // verus!

