//! Lexicographic order on byte strings and big-endian integer encoding.
//!
//! All keys of the key-value store are byte strings compared lexicographically.
//! The historical overlay suffixes keys with a big-endian encoded height, so
//! the order of encoded heights under the byte order must agree with the
//! numeric order; the lemmas here establish that.

use vstd::prelude::*;
use vstd::arithmetic::div_mod::{
    lemma_div_is_ordered, lemma_fundamental_div_mod, lemma_multiply_divide_lt,
};
use vstd::arithmetic::power::pow;

verus! {

/// Strict lexicographic order on byte strings: `a` comes before `b`.
pub open spec fn lex_lt(a: Seq<u8>, b: Seq<u8>) -> bool
    decreases a.len(),
{
    if b.len() == 0 {
        false
    } else if a.len() == 0 {
        true
    } else if a[0] < b[0] {
        true
    } else if a[0] > b[0] {
        false
    } else {
        lex_lt(a.skip(1), b.skip(1))
    }
}

/// `i` witnesses that `a` is lexicographically before `b`: the strings agree
/// on their first `i` bytes and either differ at position `i` or `a` ends.
pub open spec fn lt_witness(a: Seq<u8>, b: Seq<u8>, i: int) -> bool {
    &&& 0 <= i <= a.len()
    &&& i <= b.len()
    &&& a.take(i) == b.take(i)
    &&& ((i < a.len() && i < b.len() && a[i] < b[i]) || (i == a.len() && i < b.len()))
}

/// The recursive order and its witness form agree.
pub proof fn lemma_lex_lt_iff_witness(a: Seq<u8>, b: Seq<u8>)
    ensures
        lex_lt(a, b) <==> exists|i: int| lt_witness(a, b, i),
    decreases a.len(),
{
    if b.len() == 0 {
        assert(forall|i: int| !lt_witness(a, b, i));
    } else if a.len() == 0 {
        assert(a.take(0) =~= b.take(0));
        assert(lt_witness(a, b, 0));
    } else if a[0] < b[0] {
        assert(a.take(0) =~= b.take(0));
        assert(lt_witness(a, b, 0));
    } else if a[0] > b[0] {
        assert forall|i: int| !lt_witness(a, b, i) by {
            if 0 < i <= a.len() && i <= b.len() && a.take(i) == b.take(i) {
                assert(a.take(i)[0] == b.take(i)[0]);
            }
        }
    } else {
        lemma_lex_lt_iff_witness(a.skip(1), b.skip(1));
        if lex_lt(a, b) {
            let j = choose|j: int| lt_witness(a.skip(1), b.skip(1), j);
            assert(a.take(j + 1) =~= b.take(j + 1)) by {
                assert(a.skip(1).take(j) == b.skip(1).take(j));
                assert forall|m: int| 0 <= m < j + 1 implies a[m] == b[m] by {
                    if m > 0 {
                        assert(a.skip(1).take(j)[m - 1] == a[m]);
                        assert(b.skip(1).take(j)[m - 1] == b[m]);
                    }
                }
            }
            if j + 1 < a.len() && j + 1 < b.len() {
                assert(a.skip(1)[j] == a[j + 1]);
                assert(b.skip(1)[j] == b[j + 1]);
            }
            assert(lt_witness(a, b, j + 1));
        }
        if exists|i: int| lt_witness(a, b, i) {
            let i = choose|i: int| lt_witness(a, b, i);
            assert(i > 0) by {
                if i == 0 {
                    assert(a.take(0) == b.take(0));
                }
            }
            assert(a.take(i)[0] == b.take(i)[0]);
            assert(a.skip(1).take(i - 1) =~= b.skip(1).take(i - 1)) by {
                assert forall|m: int| 0 <= m < i - 1 implies a.skip(1)[m] == b.skip(1)[m] by {
                    assert(a.take(i)[m + 1] == b.take(i)[m + 1]);
                }
            }
            if i < a.len() && i < b.len() {
                assert(a.skip(1)[i - 1] == a[i]);
                assert(b.skip(1)[i - 1] == b[i]);
            }
            assert(lt_witness(a.skip(1), b.skip(1), i - 1));
        }
    }
}

/// The order is irreflexive and asymmetric.
pub proof fn lemma_lex_lt_asymmetric(a: Seq<u8>, b: Seq<u8>)
    ensures
        !(lex_lt(a, b) && lex_lt(b, a)),
        !lex_lt(a, a),
{
    lemma_lex_lt_iff_witness(a, b);
    lemma_lex_lt_iff_witness(b, a);
    lemma_lex_lt_iff_witness(a, a);
    if lex_lt(a, b) && lex_lt(b, a) {
        let i = choose|i: int| lt_witness(a, b, i);
        let j = choose|j: int| lt_witness(b, a, j);
        if i < j {
            assert(b.take(j)[i] == a.take(j)[i]);
        } else if j < i {
            assert(a.take(i)[j] == b.take(i)[j]);
        }
    }
    if lex_lt(a, a) {
        let i = choose|i: int| lt_witness(a, a, i);
    }
}

/// The order is transitive.
pub proof fn lemma_lex_lt_transitive(a: Seq<u8>, b: Seq<u8>, c: Seq<u8>)
    ensures
        lex_lt(a, b) && lex_lt(b, c) ==> lex_lt(a, c),
{
    lemma_lex_lt_iff_witness(a, b);
    lemma_lex_lt_iff_witness(b, c);
    lemma_lex_lt_iff_witness(a, c);
    if lex_lt(a, b) && lex_lt(b, c) {
        let i = choose|i: int| lt_witness(a, b, i);
        let j = choose|j: int| lt_witness(b, c, j);
        let k = if i <= j { i } else { j };
        assert(a.take(k) =~= c.take(k)) by {
            assert forall|m: int| 0 <= m < k implies a[m] == c[m] by {
                assert(a.take(i)[m] == b.take(i)[m]);
                assert(b.take(j)[m] == c.take(j)[m]);
            }
        }
        if i < j {
            // a and b differ (or a ends) at i; b and c agree there.
            if i < a.len() {
                assert(b.take(j)[i] == c.take(j)[i]);
                assert(lt_witness(a, c, i));
            } else {
                assert(lt_witness(a, c, i));
            }
        } else if j < i {
            // a and b agree at j; b and c differ (or b ends) at j.
            assert(a.take(i)[j] == b.take(i)[j]);
            assert(lt_witness(a, c, j));
        } else {
            if i < a.len() && i < b.len() {
                if j < b.len() && j < c.len() {
                    assert(lt_witness(a, c, i));
                } else {
                    assert(lt_witness(a, c, i));
                }
            } else {
                assert(lt_witness(a, c, i));
            }
        }
    }
}

/// Two distinct strings are ordered one way or the other.
pub proof fn lemma_lex_lt_total(a: Seq<u8>, b: Seq<u8>)
    ensures
        lex_lt(a, b) || lex_lt(b, a) || a =~= b,
    decreases a.len(),
{
    if b.len() == 0 {
        if a.len() == 0 {
            assert(a =~= b);
        }
    } else if a.len() == 0 {
    } else if a[0] < b[0] || a[0] > b[0] {
    } else {
        lemma_lex_lt_total(a.skip(1), b.skip(1));
        if a.skip(1) =~= b.skip(1) {
            assert(a.len() == b.len());
            assert forall|m: int| 0 <= m < a.len() implies a[m] == b[m] by {
                if m > 0 {
                    assert(a.skip(1)[m - 1] == b.skip(1)[m - 1]);
                }
            }
            assert(a =~= b);
        }
    }
}

/// Appending to both sides of a shared prefix preserves the comparison of the
/// appended parts.
pub proof fn lemma_lex_lt_common_prefix(p: Seq<u8>, x: Seq<u8>, y: Seq<u8>)
    ensures
        lex_lt(p + x, p + y) <==> lex_lt(x, y),
    decreases p.len(),
{
    if p.len() == 0 {
        assert(p + x =~= x);
        assert(p + y =~= y);
    } else {
        lemma_lex_lt_common_prefix(p.skip(1), x, y);
        assert((p + x).skip(1) =~= p.skip(1) + x);
        assert((p + y).skip(1) =~= p.skip(1) + y);
        assert((p + x)[0] == p[0]);
        assert((p + y)[0] == p[0]);
    }
}

/// Strictly ordered strings of equal length stay ordered whatever is appended
/// to each.
pub proof fn lemma_lex_lt_append_when_lt(a: Seq<u8>, b: Seq<u8>, x: Seq<u8>, y: Seq<u8>)
    requires
        a.len() == b.len(),
        lex_lt(a, b),
    ensures
        lex_lt(a + x, b + y),
{
    lemma_lex_lt_iff_witness(a, b);
    lemma_lex_lt_iff_witness(a + x, b + y);
    let i = choose|i: int| lt_witness(a, b, i);
    assert(i < a.len());
    assert((a + x).take(i) =~= (b + y).take(i)) by {
        assert forall|m: int| 0 <= m < i implies (a + x)[m] == (b + y)[m] by {
            assert(a.take(i)[m] == b.take(i)[m]);
        }
    }
    assert((a + x)[i] == a[i]);
    assert((b + y)[i] == b[i]);
    assert(lt_witness(a + x, b + y, i));
}

/// Big-endian digits of `v` in `n` bytes, most significant first.
pub open spec fn be_bytes(v: nat, n: nat) -> Seq<u8>
    decreases n,
{
    if n == 0 {
        Seq::empty()
    } else {
        be_bytes(v / 256, (n - 1) as nat).push((v % 256) as u8)
    }
}

/// The integer a big-endian digit string denotes.
pub open spec fn be_val(s: Seq<u8>) -> nat
    decreases s.len(),
{
    if s.len() == 0 {
        0
    } else {
        be_val(s.drop_last()) * 256 + s.last() as nat
    }
}

/// An eight-byte big-endian height suffix.
pub open spec fn be8(v: u64) -> Seq<u8> {
    be_bytes(v as nat, 8)
}

pub proof fn lemma_be_bytes_len(v: nat, n: nat)
    ensures
        be_bytes(v, n).len() == n,
    decreases n,
{
    if n > 0 {
        lemma_be_bytes_len(v / 256, (n - 1) as nat);
    }
}

/// Encoding then decoding gives the value back, for values that fit.
pub proof fn lemma_be_val_of_be_bytes(v: nat, n: nat)
    requires
        v < pow(256, n),
    ensures
        be_val(be_bytes(v, n)) == v,
    decreases n,
{
    reveal(pow);
    if n == 0 {
    } else {
        let p = be_bytes(v / 256, (n - 1) as nat);
        lemma_multiply_divide_lt(v as int, 256, pow(256, (n - 1) as nat));
        lemma_be_val_of_be_bytes(v / 256, (n - 1) as nat);
        assert(be_bytes(v, n).drop_last() =~= p);
        lemma_fundamental_div_mod(v as int, 256);
    }
}

pub proof fn lemma_be_val_bound(s: Seq<u8>)
    ensures
        be_val(s) < pow(256, s.len()),
    decreases s.len(),
{
    reveal(pow);
    if s.len() == 0 {
        assert(pow(256, 0) == 1);
    } else {
        lemma_be_val_bound(s.drop_last());
        assert(pow(256, s.len()) == 256 * pow(256, (s.len() - 1) as nat));
    }
}

/// The byte order of equal-width encodings agrees with the numeric order.
pub proof fn lemma_be_bytes_order(v1: nat, v2: nat, n: nat)
    requires
        v1 < v2,
        v2 < pow(256, n),
    ensures
        lex_lt(be_bytes(v1, n), be_bytes(v2, n)),
    decreases n,
{
    reveal(pow);
    if n == 0 {
        assert(pow(256, 0) == 1);
    } else {
        let m = (n - 1) as nat;
        let hi1 = v1 / 256;
        let hi2 = v2 / 256;
        let lo1 = v1 % 256;
        let lo2 = v2 % 256;
        let p1 = be_bytes(hi1, m);
        let p2 = be_bytes(hi2, m);
        lemma_div_is_ordered(v1 as int, v2 as int, 256);
        lemma_multiply_divide_lt(v2 as int, 256, pow(256, m));
        lemma_be_bytes_len(hi1, m);
        lemma_be_bytes_len(hi2, m);
        assert(be_bytes(v1, n) =~= p1 + seq![(lo1) as u8]);
        assert(be_bytes(v2, n) =~= p2 + seq![(lo2) as u8]);
        if hi1 == hi2 {
            lemma_fundamental_div_mod(v1 as int, 256);
            lemma_fundamental_div_mod(v2 as int, 256);
            assert(lo1 < lo2);
            lemma_lex_lt_common_prefix(p1, seq![(lo1) as u8], seq![(lo2) as u8]);
            assert(lex_lt(seq![(lo1) as u8], seq![(lo2) as u8]));
        } else {
            lemma_be_bytes_order(hi1, hi2, m);
            lemma_lex_lt_append_when_lt(p1, p2, seq![(lo1) as u8], seq![(lo2) as u8]);
        }
    }
}

/// Equal-width encodings of distinct values differ.
pub proof fn lemma_be_bytes_injective(v1: nat, v2: nat, n: nat)
    requires
        v1 < pow(256, n),
        v2 < pow(256, n),
        be_bytes(v1, n) == be_bytes(v2, n),
    ensures
        v1 == v2,
{
    if v1 < v2 {
        lemma_be_bytes_order(v1, v2, n);
        lemma_lex_lt_asymmetric(be_bytes(v1, n), be_bytes(v2, n));
    } else if v2 < v1 {
        lemma_be_bytes_order(v2, v1, n);
        lemma_lex_lt_asymmetric(be_bytes(v1, n), be_bytes(v2, n));
    }
}

/// Encodes `v` in `n` big-endian bytes.
pub fn enc_be(v: u64, n: usize) -> (r: Vec<u8>)
    ensures
        r@ == be_bytes(v as nat, n as nat),
    decreases n,
{
    if n == 0 {
        Vec::new()
    } else {
        let mut r = enc_be(v / 256, n - 1);
        r.push((v % 256) as u8);
        r
    }
}

/// Encodes a height as its eight-byte big-endian suffix.
pub fn enc_be8(v: u64) -> (r: Vec<u8>)
    ensures
        r@ == be8(v),
{
    enc_be(v, 8)
}

/// Decodes an eight-byte big-endian integer.
pub fn dec_be8(s: &Vec<u8>) -> (r: u64)
    requires
        s@.len() == 8,
    ensures
        r as nat == be_val(s@),
{
    proof {
        reveal(pow);
        vstd::arithmetic::power::lemma_pow_positive(256, 8);
    }
    let mut val: u64 = 0;
    let mut i: usize = 0;
    while i < 8
        invariant
            0 <= i <= 8,
            s@.len() == 8,
            val as nat == be_val(s@.take(i as int)),
            (val as nat) < pow(256, i as nat),
        decreases 8 - i,
    {
        proof {
            reveal(pow);
            assert(s@.take(i + 1).drop_last() =~= s@.take(i as int));
            assert(s@.take(i + 1).last() == s@[i as int]);
            lemma_be_val_bound(s@.take(i + 1));
            assert(pow(256, (i + 1) as nat) == 256 * pow(256, i as nat));
            assert(pow(256, 8) == 256 * pow(256, 7));
            assert(pow(256, 7) == 256 * pow(256, 6));
            assert(pow(256, 6) == 256 * pow(256, 5));
            assert(pow(256, 5) == 256 * pow(256, 4));
            assert(pow(256, 4) == 256 * pow(256, 3));
            assert(pow(256, 3) == 256 * pow(256, 2));
            assert(pow(256, 2) == 256 * pow(256, 1));
            assert(pow(256, 1) == 256 * pow(256, 0));
            assert(pow(256, 0) == 1);
            vstd::arithmetic::power::lemma_pow_increases(256, (i + 1) as nat, 8);
        }
        val = val * 256 + (s[i] as u64);
        i = i + 1;
    }
    proof {
        assert(s@.take(8) =~= s@);
    }
    val
}

/// Three-way comparison outcome for byte strings.
#[derive(PartialEq, Eq, Structural, Clone, Copy, Debug)]
pub enum KeyCmp {
    Less,
    Equal,
    Greater,
}

/// Compares two byte strings lexicographically.
pub fn bytes_cmp(a: &Vec<u8>, b: &Vec<u8>) -> (r: KeyCmp)
    ensures
        r == KeyCmp::Less <==> lex_lt(a@, b@),
        r == KeyCmp::Equal <==> a@ == b@,
        r == KeyCmp::Greater <==> lex_lt(b@, a@),
{
    let alen = a.len();
    let blen = b.len();
    let n = if alen < blen { alen } else { blen };
    let mut i: usize = 0;
    while i < n
        invariant
            0 <= i <= n,
            n == if alen < blen { alen } else { blen },
            alen == a@.len(),
            blen == b@.len(),
            forall|m: int| 0 <= m < i ==> a@[m] == b@[m],
        decreases n - i,
    {
        if a[i] < b[i] {
            proof {
                assert(a@.take(i as int) =~= b@.take(i as int));
                assert(lt_witness(a@, b@, i as int));
                lemma_lex_lt_iff_witness(a@, b@);
                lemma_lex_lt_asymmetric(a@, b@);
            }
            return KeyCmp::Less;
        }
        if a[i] > b[i] {
            proof {
                assert(b@.take(i as int) =~= a@.take(i as int));
                assert(lt_witness(b@, a@, i as int));
                lemma_lex_lt_iff_witness(b@, a@);
                lemma_lex_lt_asymmetric(b@, a@);
            }
            return KeyCmp::Greater;
        }
        i = i + 1;
    }
    if alen == blen {
        proof {
            assert(a@ =~= b@);
            lemma_lex_lt_asymmetric(a@, b@);
        }
        KeyCmp::Equal
    } else if alen < blen {
        proof {
            assert(a@.take(alen as int) =~= b@.take(alen as int));
            assert(lt_witness(a@, b@, alen as int));
            lemma_lex_lt_iff_witness(a@, b@);
            lemma_lex_lt_asymmetric(a@, b@);
        }
        KeyCmp::Less
    } else {
        proof {
            assert(b@.take(blen as int) =~= a@.take(blen as int));
            assert(lt_witness(b@, a@, blen as int));
            lemma_lex_lt_iff_witness(b@, a@);
            lemma_lex_lt_asymmetric(b@, a@);
        }
        KeyCmp::Greater
    }
}

/// Does `big` start with `small`?
pub fn starts_with(big: &Vec<u8>, small: &Vec<u8>) -> (r: bool)
    ensures
        r <==> (small@.len() <= big@.len() && big@.take(small@.len() as int) == small@),
{
    if small.len() > big.len() {
        return false;
    }
    let n = small.len();
    let mut i: usize = 0;
    while i < n
        invariant
            0 <= i <= n,
            n == small@.len(),
            n <= big@.len(),
            forall|m: int| 0 <= m < i ==> big@[m] == small@[m],
        decreases n - i,
    {
        if big[i] != small[i] {
            proof {
                assert(big@.take(n as int)[i as int] == big@[i as int]);
            }
            return false;
        }
        i = i + 1;
    }
    proof {
        assert(big@.take(n as int) =~= small@);
    }
    true
}

/// Copies a byte string.
pub fn clone_bytes(v: &Vec<u8>) -> (r: Vec<u8>)
    ensures
        r@ == v@,
{
    let mut r: Vec<u8> = Vec::new();
    let n = v.len();
    let mut i: usize = 0;
    while i < n
        invariant
            0 <= i <= n,
            n == v@.len(),
            r@ == v@.take(i as int),
        decreases n - i,
    {
        r.push(v[i]);
        proof {
            assert(r@ =~= v@.take(i + 1));
        }
        i = i + 1;
    }
    proof {
        assert(v@.take(n as int) =~= v@);
    }
    r
}

/// Concatenates two byte strings into a fresh one.
pub fn concat_bytes(a: &Vec<u8>, b: &Vec<u8>) -> (r: Vec<u8>)
    ensures
        r@ == a@ + b@,
{
    let mut r = clone_bytes(a);
    let n = b.len();
    let mut i: usize = 0;
    while i < n
        invariant
            0 <= i <= n,
            n == b@.len(),
            r@ == a@ + b@.take(i as int),
        decreases n - i,
    {
        r.push(b[i]);
        proof {
            assert(r@ =~= a@ + b@.take(i + 1));
        }
        i = i + 1;
    }
    proof {
        assert(a@ + b@.take(n as int) =~= a@ + b@);
    }
    r
}

} // verus!
