//! Checksums.

use vstd::prelude::*;

use crate::text;

verus! {

/// The SHA-256 digest of some bytes.
pub uninterp spec fn sha256(bytes: Seq<u8>) -> Seq<u8>;

/// `sha2::Sha256` digests some bytes to thirty-two others, which depend on them
/// alone.
#[verifier::external_body]
pub(crate) fn sha256_digest(bytes: &Vec<u8>) -> (r: Vec<u8>)
    ensures
        r@ == sha256(bytes@),
        r@.len() == 32,
{
    <sha2::Sha256 as sha2::Digest>::digest(bytes).to_vec()
}

/// Bytes in lowercase hexadecimal digits, two for each.
pub open spec fn hex(bytes: Seq<u8>) -> Seq<char>
    decreases bytes.len(),
{
    if bytes.len() == 0 {
        Seq::empty()
    } else {
        hex(bytes.drop_last()).push(text::digit(bytes.last() as int / 16)).push(
            text::digit(bytes.last() as int % 16),
        )
    }
}

/// Writes bytes in hexadecimal digits.
pub fn hex_text(bytes: &Vec<u8>) -> (s: String)
    ensures
        s@ == hex(bytes@),
{
    let mut s = String::new();
    let mut i: usize = 0;
    proof {
        assert(bytes@.take(0) =~= Seq::empty());
    }
    while i < bytes.len()
        invariant
            i <= bytes@.len(),
            s@ == hex(bytes@.take(i as int)),
        decreases bytes@.len() - i,
    {
        proof {
            assert(bytes@.take(i + 1).drop_last() =~= bytes@.take(i as int));
            assert(bytes@.take(i + 1).last() == bytes@[i as int]);
        }
        s.push(text::digit_char(bytes[i] / 16));
        s.push(text::digit_char(bytes[i] % 16));
        i += 1;
    }
    proof {
        assert(bytes@.take(bytes@.len() as int) =~= bytes@);
    }
    s
}

/// Different bytes have different digits.
pub proof fn law_hex_injective(a: Seq<u8>, b: Seq<u8>)
    requires
        hex(a) == hex(b),
    ensures
        a == b,
    decreases a.len(),
{
    lemma_hex_len(a);
    lemma_hex_len(b);
    if a.len() > 0 {
        let (x, y) = (hex(a), hex(b));
        let (p, q) = (hex(a.drop_last()), hex(b.drop_last()));
        lemma_hex_len(a.drop_last());
        lemma_hex_len(b.drop_last());
        assert(x.take(p.len() as int) =~= p);
        assert(y.take(q.len() as int) =~= q);
        law_hex_injective(a.drop_last(), b.drop_last());
        let n = x.len() as int;
        let (u, v) = (a.last() as int, b.last() as int);
        assert(x[n - 2] == text::digit(u / 16) && y[n - 2] == text::digit(v / 16));
        assert(x[n - 1] == text::digit(u % 16) && y[n - 1] == text::digit(v % 16));
        assert(u / 16 == v / 16 && u % 16 == v % 16);
        assert(u == v);
        assert(a =~= a.drop_last().push(a.last()));
        assert(b =~= b.drop_last().push(b.last()));
    } else {
        assert(a =~= b);
    }
}

proof fn lemma_hex_len(bytes: Seq<u8>)
    ensures
        hex(bytes).len() == 2 * bytes.len(),
    decreases bytes.len(),
{
    if bytes.len() > 0 {
        lemma_hex_len(bytes.drop_last());
    }
}

/// Each byte is written as two digits, the upper half first, in small letters from ten on.
pub proof fn law_hex_digits(bytes: Seq<u8>, i: int)
    requires
        0 <= i < bytes.len(),
    ensures
        hex(bytes).len() == 2 * bytes.len(),
        ({
            let upper = bytes[i] as int / 16;
            let lower = bytes[i] as int % 16;
            &&& hex(bytes)[2 * i] as int == (if upper < 10 {
                '0' as int + upper
            } else {
                'a' as int + upper - 10
            })
            &&& hex(bytes)[2 * i + 1] as int == (if lower < 10 {
                '0' as int + lower
            } else {
                'a' as int + lower - 10
            })
        }),
    decreases bytes.len(),
{
    if bytes.len() > 1 {
        let front = bytes.drop_last();
        if i < front.len() {
            law_hex_digits(front, i);
            assert(front[i] == bytes[i]);
        } else {
            law_hex_digits(front, 0);
        }
    } else {
        assert(bytes.drop_last() =~= Seq::empty());
        assert(hex(bytes.drop_last()) =~= Seq::empty());
    }
}

} // verus!
