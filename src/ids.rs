use vstd::prelude::*;

use mongodb::bson::oid::ObjectId;

use crate::error::DispatchError;

verus! {

/// Whether `c` is a hexadecimal digit, in either case.
pub open spec fn is_hex_digit(c: char) -> bool {
    ('0' as u32 <= c as u32 <= '9' as u32) || ('a' as u32 <= c as u32 <= 'f' as u32) || (
    'A' as u32 <= c as u32 <= 'F' as u32)
}

/// The value of the hexadecimal digit `c`.
pub open spec fn hex_digit_value(c: char) -> int {
    if '0' as u32 <= c as u32 <= '9' as u32 {
        c as u32 - '0' as u32
    } else if 'a' as u32 <= c as u32 <= 'f' as u32 {
        c as u32 - 'a' as u32 + 10
    } else {
        c as u32 - 'A' as u32 + 10
    }
}

/// Whether `s` spells an object identity: exactly 24 hexadecimal digits.
pub open spec fn is_object_id(s: Seq<char>) -> bool {
    s.len() == 24 && forall|i: int| 0 <= i < 24 ==> is_hex_digit(#[trigger] s[i])
}

/// The number that the hexadecimal digits `s` spell, most significant first.
pub open spec fn hex_value(s: Seq<char>) -> nat
    decreases s.len(),
{
    if s.len() == 0 {
        0
    } else {
        (hex_value(s.drop_last()) * 16 + hex_digit_value(s.last())) as nat
    }
}

/// Sixteen to the power `n`.
pub open spec fn pow16(n: nat) -> nat
    decreases n,
{
    if n == 0 {
        1
    } else {
        16 * pow16((n - 1) as nat)
    }
}

/// Relies on bson's `ObjectId::parse_str` (re-exported by mongodb): it accepts
/// exactly the strings of 24 hexadecimal digits, either case, and byte `i` of
/// the identity is the value of digits `2i` and `2i + 1`.
#[verifier::external_body]
fn object_id_bytes(s: &str) -> (r: Option<[u8; 12]>)
    ensures
        r is Some <==> is_object_id(s@),
        r matches Some(b) ==> forall|i: int|
            0 <= i < 12 ==> #[trigger] b@[i] as int == 16 * hex_digit_value(s@[2 * i])
                + hex_digit_value(s@[2 * i + 1]),
{
    match ObjectId::parse_str(s) {
        Ok(oid) => Some(oid.bytes()),
        Err(_) => None,
    }
}

/// `k` hexadecimal digits spell a number below `16^k`.
proof fn lemma_hex_value_bound(s: Seq<char>)
    requires
        forall|i: int| 0 <= i < s.len() ==> is_hex_digit(#[trigger] s[i]),
    ensures
        hex_value(s) < pow16(s.len()),
    decreases s.len(),
{
    if s.len() > 0 {
        let t = s.drop_last();
        assert forall|i: int| 0 <= i < t.len() implies is_hex_digit(#[trigger] t[i]) by {
            assert(t[i] == s[i]);
        }
        lemma_hex_value_bound(t);
        assert(is_hex_digit(s[s.len() - 1]));
        let h = hex_value(t);
        let p = pow16(t.len());
        let d = hex_digit_value(s.last());
        assert(h * 16 + d < 16 * p) by (nonlinear_arith)
            requires
                h < p,
                0 <= d < 16,
        ;
    }
}

proof fn lemma_pow16_mono(a: nat, b: nat)
    requires
        a <= b,
    ensures
        pow16(a) <= pow16(b),
    decreases b,
{
    if a < b {
        lemma_pow16_mono(a, (b - 1) as nat);
    }
}

/// The identity that the string `s` spells, as a number: `s` must be
/// exactly 24 hexadecimal digits, in either case, else `InvalidId`.
pub fn parse_id(s: &str) -> (r: Result<u128, DispatchError>)
    ensures
        !is_object_id(s@) ==> r == Err::<u128, DispatchError>(DispatchError::InvalidId),
        is_object_id(s@) ==> (r matches Ok(v) && v as int == hex_value(s@)),
{
    match object_id_bytes(s) {
        None => Err(DispatchError::InvalidId),
        Some(bytes) => {
            let ghost cs = s@;
            proof {
                reveal_with_fuel(pow16, 23);
                assert(pow16(22) == 0x100_0000_0000_0000_0000_0000);
            }
            let mut acc: u128 = 0;
            let mut k: usize = 0;
            while k < 12
                invariant
                    k <= 12,
                    is_object_id(cs),
                    forall|i: int|
                        0 <= i < 12 ==> #[trigger] bytes@[i] as int == 16 * hex_digit_value(
                            cs[2 * i],
                        ) + hex_digit_value(cs[2 * i + 1]),
                    acc as int == hex_value(cs.take(2 * k as int)),
                    pow16(22) == 0x100_0000_0000_0000_0000_0000,
                decreases 12 - k,
            {
                let ghost t0 = cs.take(2 * k as int);
                let ghost t1 = cs.take(2 * k as int + 1);
                let ghost t2 = cs.take(2 * k as int + 2);
                proof {
                    assert(t2.drop_last() =~= t1);
                    assert(t1.drop_last() =~= t0);
                    assert(t2.last() == cs[2 * k as int + 1]);
                    assert(t1.last() == cs[2 * k as int]);
                    assert forall|i: int| 0 <= i < t0.len() implies is_hex_digit(#[trigger] t0[i]) by {
                        assert(t0[i] == cs[i]);
                    }
                    lemma_hex_value_bound(t0);
                    lemma_pow16_mono(2 * k as nat, 22);
                    assert(is_hex_digit(cs[2 * k as int]) && is_hex_digit(cs[2 * k as int + 1]));
                }
                let b = bytes[k];
                proof {
                    let h1 = hex_digit_value(cs[2 * k as int]);
                    let h2 = hex_digit_value(cs[2 * k as int + 1]);
                    assert(hex_value(t1) == hex_value(t0) * 16 + h1);
                    assert(hex_value(t2) == hex_value(t1) * 16 + h2);
                    assert(b as int == 16 * h1 + h2);
                    assert(hex_value(t2) == hex_value(t0) * 256 + b) by (nonlinear_arith)
                        requires
                            hex_value(t2) == hex_value(t1) * 16 + h2,
                            hex_value(t1) == hex_value(t0) * 16 + h1,
                            b as int == 16 * h1 + h2,
                    ;
                    assert(acc * 256 + b <= 0xFFFF_FFFF_FFFF_FFFF_FFFF_FFFF) by (nonlinear_arith)
                        requires
                            acc < 0x100_0000_0000_0000_0000_0000,
                            b < 256,
                    ;
                }
                acc = acc * 256 + b as u128;
                k = k + 1;
            }
            assert(cs.take(24) =~= cs);
            Ok(acc)
        },
    }
}

} // verus!
