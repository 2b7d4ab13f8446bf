//! Converting source-row primary keys to signed 64-bit document ids:
//! decimal numerals keep their value, anything else maps to a stable
//! hash reduced into `[0, i64::MAX)`.
use std::collections::hash_map::DefaultHasher;
use std::hash::Hasher;
use vstd::prelude::*;
use vstd::slice::slice_index_get;
use vstd::std_specs::hash::DefaultHasherAdditionalSpecFns;
use vstd::string::StringSliceAdditionalSpecFns;

verus! {

/// Every byte of `s` is an ASCII decimal digit.
pub open spec fn all_digits(s: Seq<u8>) -> bool {
    forall|i: int| 0 <= i < s.len() ==> 0x30 <= #[trigger] s[i] <= 0x39
}

/// The value of an ASCII digit sequence read in base 10.
pub open spec fn digits_value(s: Seq<u8>) -> int
    decreases s.len(),
{
    if s.len() == 0 {
        0
    } else {
        digits_value(s.drop_last()) * 10 + (s.last() - 0x30)
    }
}

/// The value a decimal numeral stands for under std's `i64` grammar:
/// an optional sign followed by at least one digit, within the type's
/// range; anything else has no value.
pub open spec fn spec_parse_i64(s: Seq<u8>) -> Option<int> {
    if s.len() >= 2 && s[0] == 0x2d {
        let ds = s.subrange(1, s.len() as int);
        if all_digits(ds) && digits_value(ds) <= 0x8000000000000000 {
            Some(-digits_value(ds))
        } else {
            None
        }
    } else if s.len() >= 2 && s[0] == 0x2b {
        let ds = s.subrange(1, s.len() as int);
        if all_digits(ds) && digits_value(ds) <= 0x7fffffffffffffff {
            Some(digits_value(ds))
        } else {
            None
        }
    } else if s.len() >= 1 && all_digits(s) && digits_value(s) <= 0x7fffffffffffffff {
        Some(digits_value(s))
    } else {
        None
    }
}

/// Parses a decimal numeral exactly as std's `i64` parser accepts it.
#[verifier::loop_isolation(false)]
pub fn parse_i64(s: &str) -> (r: Option<i64>)
    ensures
        (spec_parse_i64(s.spec_bytes()) matches Some(n) ==> (r matches Some(v) && v as int == n)),
        spec_parse_i64(s.spec_bytes()) is None ==> r is None,
{
    let bytes = s.as_bytes();
    let len = bytes.len();
    if len == 0 {
        return None;
    }
    let first = *slice_index_get(bytes, 0);
    let neg = first == 0x2d;
    let ds_start: usize = if first == 0x2d || first == 0x2b {
        1
    } else {
        0
    };
    if len == ds_start {
        return None;
    }
    let limit: u64 = if neg {
        9223372036854775808
    } else {
        9223372036854775807
    };
    let mut v: u64 = 0;
    let mut too_big = false;
    let mut i = ds_start;
    while i < len
        invariant
            ds_start <= i <= len,
            len == bytes@.len(),
            bytes@ == s.spec_bytes(),
            limit == if neg {
                0x8000000000000000u64
            } else {
                0x7fffffffffffffffu64
            },
            all_digits(bytes@.subrange(ds_start as int, i as int)),
            !too_big ==> v as int == digits_value(bytes@.subrange(ds_start as int, i as int)) && v
                <= limit,
            too_big ==> digits_value(bytes@.subrange(ds_start as int, i as int)) > limit,
        decreases len - i,
    {
        let b = *slice_index_get(bytes, i);
        if b < 0x30 || b > 0x39 {
            proof {
                let sb = s.spec_bytes();
                assert(sb == bytes@);
                assert(sb[0] == first);
                assert(sb[i as int] == b);
                if ds_start == 1 {
                    let ds = sb.subrange(1, sb.len() as int);
                    assert(ds[i - 1] == sb[i as int]);
                    assert(!(0x30 <= ds[i - 1] <= 0x39));
                    assert(!all_digits(ds));
                    assert(first == 0x2d || first == 0x2b);
                } else {
                    assert(!(0x30 <= sb[i as int] <= 0x39));
                    assert(!all_digits(sb));
                    assert(first != 0x2d && first != 0x2b);
                }
                assert(spec_parse_i64(s.spec_bytes()) is None);
            }
            return None;
        }
        let d = (b - 0x30) as u64;
        let ghost prefix = bytes@.subrange(ds_start as int, i as int);
        proof {
            assert(bytes@.subrange(ds_start as int, i + 1) =~= prefix.push(b));
            assert(prefix.push(b).drop_last() =~= prefix);
            assert(digits_value(prefix.push(b)) == digits_value(prefix) * 10 + (b - 0x30));
        }
        if !too_big && v <= (limit - d) / 10 {
            v = v * 10 + d;
        } else {
            too_big = true;
        }
        i = i + 1;
    }
    proof {
        if ds_start == 0 {
            assert(bytes@.subrange(0, len as int) =~= bytes@);
        }
    }
    if too_big {
        return None;
    }
    if neg {
        if v == 9223372036854775808 {
            Some(i64::MIN)
        } else {
            Some(-(v as i64))
        }
    } else {
        Some(v as i64)
    }
}

/// Relies on vstd's model of std's `DefaultHasher`: the digest of the
/// bytes written, a fixed function of them.
fn hash_str_to_u64(s: &str) -> (r: u64)
    ensures
        r == DefaultHasher::spec_finish(seq![s.spec_bytes()]),
{
    let mut hasher = DefaultHasher::new();
    hasher.write(s.as_bytes());
    proof {
        assert(hasher@ =~= seq![s.spec_bytes()]);
    }
    hasher.finish()
}

/// Converts a primary-key string to a document id. A decimal numeral
/// (under std's `i64` grammar) keeps its value; any other string maps
/// deterministically to the digest of its bytes reduced into
/// `[0, i64::MAX)`.
pub fn string_to_i64(s: &str) -> (r: i64)
    ensures
        (spec_parse_i64(s.spec_bytes()) matches Some(n) ==> r as int == n),
        spec_parse_i64(s.spec_bytes()) is None ==> (r as int == DefaultHasher::spec_finish(
            seq![s.spec_bytes()],
        ) as int % 0x7fffffffffffffff && 0 <= r < i64::MAX),
{
    match parse_i64(s) {
        Some(n) => n,
        None => {
            let h = hash_str_to_u64(s);
            (h % 9223372036854775807u64) as i64
        },
    }
}

/// The decimal digits of a non-negative value, most significant first.
pub open spec fn spec_render_nat(v: int) -> Seq<u8>
    decreases v,
{
    if v <= 9 {
        seq![(0x30 + v) as u8]
    } else {
        spec_render_nat(v / 10).push((0x30 + v % 10) as u8)
    }
}

/// The decimal numeral of `n`, as formatting an `i64` writes it.
pub open spec fn spec_render_i64(n: int) -> Seq<u8> {
    if n < 0 {
        seq![0x2du8] + spec_render_nat(-n)
    } else {
        spec_render_nat(n)
    }
}

proof fn lemma_render_nat_digits(v: int)
    requires
        v >= 0,
    ensures
        all_digits(spec_render_nat(v)),
        spec_render_nat(v).len() >= 1,
        digits_value(spec_render_nat(v)) == v,
    decreases v,
{
    if v <= 9 {
        reveal_with_fuel(digits_value, 2);
        assert(spec_render_nat(v).drop_last() =~= Seq::<u8>::empty());
        assert(spec_render_nat(v).last() == (0x30 + v) as u8);
        assert(digits_value(spec_render_nat(v)) == (0x30 + v) as u8 - 0x30);
    } else {
        lemma_render_nat_digits(v / 10);
        assert(spec_render_nat(v).drop_last() =~= spec_render_nat(v / 10));
        assert(spec_render_nat(v).last() == (0x30 + v % 10) as u8);
        assert(digits_value(spec_render_nat(v)) == digits_value(spec_render_nat(v / 10)) * 10 + (
        (0x30 + v % 10) as u8 - 0x30));
        assert((0x30 + v % 10) as u8 - 0x30 == v % 10);
        assert((v / 10) * 10 + v % 10 == v);
    }
}

/// Parsing the decimal rendering of any `i64` gives that value back:
/// the numeral-to-id conversion inverts formatting on every numeric
/// key.
pub proof fn lemma_parse_render_round_trip(n: i64)
    ensures
        spec_parse_i64(spec_render_i64(n as int)) == Some(n as int),
{
    let s = spec_render_i64(n as int);
    if n < 0 {
        lemma_render_nat_digits(-(n as int));
        assert(s.subrange(1, s.len() as int) =~= spec_render_nat(-(n as int)));
        assert(s[0] == 0x2d);
        assert(digits_value(s.subrange(1, s.len() as int)) == -(n as int));
        assert(-(n as int) <= 0x8000000000000000);
    } else {
        lemma_render_nat_digits(n as int);
        assert(0x30 <= s[0] <= 0x39);
        assert(digits_value(s) == n as int);
    }
}

} // verus!
