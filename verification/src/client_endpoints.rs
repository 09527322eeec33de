//! Pure helpers for the HTTP surface: turning a requested segment file
//! name into the segment index the engine works with.
//!
//! A playlist request (a name ending in `.m3u8`) maps to segment zero; a
//! media segment named `segment<digits>.ts` maps to the digit value plus
//! one; anything else is rejected.

use vstd::prelude::*;

verus! {

/// ASCII digit.
pub open spec fn is_digit(b: u8) -> bool {
    0x30 <= b <= 0x39
}

pub open spec fn all_digits(s: Seq<u8>) -> bool {
    forall|i: int| 0 <= i < s.len() ==> is_digit(#[trigger] s[i])
}

/// The decimal value of a digit string.
pub open spec fn digits_value(s: Seq<u8>) -> int
    decreases s.len(),
{
    if s.len() == 0 {
        0
    } else {
        digits_value(s.drop_last()) * 10 + (s.last() - 0x30)
    }
}

/// The bytes of the playlist suffix `.m3u8`.
pub open spec fn playlist_suffix() -> Seq<u8> {
    seq![0x2eu8, 0x6du8, 0x33u8, 0x75u8, 0x38u8]
}

/// The bytes of the media-segment prefix `segment`.
pub open spec fn segment_prefix() -> Seq<u8> {
    seq![0x73u8, 0x65u8, 0x67u8, 0x6du8, 0x65u8, 0x6eu8, 0x74u8]
}

/// The bytes of the media-segment suffix `.ts`.
pub open spec fn media_suffix() -> Seq<u8> {
    seq![0x2eu8, 0x74u8, 0x73u8]
}

/// The segment index a requested file name stands for: zero for the
/// playlist, the digit value plus one for `segment<digits>.ts` (at most
/// nine digits), nothing otherwise.
pub open spec fn spec_segment_index(name: Seq<u8>) -> Option<u32> {
    if name.len() >= 5 && name.subrange(name.len() - 5, name.len() as int) == playlist_suffix() {
        Some(0)
    } else if {
        &&& name.len() >= 11
        &&& name.take(7) == segment_prefix()
        &&& name.subrange(name.len() - 3, name.len() as int) == media_suffix()
        &&& all_digits(name.subrange(7, name.len() - 3))
        &&& name.len() - 10 <= 9
    } {
        Some((digits_value(name.subrange(7, name.len() - 3)) + 1) as u32)
    } else {
        None
    }
}

/// Ten to the power `k`.
pub open spec fn pow10(k: nat) -> int
    decreases k,
{
    if k == 0 {
        1
    } else {
        10 * pow10((k - 1) as nat)
    }
}

proof fn lemma_pow10_pos(k: nat)
    ensures
        pow10(k) >= 1,
    decreases k,
{
    if k > 0 {
        lemma_pow10_pos((k - 1) as nat);
    }
}

proof fn lemma_pow10_mono(a: nat, b: nat)
    requires
        a <= b,
    ensures
        pow10(a) <= pow10(b),
    decreases b,
{
    if a < b {
        lemma_pow10_mono(a, (b - 1) as nat);
        lemma_pow10_pos((b - 1) as nat);
    }
}

/// A digit string of `k` digits stays below ten to the `k`.
proof fn lemma_digits_value_bound(s: Seq<u8>)
    requires
        all_digits(s),
    ensures
        0 <= digits_value(s) < pow10(s.len()),
    decreases s.len(),
{
    if s.len() == 0 {
    } else {
        assert(all_digits(s.drop_last())) by {
            assert(forall|i: int| 0 <= i < s.drop_last().len() ==> s.drop_last()[i] == s[i]);
        }
        lemma_digits_value_bound(s.drop_last());
        let v = digits_value(s.drop_last());
        assert(v * 10 + 9 < 10 * pow10((s.len() - 1) as nat)) by (nonlinear_arith)
            requires
                0 <= v < pow10((s.len() - 1) as nat),
        {}
    }
}

/// Parse a requested file name into its segment index; exactly the names
/// [`spec_segment_index`] admits are accepted.
#[verifier::loop_isolation(false)]
pub fn parse_segment_name(name: &[u8]) -> (r: Option<u32>)
    ensures
        r == spec_segment_index(name@),
{
    let n = name.len();
    if n >= 5 {
        let mut ispl = true;
        if name[n - 5] != 0x2e {
            ispl = false;
        }
        if name[n - 4] != 0x6d {
            ispl = false;
        }
        if name[n - 3] != 0x33 {
            ispl = false;
        }
        if name[n - 2] != 0x75 {
            ispl = false;
        }
        if name[n - 1] != 0x38 {
            ispl = false;
        }
        proof {
            if ispl {
                assert(name@.subrange(n - 5, n as int) =~= playlist_suffix());
            } else {
                assert(name@.subrange(n - 5, n as int) != playlist_suffix()) by {
                    if name@.subrange(n - 5, n as int) == playlist_suffix() {
                        assert(name@.subrange(n - 5, n as int)[0] == 0x2eu8);
                        assert(name@.subrange(n - 5, n as int)[1] == 0x6du8);
                        assert(name@.subrange(n - 5, n as int)[2] == 0x33u8);
                        assert(name@.subrange(n - 5, n as int)[3] == 0x75u8);
                        assert(name@.subrange(n - 5, n as int)[4] == 0x38u8);
                    }
                }
            }
        }
        if ispl {
            return Some(0);
        }
    }
    if n < 11 || n - 10 > 9 {
        return None;
    }
    let prefix: [u8; 7] = [0x73, 0x65, 0x67, 0x6d, 0x65, 0x6e, 0x74];
    let mut i: usize = 0;
    while i < 7
        invariant
            i <= 7,
            n == name@.len(),
            11 <= n,
            forall|j: int| 0 <= j < i ==> name@[j] == segment_prefix()[j],
        decreases 7 - i,
    {
        if name[i] != prefix[i] {
            proof {
                assert(name@.take(7)[i as int] != segment_prefix()[i as int]);
            }
            return None;
        }
        proof {
            assert(segment_prefix()[i as int] == prefix@[i as int]);
        }
        i = i + 1;
    }
    proof {
        assert(name@.take(7) =~= segment_prefix());
    }
    if name[n - 3] != 0x2e || name[n - 2] != 0x74 || name[n - 1] != 0x73 {
        proof {
            assert(name@.subrange(n - 3, n as int) != media_suffix()) by {
                if name@.subrange(n - 3, n as int) == media_suffix() {
                    assert(name@.subrange(n - 3, n as int)[0] == 0x2eu8);
                    assert(name@.subrange(n - 3, n as int)[1] == 0x74u8);
                    assert(name@.subrange(n - 3, n as int)[2] == 0x73u8);
                }
            }
        }
        return None;
    }
    proof {
        assert(name@.subrange(n - 3, n as int) =~= media_suffix());
    }
    let ghost mid = name@.subrange(7, n - 3);
    let mut acc: u32 = 0;
    let mut i: usize = 7;
    proof {
        assert(mid.take(0) =~= Seq::<u8>::empty());
    }
    while i < n - 3
        invariant
            7 <= i <= n - 3,
            n == name@.len(),
            11 <= n,
            n - 10 <= 9,
            mid == name@.subrange(7, n - 3),
            all_digits(mid.take(i - 7)),
            acc == digits_value(mid.take(i - 7)),
            acc < 1_000_000_000,
        decreases n - 3 - i,
    {
        let b = name[i];
        if b < 0x30 || b > 0x39 {
            proof {
                assert(mid[i - 7] == name@[i as int]);
                assert(!is_digit(mid[i - 7]));
            }
            return None;
        }
        proof {
            assert(mid[i - 7] == name@[i as int]);
            assert(mid.take(i - 7 + 1).drop_last() =~= mid.take(i - 7));
            assert(mid.take(i - 7 + 1).last() == mid[i - 7]);
            assert(all_digits(mid.take(i - 7 + 1))) by {
                assert(forall|j: int| 0 <= j < i - 7 + 1 ==> mid.take(i - 7 + 1)[j] == mid[j]);
                assert(forall|j: int| 0 <= j < i - 7 ==> is_digit(#[trigger] mid.take(i - 7)[j]));
            }
        }
        proof {
            lemma_digits_value_bound(mid.take(i - 7));
            lemma_pow10_mono((i - 7) as nat, 8);
            assert(pow10(8) == 100_000_000) by {
                reveal_with_fuel(pow10, 10);
            }
        }
        acc = acc * 10 + ((b - 0x30) as u32);
        i = i + 1;
        proof {
            lemma_digits_value_bound(mid.take(i - 7));
            lemma_pow10_mono((i - 7) as nat, 9);
            assert(pow10(9) == 1_000_000_000) by {
                reveal_with_fuel(pow10, 10);
            }
        }
    }
    proof {
        assert(mid.take(n - 3 - 7) =~= mid);
        lemma_digits_value_bound(mid);
        lemma_pow10_mono(mid.len(), 9);
        assert(pow10(9) == 1_000_000_000) by {
            reveal_with_fuel(pow10, 10);
        }
    }
    Some(acc + 1)
}

} // verus!
