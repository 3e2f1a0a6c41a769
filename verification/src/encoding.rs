//! Lossy text normalization.
//!
//! Content handed to the intern table may come from platform paths whose
//! bytes are not valid encoded text.  Before storage every input is
//! normalized: well-formed scalar encodings are kept as they are, and each
//! maximal subpart of an ill-formed sequence — the longest prefix that could
//! still have grown into a well-formed encoding, at least one byte — is
//! replaced by one encoding of the replacement character U+FFFD.  This is
//! the substitution the platform's own lossy string conversion performs.
//! The result is always valid UTF-8, normalizing valid input changes
//! nothing, and normalizing twice is the same as normalizing once.

use vstd::prelude::*;
use vstd::utf8::*;

verus! {

broadcast use vstd::seq::group_seq_axioms;

/// The UTF-8 encoding of the replacement character U+FFFD.
pub open spec fn replacement_bytes() -> Seq<u8> {
    seq![0xefu8, 0xbfu8, 0xbdu8]
}

/// For a three-byte leading byte, whether the second byte continues it:
/// the admissible range depends on the leading byte, which rules out
/// overlong encodings and surrogates.
pub open spec fn valid_second_byte_width_3(b0: u8, b1: u8) -> bool {
    if b0 == 0xe0 {
        0xa0 <= b1 <= 0xbf
    } else if b0 == 0xed {
        0x80 <= b1 <= 0x9f
    } else {
        0x80 <= b1 <= 0xbf
    }
}

/// For a four-byte leading byte, whether the second byte continues it: the
/// admissible range depends on the leading byte, which rules out overlong
/// and out-of-range encodings.
pub open spec fn valid_second_byte_width_4(b0: u8, b1: u8) -> bool {
    if b0 == 0xf0 {
        0x90 <= b1 <= 0xbf
    } else if b0 == 0xf4 {
        0x80 <= b1 <= 0x8f
    } else {
        0x80 <= b1 <= 0xbf
    }
}

/// The length of the maximal subpart of an ill-formed sequence at the start
/// of `s`: the longest prefix that is still a prefix of some well-formed
/// scalar encoding, and at least one byte.  Meaningful when `s` does not
/// begin with a well-formed scalar encoding.
pub open spec fn ill_formed_prefix_len(s: Seq<u8>) -> int
    recommends
        s.len() > 0,
{
    let b0 = s[0];
    if 0xe0 <= b0 <= 0xef {
        if s.len() >= 2 && valid_second_byte_width_3(b0, s[1]) {
            2
        } else {
            1
        }
    } else if 0xf0 <= b0 <= 0xf4 {
        if s.len() >= 2 && valid_second_byte_width_4(b0, s[1]) {
            if s.len() >= 3 && is_continuation_byte(s[2]) {
                3
            } else {
                2
            }
        } else {
            1
        }
    } else {
        1
    }
}

/// The maximal subpart is between one and three bytes and lies within the
/// sequence.
pub proof fn lemma_ill_formed_prefix_len(s: Seq<u8>)
    requires
        s.len() > 0,
    ensures
        1 <= ill_formed_prefix_len(s) <= 3,
        ill_formed_prefix_len(s) <= s.len(),
{
}

/// Lossy normalization of arbitrary bytes to valid UTF-8: each position
/// either begins a well-formed scalar encoding, which is kept whole, or a
/// maximal ill-formed subpart, which becomes one replacement character.
pub open spec fn normalize_lossy(s: Seq<u8>) -> Seq<u8>
    decreases s.len(),
{
    if s.len() == 0 {
        Seq::<u8>::empty()
    } else if valid_first_scalar(s) {
        take_first_scalar(s) + normalize_lossy(pop_first_scalar(s))
    } else {
        replacement_bytes() + normalize_lossy(s.skip(ill_formed_prefix_len(s)))
    }
}

/// The first scalar encoding of a well-formed prefix is between 1 and 4
/// bytes long and lies within the sequence.
pub proof fn lemma_first_scalar_len(s: Seq<u8>)
    requires
        valid_first_scalar(s),
    ensures
        1 <= length_of_first_scalar(s) <= 4,
        length_of_first_scalar(s) <= s.len(),
        pop_first_scalar(s).len() == s.len() - length_of_first_scalar(s),
        take_first_scalar(s).len() == length_of_first_scalar(s),
{
    if is_leading_byte_width_1(s[0]) {
        assert(length_of_first_scalar(s) == 1);
    } else if is_leading_byte_width_2(s[0]) {
        assert(s.len() >= 2);
    } else if is_leading_byte_width_3(s[0]) {
        assert(s.len() >= 3);
    } else {
        assert(is_leading_byte_width_4(s[0]));
        assert(s.len() >= 4);
    }
}

/// The bytes of the first scalar encoding, taken alone, form valid UTF-8.
pub proof fn lemma_take_first_scalar_valid(s: Seq<u8>)
    requires
        valid_first_scalar(s),
    ensures
        valid_utf8(take_first_scalar(s)),
{
    lemma_first_scalar_len(s);
    let l = length_of_first_scalar(s);
    let t = take_first_scalar(s);
    assert(t.len() == l);
    assert(forall|j: int| 0 <= j < l ==> t[j] == s[j]);
    assert(valid_leading_and_continuation_bytes_first_codepoint(t));
    assert(length_of_first_codepoint(t) == l);
    assert(decode_first_codepoint(t) == decode_first_codepoint(s));
    assert(valid_first_scalar(t));
    assert(pop_first_scalar(t).len() == 0);
    reveal_with_fuel(valid_utf8, 2);
}

/// The replacement character's encoding is valid UTF-8 of length 3.
pub proof fn lemma_replacement_valid()
    ensures
        valid_utf8(replacement_bytes()),
        replacement_bytes().len() == 3,
{
    let r = replacement_bytes();
    assert(r.len() == 3);
    assert(is_leading_byte_width_3(r[0]));
    assert(is_continuation_byte(r[1]));
    assert(is_continuation_byte(r[2]));
    assert(length_of_first_codepoint(r) == 3);
    assert((((0xefu8 & 0x0f) as u32) << 12) | (((0xbfu8 & 0x3f) as u32) << 6) | ((0xbdu8
        & 0x3f) as u32) == 0xfffd) by (bit_vector);
    assert(decode_first_codepoint(r) == 0xfffd);
    assert(valid_first_scalar(r));
    assert(pop_first_scalar(r).len() == 0);
    reveal_with_fuel(valid_utf8, 2);
}

/// Normalization always yields valid UTF-8.
pub proof fn lemma_normalize_lossy_valid(s: Seq<u8>)
    ensures
        valid_utf8(normalize_lossy(s)),
    decreases s.len(),
{
    if s.len() == 0 {
    } else if valid_first_scalar(s) {
        lemma_first_scalar_len(s);
        lemma_take_first_scalar_valid(s);
        lemma_normalize_lossy_valid(pop_first_scalar(s));
        valid_utf8_concat(take_first_scalar(s), normalize_lossy(pop_first_scalar(s)));
    } else {
        lemma_replacement_valid();
        lemma_ill_formed_prefix_len(s);
        lemma_normalize_lossy_valid(s.skip(ill_formed_prefix_len(s)));
        valid_utf8_concat(
            replacement_bytes(),
            normalize_lossy(s.skip(ill_formed_prefix_len(s))),
        );
    }
}

/// Normalizing bytes that are already valid UTF-8 changes nothing.
pub proof fn lemma_normalize_lossy_identity(s: Seq<u8>)
    requires
        valid_utf8(s),
    ensures
        normalize_lossy(s) == s,
    decreases s.len(),
{
    if s.len() == 0 {
        assert(normalize_lossy(s) =~= s);
    } else {
        lemma_first_scalar_len(s);
        lemma_normalize_lossy_identity(pop_first_scalar(s));
        assert(normalize_lossy(s) =~= take_first_scalar(s) + pop_first_scalar(s));
        assert(take_first_scalar(s) + pop_first_scalar(s) =~= s);
    }
}

/// Replacement is applied exactly once: normalizing a second time is the
/// identity, because one pass already leaves only valid UTF-8 behind.
pub proof fn lemma_normalize_lossy_idempotent(s: Seq<u8>)
    ensures
        normalize_lossy(normalize_lossy(s)) == normalize_lossy(s),
{
    lemma_normalize_lossy_valid(s);
    lemma_normalize_lossy_identity(normalize_lossy(s));
}

/// Decides whether position `i` of `bytes` begins a well-formed scalar
/// encoding; returns that encoding's length, or 0 for an ill-formed byte.
fn utf8_step(bytes: &[u8], i: usize) -> (n: usize)
    requires
        i < bytes@.len(),
    ensures
        n != 0 ==> valid_first_scalar(bytes@.skip(i as int)) && n == length_of_first_scalar(
            bytes@.skip(i as int),
        ) && i + n <= bytes@.len(),
        n == 0 ==> !valid_first_scalar(bytes@.skip(i as int)),
{
    let ghost s = bytes@.skip(i as int);
    let len = bytes.len();
    let b0 = bytes[i];
    proof {
        assert(s.len() == len - i);
        assert(forall|j: int| 0 <= j < s.len() ==> s[j] == bytes@[i + j]);
    }
    if b0 < 0x80 {
        proof {
            assert(is_leading_byte_width_1(s[0]));
            assert(b0 < 0x80 ==> (b0 & 0x7f) < 0x80) by (bit_vector);
            assert(decode_first_codepoint(s) == (b0 & 0x7f) as u32);
            assert(valid_first_scalar(s));
        }
        1
    } else if b0 < 0xc2 {
        proof {
            if b0 >= 0xc0 && s.len() >= 2 && is_continuation_byte(s[1]) {
                let b1 = s[1];
                assert(decode_first_codepoint(s) == ((((b0 & 0x1f) as u32) << 6) | ((b1
                    & 0x3f) as u32)));
                assert(0xc0 <= b0 < 0xc2 ==> ((((b0 & 0x1f) as u32) << 6) | ((b1 & 0x3f) as u32))
                    < 0x80) by (bit_vector);
                assert(!not_overlong_encoding(decode_first_codepoint(s), 2));
            }
        }
        0
    } else if b0 < 0xe0 {
        if len - i >= 2 && 0x80 <= bytes[i + 1] && bytes[i + 1] < 0xc0 {
            proof {
                let b1 = s[1];
                assert(is_continuation_byte(b1));
                assert(decode_first_codepoint(s) == ((((b0 & 0x1f) as u32) << 6) | ((b1
                    & 0x3f) as u32)));
                assert(0xc2 <= b0 < 0xe0 ==> 0x80 <= ((((b0 & 0x1f) as u32) << 6) | ((b1
                    & 0x3f) as u32)) < 0x800) by (bit_vector);
                assert(valid_first_scalar(s));
            }
            2
        } else {
            0
        }
    } else if b0 < 0xf0 {
        if len - i >= 3 {
            let b1 = bytes[i + 1];
            let b2 = bytes[i + 2];
            let b1_ok: bool = if b0 == 0xe0 {
                0xa0 <= b1 && b1 < 0xc0
            } else if b0 == 0xed {
                0x80 <= b1 && b1 < 0xa0
            } else {
                0x80 <= b1 && b1 < 0xc0
            };
            if b1_ok && 0x80 <= b2 && b2 < 0xc0 {
                proof {
                    assert(is_continuation_byte(s[1]) && is_continuation_byte(s[2]));
                    assert(decode_first_codepoint(s) == ((((b0 & 0x0f) as u32) << 12) | (((b1
                        & 0x3f) as u32) << 6) | ((b2 & 0x3f) as u32)));
                    assert((0xe0 <= b0 < 0xf0 && 0x80 <= b1 < 0xc0 && 0x80 <= b2 < 0xc0 && (b0
                        == 0xe0 ==> b1 >= 0xa0) && (b0 == 0xed ==> b1 < 0xa0)) ==> {
                        0x800 <= ((((b0 & 0x0f) as u32) << 12) | (((b1 & 0x3f) as u32) << 6) | ((b2
                            & 0x3f) as u32)) && !(0xd800 <= ((((b0 & 0x0f) as u32) << 12) | (((b1
                            & 0x3f) as u32) << 6) | ((b2 & 0x3f) as u32)) <= 0xdfff)
                    }) by (bit_vector);
                    assert(valid_first_scalar(s));
                }
                3
            } else {
                proof {
                    if 0x80 <= b1 && b1 < 0xc0 && 0x80 <= b2 && b2 < 0xc0 {
                        assert(decode_first_codepoint(s) == ((((b0 & 0x0f) as u32) << 12) | (((b1
                            & 0x3f) as u32) << 6) | ((b2 & 0x3f) as u32)));
                        if b0 == 0xe0 {
                            assert((b0 == 0xe0 && 0x80 <= b1 < 0xa0) ==> ((((b0
                                & 0x0f) as u32) << 12) | (((b1 & 0x3f) as u32) << 6) | ((b2
                                & 0x3f) as u32)) < 0x800) by (bit_vector);
                        } else {
                            assert((b0 == 0xed && 0xa0 <= b1 < 0xc0 && 0x80 <= b2 < 0xc0) ==> 0xd800
                                <= ((((b0 & 0x0f) as u32) << 12) | (((b1 & 0x3f) as u32) << 6)
                                | ((b2 & 0x3f) as u32)) <= 0xdfff) by (bit_vector);
                        }
                    }
                }
                0
            }
        } else {
            0
        }
    } else if b0 < 0xf5 {
        if len - i >= 4 {
            let b1 = bytes[i + 1];
            let b2 = bytes[i + 2];
            let b3 = bytes[i + 3];
            let b1_ok: bool = if b0 == 0xf0 {
                0x90 <= b1 && b1 < 0xc0
            } else if b0 == 0xf4 {
                0x80 <= b1 && b1 < 0x90
            } else {
                0x80 <= b1 && b1 < 0xc0
            };
            if b1_ok && 0x80 <= b2 && b2 < 0xc0 && 0x80 <= b3 && b3 < 0xc0 {
                proof {
                    assert(is_continuation_byte(s[1]) && is_continuation_byte(s[2])
                        && is_continuation_byte(s[3]));
                    assert(decode_first_codepoint(s) == ((((b0 & 0x07) as u32) << 18) | (((b1
                        & 0x3f) as u32) << 12) | (((b2 & 0x3f) as u32) << 6) | ((b3
                        & 0x3f) as u32)));
                    assert((0xf0 <= b0 < 0xf5 && 0x80 <= b1 < 0xc0 && 0x80 <= b2 < 0xc0 && 0x80
                        <= b3 < 0xc0 && (b0 == 0xf0 ==> b1 >= 0x90) && (b0 == 0xf4 ==> b1 < 0x90))
                        ==> 0x10000 <= ((((b0 & 0x07) as u32) << 18) | (((b1 & 0x3f) as u32) << 12)
                        | (((b2 & 0x3f) as u32) << 6) | ((b3 & 0x3f) as u32))
                        <= 0x10ffff) by (bit_vector);
                    assert(valid_first_scalar(s));
                }
                4
            } else {
                proof {
                    if 0x80 <= b1 && b1 < 0xc0 && 0x80 <= b2 && b2 < 0xc0 && 0x80 <= b3 && b3
                        < 0xc0 {
                        assert(decode_first_codepoint(s) == ((((b0 & 0x07) as u32) << 18) | (((b1
                            & 0x3f) as u32) << 12) | (((b2 & 0x3f) as u32) << 6) | ((b3
                            & 0x3f) as u32)));
                        if b0 == 0xf0 {
                            assert((b0 == 0xf0 && 0x80 <= b1 < 0x90) ==> ((((b0
                                & 0x07) as u32) << 18) | (((b1 & 0x3f) as u32) << 12) | (((b2
                                & 0x3f) as u32) << 6) | ((b3 & 0x3f) as u32))
                                < 0x10000) by (bit_vector);
                        } else {
                            assert((b0 == 0xf4 && 0x90 <= b1 < 0xc0) ==> ((((b0
                                & 0x07) as u32) << 18) | (((b1 & 0x3f) as u32) << 12) | (((b2
                                & 0x3f) as u32) << 6) | ((b3 & 0x3f) as u32))
                                > 0x10ffff) by (bit_vector);
                        }
                    }
                }
                0
            }
        } else {
            0
        }
    } else {
        proof {
            if b0 < 0xf8 && s.len() >= 4 && is_continuation_byte(s[1]) && is_continuation_byte(
                s[2],
            ) && is_continuation_byte(s[3]) {
                let b1 = s[1];
                let b2 = s[2];
                let b3 = s[3];
                assert(decode_first_codepoint(s) == ((((b0 & 0x07) as u32) << 18) | (((b1
                    & 0x3f) as u32) << 12) | (((b2 & 0x3f) as u32) << 6) | ((b3 & 0x3f) as u32)));
                assert((0xf5 <= b0 < 0xf8) ==> ((((b0 & 0x07) as u32) << 18) | (((b1
                    & 0x3f) as u32) << 12) | (((b2 & 0x3f) as u32) << 6) | ((b3 & 0x3f) as u32))
                    > 0x10ffff) by (bit_vector);
            }
        }
        0
    }
}

/// Measures the maximal subpart of the ill-formed sequence at position `i`.
fn ill_formed_len(bytes: &[u8], i: usize) -> (k: usize)
    requires
        i < bytes@.len(),
    ensures
        k == ill_formed_prefix_len(bytes@.skip(i as int)),
        1 <= k,
        i + k <= bytes@.len(),
{
    let ghost s = bytes@.skip(i as int);
    let len = bytes.len();
    let b0 = bytes[i];
    proof {
        assert(s.len() == len - i);
        assert(forall|j: int| 0 <= j < s.len() ==> s[j] == bytes@[i + j]);
    }
    if 0xe0 <= b0 && b0 <= 0xef {
        if len - i >= 2 {
            let b1 = bytes[i + 1];
            let second_ok: bool = if b0 == 0xe0 {
                0xa0 <= b1 && b1 <= 0xbf
            } else if b0 == 0xed {
                0x80 <= b1 && b1 <= 0x9f
            } else {
                0x80 <= b1 && b1 <= 0xbf
            };
            if second_ok {
                2
            } else {
                1
            }
        } else {
            1
        }
    } else if 0xf0 <= b0 && b0 <= 0xf4 {
        if len - i >= 2 {
            let b1 = bytes[i + 1];
            let second_ok: bool = if b0 == 0xf0 {
                0x90 <= b1 && b1 <= 0xbf
            } else if b0 == 0xf4 {
                0x80 <= b1 && b1 <= 0x8f
            } else {
                0x80 <= b1 && b1 <= 0xbf
            };
            if second_ok {
                if len - i >= 3 && 0x80 <= bytes[i + 2] && bytes[i + 2] <= 0xbf {
                    3
                } else {
                    2
                }
            } else {
                1
            }
        } else {
            1
        }
    } else {
        1
    }
}

/// Normalizes arbitrary bytes to valid UTF-8 by lossy replacement.
pub fn normalize_utf8_lossy(bytes: &[u8]) -> (out: Vec<u8>)
    ensures
        out@ == normalize_lossy(bytes@),
        valid_utf8(out@),
{
    let mut out: Vec<u8> = Vec::new();
    let mut i: usize = 0;
    proof {
        assert(bytes@.skip(0) =~= bytes@);
    }
    while i < bytes.len()
        invariant
            i <= bytes@.len(),
            out@ + normalize_lossy(bytes@.skip(i as int)) == normalize_lossy(bytes@),
        decreases bytes@.len() - i,
    {
        let ghost s = bytes@.skip(i as int);
        let ghost prefix = out@;
        let n = utf8_step(bytes, i);
        if n == 0 {
            let k = ill_formed_len(bytes, i);
            out.push(0xef);
            out.push(0xbf);
            out.push(0xbd);
            proof {
                assert(out@ =~= prefix + replacement_bytes());
                assert(s.skip(k as int) =~= bytes@.skip(i + k));
                assert(normalize_lossy(s) == replacement_bytes() + normalize_lossy(
                    bytes@.skip(i + k),
                ));
                assert((prefix + replacement_bytes()) + normalize_lossy(bytes@.skip(i + k))
                    =~= prefix + (replacement_bytes() + normalize_lossy(bytes@.skip(i + k))));
            }
            i = i + k;
        } else {
            let end = i + n;
            let mut k = i;
            while k < end
                invariant
                    i <= k <= end,
                    end <= bytes@.len(),
                    out@ == prefix + bytes@.subrange(i as int, k as int),
                decreases end - k,
            {
                proof {
                    assert(prefix + bytes@.subrange(i as int, k as int) + seq![bytes@[k as int]]
                        =~= prefix + bytes@.subrange(i as int, k + 1));
                }
                out.push(bytes[k]);
                k = k + 1;
            }
            proof {
                lemma_first_scalar_len(s);
                assert(take_first_scalar(s) =~= bytes@.subrange(i as int, end as int));
                assert(pop_first_scalar(s) =~= bytes@.skip(end as int));
                assert(normalize_lossy(s) == take_first_scalar(s) + normalize_lossy(
                    bytes@.skip(end as int),
                ));
                assert((prefix + take_first_scalar(s)) + normalize_lossy(bytes@.skip(end as int))
                    =~= prefix + (take_first_scalar(s) + normalize_lossy(bytes@.skip(end as int))));
            }
            i = end;
        }
    }
    proof {
        assert(bytes@.skip(i as int).len() == 0);
        assert(normalize_lossy(bytes@.skip(i as int)) =~= Seq::<u8>::empty());
        assert(out@ + Seq::<u8>::empty() =~= out@);
        lemma_normalize_lossy_valid(bytes@);
    }
    out
}

} // verus!
