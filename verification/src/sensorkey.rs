//! Sensor key formatting.
//!
//! A temperature sensor is reported under a key built from its unit name
//! and, when present, its label: the unit, an underscore, and the label with
//! spaces turned into underscores and every character lowercased.  Without a
//! label the key is the unit name alone.

use crate::encoding::lemma_normalize_lossy_identity;
use crate::intern::{interned_entries, interned_id, InternTable, StrView};
use vstd::prelude::*;
use vstd::utf8::{encode_scalar, encode_utf8, encode_utf8_valid_utf8};

verus! {

broadcast use vstd::seq::group_seq_axioms;

/// What `str::to_lowercase` returns for given characters: the Unicode
/// lowercase mapping, a function of the characters alone.
pub uninterp spec fn lower_of(s: Seq<char>) -> Seq<char>;

/// Each space turned into an underscore, every other character kept.
pub open spec fn spaces_to_underscores(s: Seq<char>) -> Seq<char> {
    s.map_values(
        |c: char|
            if c == ' ' {
                '_'
            } else {
                c
            },
    )
}

/// Relies on `str::to_lowercase`: returns the lowercase mapping of the
/// input's characters, named here by `lower_of`.
#[verifier::external_body]
fn lowercase(s: &str) -> (r: String)
    ensures
        r@ == lower_of(s@),
{
    s.to_lowercase()
}

/// Relies on `str::replace` with the one-character pattern `" "` and the
/// one-character replacement `"_"`: every space becomes an underscore and
/// everything else is kept.
#[verifier::external_body]
fn replace_spaces(s: &str) -> (r: String)
    ensures
        r@ == spaces_to_underscores(s@),
{
    s.replace(" ", "_")
}

/// The characters of the key a sensor is reported under.
pub open spec fn sensor_key_chars(unit: Seq<char>, label: Option<Seq<char>>) -> Seq<char> {
    match label {
        Some(l) => unit + seq!['_'] + lower_of(spaces_to_underscores(l)),
        None => unit,
    }
}

/// The view of an optional label.
pub open spec fn label_view(label: Option<&str>) -> Option<Seq<char>> {
    match label {
        Some(l) => Some(l@),
        None => None,
    }
}

/// Encoding a concatenation encodes each part.
proof fn lemma_encode_utf8_concat(a: Seq<char>, b: Seq<char>)
    ensures
        encode_utf8(a + b) == encode_utf8(a) + encode_utf8(b),
    decreases a.len(),
{
    if a.len() == 0 {
        assert(a + b =~= b);
        assert(encode_utf8(a) + encode_utf8(b) =~= encode_utf8(b));
    } else {
        assert((a + b)[0] == a[0]);
        assert((a + b).drop_first() =~= a.drop_first() + b);
        lemma_encode_utf8_concat(a.drop_first(), b);
        assert(encode_utf8(a + b) =~= encode_utf8(a) + encode_utf8(b));
    }
}

/// The encoded bytes of the key a sensor is reported under.
pub fn format_sensor_key(unit: &str, label: Option<&str>) -> (r: Vec<u8>)
    ensures
        r@ == encode_utf8(sensor_key_chars(unit@, label_view(label))),
{
    match label {
        None => unit.as_bytes_vec(),
        Some(l) => {
            let repl = replace_spaces(l);
            let low = lowercase(repl.as_str());
            let mut out = unit.as_bytes_vec();
            out.push(0x5f);
            out.extend_from_slice(low.as_str().as_bytes());
            proof {
                let tail = lower_of(spaces_to_underscores(l@));
                assert(('_' as u32) == 0x5f);
                assert((0x5fu32 & 0x7f) as u8 == 0x5fu8) by (bit_vector);
                assert(seq!['_'][0] == '_');
                assert(seq!['_'].drop_first() =~= Seq::<char>::empty());
                assert(encode_utf8(Seq::<char>::empty()) =~= Seq::<u8>::empty());
                assert(encode_scalar('_' as u32) =~= seq![0x5fu8]);
                assert(encode_utf8(seq!['_']) =~= encode_scalar('_' as u32) + encode_utf8(
                    Seq::<char>::empty(),
                ));
                assert(encode_utf8(seq!['_']) =~= seq![0x5fu8]);
                lemma_encode_utf8_concat(unit@ + seq!['_'], tail);
                lemma_encode_utf8_concat(unit@, seq!['_']);
                assert(out@ =~= encode_utf8(unit@) + seq![0x5fu8] + encode_utf8(tail));
                assert(sensor_key_chars(unit@, label_view(label)) == (unit@ + seq!['_']) + tail);
                assert(encode_utf8((unit@ + seq!['_']) + tail) =~= out@);
            }
            out
        },
    }
}

/// Builds a sensor's key and interns it, yielding the view under which the
/// sensor's record is reported.
pub fn temperature_key(table: &mut InternTable, unit: &str, label: Option<&str>) -> (v: StrView)
    requires
        old(table).wf(),
    ensures
        final(table).wf(),
        final(table)@ == interned_entries(
            old(table)@,
            encode_utf8(sensor_key_chars(unit@, label_view(label))),
        ),
        v.id == interned_id(old(table)@, encode_utf8(sensor_key_chars(unit@, label_view(label)))),
        v.wf(final(table)@),
        v.content(final(table)@) == encode_utf8(sensor_key_chars(unit@, label_view(label))),
{
    let key = format_sensor_key(unit, label);
    let v = table.intern(key.as_slice());
    proof {
        let chars = sensor_key_chars(unit@, label_view(label));
        encode_utf8_valid_utf8(chars);
        lemma_normalize_lossy_identity(encode_utf8(chars));
    }
    v
}

} // verus!
