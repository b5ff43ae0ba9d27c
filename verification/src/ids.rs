//! Identity normalizer: canonicalizes a display name into a comparison key by
//! removing every character that is not an ASCII letter or digit and
//! lowercasing the remainder.

use vstd::prelude::*;

verus! {

/// A character that survives normalization: an ASCII digit.
pub open spec fn is_digit_char(c: char) -> bool {
    48 <= c as u32 && c as u32 <= 57
}

/// An ASCII uppercase letter.
pub open spec fn is_upper_char(c: char) -> bool {
    65 <= c as u32 && c as u32 <= 90
}

/// An ASCII lowercase letter.
pub open spec fn is_lower_char(c: char) -> bool {
    97 <= c as u32 && c as u32 <= 122
}

/// A character kept by normalization: an ASCII letter or digit.
pub open spec fn is_id_char(c: char) -> bool {
    is_digit_char(c) || is_upper_char(c) || is_lower_char(c)
}

/// ASCII lowercasing of a single character; everything but A-Z is unchanged.
pub open spec fn lower_char(c: char) -> char {
    if is_upper_char(c) {
        (((c as u32 + 32) as u8) as char)
    } else {
        c
    }
}

/// The normalized form of a name: its ASCII letters and digits, in order,
/// each lowercased.
pub open spec fn normalized_of(s: Seq<char>) -> Seq<char>
    decreases s.len(),
{
    if s.len() == 0 {
        Seq::empty()
    } else if is_id_char(s[0]) {
        seq![lower_char(s[0])] + normalized_of(s.drop_first())
    } else {
        normalized_of(s.drop_first())
    }
}

/// Appending one character to the input appends its normalized image (one
/// lowered character, or nothing) to the output.
pub proof fn lemma_normalized_of_push(s: Seq<char>, c: char)
    ensures
        normalized_of(s.push(c)) == if is_id_char(c) {
            normalized_of(s).push(lower_char(c))
        } else {
            normalized_of(s)
        },
    decreases s.len(),
{
    if s.len() == 0 {
        assert(s.push(c)[0] == c);
        assert(s.push(c).drop_first() =~= Seq::<char>::empty());
        assert(normalized_of(Seq::<char>::empty()) =~= Seq::<char>::empty());
        assert(normalized_of(s) =~= Seq::<char>::empty());
        if is_id_char(c) {
            assert(normalized_of(s.push(c)) =~= normalized_of(s).push(lower_char(c)));
        } else {
            assert(normalized_of(s.push(c)) =~= normalized_of(s));
        }
    } else {
        lemma_normalized_of_push(s.drop_first(), c);
        assert(s.push(c).drop_first() =~= s.drop_first().push(c));
        assert(s.push(c)[0] == s[0]);
        if is_id_char(c) {
            assert(normalized_of(s.push(c)) =~= normalized_of(s).push(lower_char(c)));
        } else {
            assert(normalized_of(s.push(c)) =~= normalized_of(s));
        }
    }
}

/// Lowercasing keeps a character's membership in the id alphabet, is
/// idempotent, and never yields an uppercase letter.
pub proof fn lemma_lower_char_props(c: char)
    ensures
        is_id_char(lower_char(c)) == is_id_char(c),
        lower_char(lower_char(c)) == lower_char(c),
        !is_upper_char(lower_char(c)),
{
}

/// Every character of a normalized key is an ASCII letter or digit and is
/// already lowercase.
pub proof fn lemma_normalized_chars(s: Seq<char>)
    ensures
        forall|k: int|
            0 <= k < normalized_of(s).len() ==> #[trigger] is_id_char(normalized_of(s)[k])
                && lower_char(normalized_of(s)[k]) == normalized_of(s)[k],
    decreases s.len(),
{
    if s.len() != 0 {
        lemma_normalized_chars(s.drop_first());
        let rest = normalized_of(s.drop_first());
        if is_id_char(s[0]) {
            lemma_lower_char_props(s[0]);
            assert forall|k: int| 0 <= k < normalized_of(s).len() implies #[trigger] is_id_char(
                normalized_of(s)[k],
            ) && lower_char(normalized_of(s)[k]) == normalized_of(s)[k] by {
                if k == 0 {
                    assert(normalized_of(s)[0] == lower_char(s[0]));
                } else {
                    assert(normalized_of(s)[k] == rest[k - 1]);
                }
            }
        } else {
            assert(normalized_of(s) == rest);
        }
    }
}

/// A sequence made only of lowercase ASCII letters and digits is a fixed
/// point of normalization.
pub proof fn lemma_normalize_fixed(t: Seq<char>)
    requires
        forall|k: int|
            0 <= k < t.len() ==> #[trigger] is_id_char(t[k]) && lower_char(t[k]) == t[k],
    ensures
        normalized_of(t) == t,
    decreases t.len(),
{
    if t.len() == 0 {
        assert(normalized_of(t) =~= t);
    } else {
        lemma_normalize_fixed(t.drop_first());
        assert(normalized_of(t) =~= t);
    }
}

/// Normalization is idempotent: normalizing an already-normalized key returns
/// it unchanged.
pub proof fn lemma_normalize_idempotent(s: Seq<char>)
    ensures
        normalized_of(normalized_of(s)) == normalized_of(s),
{
    lemma_normalized_chars(s);
    lemma_normalize_fixed(normalized_of(s));
}

/// Normalization is case-insensitive: lowercasing the input first does not
/// change the normalized key.
pub proof fn lemma_normalize_case_insensitive(s: Seq<char>)
    ensures
        normalized_of(s.map_values(|c: char| lower_char(c))) == normalized_of(s),
    decreases s.len(),
{
    let lowered = s.map_values(|c: char| lower_char(c));
    if s.len() == 0 {
        assert(normalized_of(lowered) =~= normalized_of(s));
    } else {
        lemma_normalize_case_insensitive(s.drop_first());
        lemma_lower_char_props(s[0]);
        assert(lowered.drop_first() =~= s.drop_first().map_values(|c: char| lower_char(c)));
        assert(lowered[0] == lower_char(s[0]));
        if is_id_char(s[0]) {
            assert(normalized_of(lowered) =~= normalized_of(s));
        } else {
            assert(normalized_of(lowered) =~= normalized_of(s));
        }
    }
}

/// Normalization is punctuation-insensitive: inserting a character that is
/// not an ASCII letter or digit anywhere in the input does not change the
/// normalized key.
pub proof fn lemma_normalize_ignores_non_id(s: Seq<char>, i: int, c: char)
    requires
        !is_id_char(c),
        0 <= i <= s.len(),
    ensures
        normalized_of(s.insert(i, c)) == normalized_of(s),
    decreases s.len(),
{
    let t = s.insert(i, c);
    if i == 0 {
        assert(t[0] == c);
        assert(t.drop_first() =~= s);
    } else {
        lemma_normalize_ignores_non_id(s.drop_first(), i - 1, c);
        assert(t[0] == s[0]);
        assert(t.drop_first() =~= s.drop_first().insert(i - 1, c));
        assert(normalized_of(t) =~= normalized_of(s));
    }
}

/// A byte kept by normalization of raw field bytes: an ASCII letter or digit.
pub open spec fn is_id_byte(b: u8) -> bool {
    (48 <= b && b <= 57) || (65 <= b && b <= 90) || (97 <= b && b <= 122)
}

/// ASCII lowercasing of a single byte; everything but A-Z is unchanged.
pub open spec fn lower_byte(b: u8) -> u8 {
    if 65 <= b && b <= 90 {
        (b + 32) as u8
    } else {
        b
    }
}

/// The normalized key read from raw bytes: the ASCII letters and digits, in
/// order, lowercased, as characters. Every other byte (punctuation, quotes,
/// any byte of a multi-byte encoded character) is dropped.
pub open spec fn normalized_of_bytes(s: Seq<u8>) -> Seq<char>
    decreases s.len(),
{
    if s.len() == 0 {
        Seq::empty()
    } else if is_id_byte(s[0]) {
        seq![lower_byte(s[0]) as char] + normalized_of_bytes(s.drop_first())
    } else {
        normalized_of_bytes(s.drop_first())
    }
}

/// Appending one byte to the input appends its normalized image to the
/// output.
pub proof fn lemma_normalized_of_bytes_push(s: Seq<u8>, b: u8)
    ensures
        normalized_of_bytes(s.push(b)) == if is_id_byte(b) {
            normalized_of_bytes(s).push(lower_byte(b) as char)
        } else {
            normalized_of_bytes(s)
        },
    decreases s.len(),
{
    if s.len() == 0 {
        assert(s.push(b)[0] == b);
        assert(s.push(b).drop_first() =~= Seq::<u8>::empty());
        assert(normalized_of_bytes(Seq::<u8>::empty()) =~= Seq::<char>::empty());
        assert(normalized_of_bytes(s) =~= Seq::<char>::empty());
        if is_id_byte(b) {
            assert(normalized_of_bytes(s.push(b)) =~= normalized_of_bytes(s).push(
                lower_byte(b) as char,
            ));
        } else {
            assert(normalized_of_bytes(s.push(b)) =~= normalized_of_bytes(s));
        }
    } else {
        lemma_normalized_of_bytes_push(s.drop_first(), b);
        assert(s.push(b).drop_first() =~= s.drop_first().push(b));
        assert(s.push(b)[0] == s[0]);
        if is_id_byte(b) {
            assert(normalized_of_bytes(s.push(b)) =~= normalized_of_bytes(s).push(
                lower_byte(b) as char,
            ));
        } else {
            assert(normalized_of_bytes(s.push(b)) =~= normalized_of_bytes(s));
        }
    }
}

fn id_byte(b: u8) -> (r: bool)
    ensures
        r == is_id_byte(b),
{
    (48 <= b && b <= 57) || (65 <= b && b <= 90) || (97 <= b && b <= 122)
}

/// Reads the comparison key out of one raw extracted field, if the field is
/// present: keeps the ASCII letters and digits and lowercases them.
pub fn bytes_to_id(bytes: &Option<Vec<u8>>) -> (r: Option<String>)
    ensures
        bytes is None ==> r is None,
        bytes matches Some(b) ==> (r matches Some(key) && key@ == normalized_of_bytes(b@)),
{
    match bytes {
        Option::None => Option::None,
        Option::Some(b) => {
            let n = b.len();
            let mut out = String::new();
            let mut i: usize = 0;
            while i < n
                invariant
                    i <= n,
                    n == b@.len(),
                    out@ == normalized_of_bytes(b@.take(i as int)),
                decreases n - i,
            {
                let x = b[i];
                proof {
                    lemma_normalized_of_bytes_push(b@.take(i as int), x);
                    assert(b@.take(i + 1 as int) =~= b@.take(i as int).push(x));
                }
                if id_byte(x) {
                    let l: u8 = if 65 <= x && x <= 90 {
                        x + 32
                    } else {
                        x
                    };
                    push_char(&mut out, l as char);
                }
                i = i + 1;
            }
            proof {
                assert(b@.take(n as int) =~= b@);
            }
            Option::Some(out)
        },
    }
}

fn id_char(c: char) -> (b: bool)
    ensures
        b == is_id_char(c),
{
    let u = c as u32;
    (48 <= u && u <= 57) || (65 <= u && u <= 90) || (97 <= u && u <= 122)
}

fn to_lower(c: char) -> (r: char)
    ensures
        r == lower_char(c),
{
    let u = c as u32;
    if 65 <= u && u <= 90 {
        ((u + 32) as u8) as char
    } else {
        c
    }
}

/// Relies on String::push: appends the given character to the end of the
/// string.
#[verifier::external_body]
fn push_char(s: &mut String, c: char)
    ensures
        final(s)@ == old(s)@.push(c),
{
    s.push(c);
}

/// Canonicalizes a display name into a comparison key: strips every character
/// that is not an ASCII letter or digit and lowercases the remainder. Total
/// over all strings; the empty string maps to the empty key.
pub fn str_to_id(s: &str) -> (r: String)
    ensures
        r@ == normalized_of(s@),
{
    let n = s.unicode_len();
    let mut out = String::new();
    let mut i: usize = 0;
    while i < n
        invariant
            i <= n,
            n == s@.len(),
            out@ == normalized_of(s@.take(i as int)),
        decreases n - i,
    {
        let c = s.get_char(i);
        proof {
            lemma_normalized_of_push(s@.take(i as int), c);
            assert(s@.take(i + 1 as int) =~= s@.take(i as int).push(c));
        }
        if id_char(c) {
            let l = to_lower(c);
            push_char(&mut out, l);
        }
        i = i + 1;
    }
    proof {
        assert(s@.take(n as int) =~= s@);
    }
    out
}

} // verus!
