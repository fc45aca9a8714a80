//! The `WM_CLASS` property: `res_name NUL res_class NUL`.

use vstd::prelude::*;
use vstd::slice::slice_subrange;

verus! {

/// The second NUL-separated field of `bytes`, as splitting the bytes on NUL
/// yields it: `None` where `bytes` holds no NUL at all; otherwise the bytes
/// after the first NUL, up to the next NUL or the end.
pub open spec fn second_field(bytes: Seq<u8>) -> Option<Seq<u8>> {
    match bytes.index_of_first(0u8) {
        None => None,
        Some(i) => {
            let rest = bytes.skip(i + 1);
            match rest.index_of_first(0u8) {
                Some(j) => Some(rest.take(j)),
                None => Some(rest),
            }
        },
    }
}

/// A NUL found at `r` with none before it (from index 0) is the first NUL;
/// running off the end without one means there is none.
proof fn lemma_first_nul(s: Seq<u8>, r: int)
    requires
        0 <= r <= s.len(),
        forall|k: int| 0 <= k < r ==> s[k] != 0u8,
        r < s.len() ==> s[r] == 0u8,
    ensures
        r < s.len() ==> s.index_of_first(0u8) == Some(r),
        r == s.len() ==> s.index_of_first(0u8) is None,
{
    s.index_of_first_ensures(0u8);
}

/// Index of the first NUL at or after `start`, or `bytes.len()` where there is none.
fn find_nul(bytes: &[u8], start: usize) -> (r: usize)
    requires
        start <= bytes@.len(),
    ensures
        start <= r <= bytes@.len(),
        r < bytes@.len() ==> bytes@[r as int] == 0u8,
        forall|k: int| start <= k < r ==> bytes@[k] != 0u8,
{
    let mut i: usize = start;
    while i < bytes.len() && bytes[i] != 0
        invariant
            start <= i <= bytes@.len(),
            forall|k: int| start <= k < i ==> bytes@[k] != 0u8,
        decreases bytes@.len() - i,
    {
        i = i + 1;
    }
    i
}

/// The `res_class` field of a `WM_CLASS` value: the bytes between the first
/// NUL and the next NUL (or the end). `None` where the value holds no NUL.
pub fn res_class_field(bytes: &[u8]) -> (field: Option<&[u8]>)
    ensures
        field is None <==> second_field(bytes@) is None,
        field matches Some(f) ==> second_field(bytes@) == Some(f@),
{
    let first = find_nul(bytes, 0);
    proof {
        lemma_first_nul(bytes@, first as int);
    }
    if first == bytes.len() {
        return None;
    }
    let start = first + 1;
    let end = find_nul(bytes, start);
    let ghost rest = bytes@.skip(start as int);
    proof {
        assert forall|k: int| 0 <= k < end - start implies rest[k] != 0u8 by {
            assert(rest[k] == bytes@[k + start]);
        }
        if end < bytes.len() {
            assert(rest[end - start] == bytes@[end as int]);
        }
        lemma_first_nul(rest, end - start);
    }
    let field = slice_subrange(bytes, start, end);
    proof {
        if end < bytes.len() {
            assert(field@ =~= rest.take(end - start));
        } else {
            assert(field@ =~= rest);
        }
    }
    Some(field)
}

/// The code of the ASCII lowercase of the character with code `c`: `A`..`Z`
/// become `a`..`z`, every other code stays.
pub open spec fn ascii_lower_code(c: int) -> int {
    if 65 <= c <= 90 {
        c + 32
    } else {
        c
    }
}

/// Every byte is ASCII (below 128).
pub open spec fn is_ascii_bytes(bytes: Seq<u8>) -> bool {
    forall|i: int| 0 <= i < bytes.len() ==> bytes[i] < 128
}

/// Every character is ASCII (code below 128).
pub open spec fn is_ascii_chars(text: Seq<char>) -> bool {
    forall|i: int| 0 <= i < text.len() ==> (text[i] as int) < 128
}

/// ASCII bytes taken as characters, with `A`..`Z` lowercased.
pub open spec fn ascii_lowercase(bytes: Seq<u8>) -> Seq<char> {
    bytes.map_values(|b: u8| ascii_lower_code(b as int) as char)
}

/// `text` holds no NUL character.
pub open spec fn chars_nul_free(text: Seq<char>) -> bool {
    forall|i: int| 0 <= i < text.len() ==> (text[i] as int) != 0
}

/// `text` holds no ASCII uppercase letter (`A`..`Z`).
pub open spec fn no_ascii_uppercase(text: Seq<char>) -> bool {
    forall|i: int| 0 <= i < text.len() ==> !(65 <= #[trigger] (text[i] as int) <= 90)
}

/// What `String::from_utf8_lossy` makes of `bytes`, as characters.
pub uninterp spec fn utf8_lossy_chars(bytes: Seq<u8>) -> Seq<char>;

/// What `str::to_lowercase` makes of `text`.
pub uninterp spec fn lowercase_chars(text: Seq<char>) -> Seq<char>;

/// Decodes `bytes` as UTF-8 with `String::from_utf8_lossy`, which puts U+FFFD in
/// place of each invalid sequence. The contract claims that the result is the
/// same function of the bytes each time (`utf8_lossy_chars`); that bytes that
/// are all ASCII (valid UTF-8, one character each) come out as the same
/// characters; that some bytes give some characters (every byte is part of a
/// character or of a replaced sequence); and that without a NUL byte there is
/// no NUL character (U+0000 is only ever the byte 0, and U+FFFD is not it).
/// What the decoding makes of other bytes is left to std.
#[verifier::external_body]
fn decode_utf8_lossy(bytes: &[u8]) -> (text: String)
    ensures
        text@ == utf8_lossy_chars(bytes@),
        is_ascii_bytes(bytes@) ==> text@ == bytes@.map_values(|b: u8| b as char),
        bytes@.len() > 0 ==> text@.len() > 0,
        nul_free(bytes@) ==> chars_nul_free(text@),
{
    String::from_utf8_lossy(bytes).into_owned()
}

/// Lowercases `text` with `str::to_lowercase` (Unicode `Lowercase` mapping).
/// The contract claims that the result is the same function of the text each
/// time (`lowercase_chars`), and that an all-ASCII text is lowercased as
/// `to_ascii_lowercase` would (`A`..`Z` to `a`..`z`, the rest unchanged); that
/// the result holds no ASCII uppercase letter; that a non-empty text gives a
/// non-empty result (each character lowercases to one or more characters);
/// and that a text without NUL gives a result without NUL (U+0000 lowercases
/// only from itself). The mapping of other characters is left to std.
#[verifier::external_body]
fn to_lowercase(text: &str) -> (lower: String)
    ensures
        lower@ == lowercase_chars(text@),
        is_ascii_chars(text@) ==> lower@ == text@.map_values(
            |c: char| ascii_lower_code(c as int) as char,
        ),
        no_ascii_uppercase(lower@),
        text@.len() > 0 ==> lower@.len() > 0,
        chars_nul_free(text@) ==> chars_nul_free(lower@),
{
    text.to_lowercase()
}

/// The class that a `WM_CLASS` value names: its `res_class` field, decoded and
/// lowercased; `None` where there is no such field or it is empty.
pub open spec fn wm_class_of(bytes: Seq<u8>) -> Option<Seq<char>> {
    match second_field(bytes) {
        Some(field) => if field.len() > 0 {
            Some(lowercase_chars(utf8_lossy_chars(field)))
        } else {
            None
        },
        None => None,
    }
}

/// Parses a `WM_CLASS` value (`res_name NUL res_class NUL`) and returns its
/// `res_class`, lowercased for case-insensitive matching; `None` when the
/// value is malformed (no second field, or an empty one).
pub fn parse_wm_class(bytes: &[u8]) -> (class: Option<String>)
    ensures
        class is None <==> wm_class_of(bytes@) is None,
        class matches Some(c) ==> wm_class_of(bytes@) == Some(c@),
        class matches Some(c) ==> (is_ascii_bytes(second_field(bytes@).unwrap()) ==> c@
            == ascii_lowercase(second_field(bytes@).unwrap())),
        class matches Some(c) ==> c@.len() > 0 && chars_nul_free(c@) && no_ascii_uppercase(c@),
{
    match res_class_field(bytes) {
        None => None,
        Some(field) => {
            if field.len() == 0 {
                None
            } else {
                let decoded = decode_utf8_lossy(field);
                proof {
                    lemma_second_field_is_a_field(bytes@);
                    if is_ascii_bytes(field@) {
                        assert forall|i: int| 0 <= i < decoded@.len() implies (
                        decoded@[i] as int) < 128 by {
                            assert(decoded@[i] == field@[i] as char);
                        }
                    }
                }
                let lower = to_lowercase(decoded.as_str());
                proof {
                    if is_ascii_bytes(field@) {
                        assert(lower@ =~= ascii_lowercase(field@));
                    }
                }
                Some(lower)
            }
        },
    }
}

/// `bytes` holds no NUL.
pub open spec fn nul_free(bytes: Seq<u8>) -> bool {
    forall|k: int| 0 <= k < bytes.len() ==> bytes[k] != 0u8
}

/// Where the second field is, it holds no NUL and, with the NUL before it,
/// ends the bytes or is followed by a NUL: it is a whole field.
pub proof fn lemma_second_field_is_a_field(bytes: Seq<u8>)
    ensures
        second_field(bytes) matches Some(f) ==> {
            &&& nul_free(f)
            &&& exists|i: int|
                0 <= i && i + 1 + f.len() <= bytes.len() && bytes[i] == 0u8 && nul_free(bytes.take(i))
                    && #[trigger] bytes.subrange(i + 1, i + 1 + f.len()) == f
                    && (i + 1 + f.len() == bytes.len() || bytes[i + 1 + f.len()] == 0u8)
        },
{
    bytes.index_of_first_ensures(0u8);
    if let Some(i) = bytes.index_of_first(0u8) {
        let rest = bytes.skip(i + 1);
        rest.index_of_first_ensures(0u8);
        let f = second_field(bytes).unwrap();
        match rest.index_of_first(0u8) {
            Some(j) => {
                assert(f =~= rest.take(j));
                assert(bytes.subrange(i + 1, i + 1 + f.len()) =~= f);
                assert(bytes[i + 1 + f.len()] == rest[j]);
            },
            None => {
                assert(f =~= rest);
                assert forall|k: int| 0 <= k < f.len() implies f[k] != 0u8 by {
                    if f[k] == 0u8 {
                        assert(rest.contains(0u8));
                    }
                }
                assert(bytes.subrange(i + 1, i + 1 + f.len()) =~= f);
            },
        }
    }
}

/// Bytes without any NUL have no second field.
pub proof fn lemma_no_nul_no_field(bytes: Seq<u8>)
    requires
        nul_free(bytes),
    ensures
        second_field(bytes) is None,
{
    lemma_first_nul(bytes, bytes.len() as int);
}

/// For any `res_name` and `res_class` without NUL, followed by nothing or by a
/// NUL and any bytes, the second field is the `res_class`: the `res_name` and
/// what follows the field do not change it.
pub proof fn lemma_second_field_of_layout(name: Seq<u8>, class: Seq<u8>, tail: Seq<u8>)
    requires
        nul_free(name),
        nul_free(class),
        tail.len() == 0 || tail[0] == 0u8,
    ensures
        second_field(name + seq![0u8] + class + tail) == Some(class),
{
    let bytes = name + seq![0u8] + class + tail;
    assert forall|k: int| 0 <= k < name.len() implies bytes[k] != 0u8 by {
        assert(bytes[k] == name[k]);
    }
    lemma_first_nul(bytes, name.len() as int);
    let rest = bytes.skip(name.len() + 1int);
    assert(rest =~= class + tail);
    assert forall|k: int| 0 <= k < class.len() implies rest[k] != 0u8 by {
        assert(rest[k] == class[k]);
    }
    if tail.len() > 0 {
        assert(rest[class.len() as int] == tail[0]);
    }
    lemma_first_nul(rest, class.len() as int);
    if tail.len() > 0 {
        assert(rest.take(class.len() as int) =~= class);
    } else {
        assert(rest =~= class);
    }
}

/// A well-formed `WM_CLASS` value `res_name NUL res_class NUL ...` with a
/// non-empty `res_class` gives that class, decoded and lowercased, whatever the
/// `res_name` (empty or not) and whatever follows; an empty `res_class` gives `None`.
pub proof fn lemma_wm_class_of_layout(name: Seq<u8>, class: Seq<u8>, tail: Seq<u8>)
    requires
        nul_free(name),
        nul_free(class),
    ensures
        wm_class_of(name + seq![0u8] + class + seq![0u8] + tail) == if class.len() > 0 {
            Some(lowercase_chars(utf8_lossy_chars(class)))
        } else {
            None::<Seq<char>>
        },
{
    let t = seq![0u8] + tail;
    assert(name + seq![0u8] + class + seq![0u8] + tail =~= name + seq![0u8] + class + t);
    lemma_second_field_of_layout(name, class, t);
}

/// `a` and `b` differ at most in the case of ASCII letters.
pub open spec fn same_up_to_ascii_case(a: Seq<u8>, b: Seq<u8>) -> bool {
    &&& a.len() == b.len()
    &&& forall|i: int| 0 <= i < a.len() ==> ascii_lower_code(a[i] as int) == ascii_lower_code(b[i] as int)
}

/// Sequences with NUL at the same places have their first NUL at the same place.
proof fn lemma_same_nuls_same_first(a: Seq<u8>, b: Seq<u8>)
    requires
        a.len() == b.len(),
        forall|i: int| 0 <= i < a.len() ==> (#[trigger] a[i] == 0u8 <==> #[trigger] b[i] == 0u8),
    ensures
        a.index_of_first(0u8) == b.index_of_first(0u8),
{
    a.index_of_first_ensures(0u8);
    match a.index_of_first(0u8) {
        Some(i) => {
            assert forall|k: int| 0 <= k < i implies b[k] != 0u8 by {
                assert(a[k] != 0u8);
            }
            assert(a[i] == 0u8);
            lemma_first_nul(b, i);
        },
        None => {
            assert forall|k: int| 0 <= k < b.len() implies b[k] != 0u8 by {
                if b[k] == 0u8 {
                    assert(a[k] == 0u8);
                    assert(a.contains(0u8));
                }
            }
            lemma_first_nul(b, b.len() as int);
        },
    }
}

/// ASCII case does not matter: for two values that differ only in the case of
/// ASCII letters, either both have a `res_class` field or neither has; the
/// two fields have the same length, both are ASCII or neither is, and they
/// agree once ASCII-lowercased. So, by the contract of `parse_wm_class`, two
/// such values with an ASCII `res_class` parse to the same class.
pub proof fn lemma_ascii_case_does_not_matter(a: Seq<u8>, b: Seq<u8>)
    requires
        same_up_to_ascii_case(a, b),
    ensures
        second_field(a) is Some <==> second_field(b) is Some,
        second_field(a) is Some ==> {
            let fa = second_field(a).unwrap();
            let fb = second_field(b).unwrap();
            &&& same_up_to_ascii_case(fa, fb)
            &&& (is_ascii_bytes(fa) <==> is_ascii_bytes(fb))
            &&& ascii_lowercase(fa) == ascii_lowercase(fb)
        },
{
    assert forall|i: int| 0 <= i < a.len() implies (#[trigger] a[i] == 0u8 <==> #[trigger] b[i]
        == 0u8) by {
        assert(ascii_lower_code(a[i] as int) == ascii_lower_code(b[i] as int));
    }
    lemma_same_nuls_same_first(a, b);
    a.index_of_first_ensures(0u8);
    if let Some(i) = a.index_of_first(0u8) {
        let ra = a.skip(i + 1);
        let rb = b.skip(i + 1);
        assert forall|k: int| 0 <= k < ra.len() implies (#[trigger] ra[k] == 0u8 <==> #[trigger] rb[k]
            == 0u8) by {
            assert(ra[k] == a[k + i + 1]);
            assert(rb[k] == b[k + i + 1]);
        }
        lemma_same_nuls_same_first(ra, rb);
        ra.index_of_first_ensures(0u8);
        let fa = second_field(a).unwrap();
        let fb = second_field(b).unwrap();
        match ra.index_of_first(0u8) {
            Some(j) => {
                assert(fa == ra.take(j));
                assert(fb == rb.take(j));
            },
            None => {
                assert(fa == ra);
                assert(fb == rb);
            },
        }
        assert(fa.len() == fb.len());
        assert(fa.len() <= ra.len());
        assert forall|k: int| 0 <= k < fa.len() implies ascii_lower_code(fa[k] as int)
            == ascii_lower_code(fb[k] as int) by {
            assert(fa[k] == a[k + i + 1]);
            assert(fb[k] == b[k + i + 1]);
        }
        assert forall|k: int| 0 <= k < fa.len() implies (fa[k] < 128 <==> fb[k] < 128) by {
            assert(ascii_lower_code(fa[k] as int) == ascii_lower_code(fb[k] as int));
        }
        assert(ascii_lowercase(fa) =~= ascii_lowercase(fb)) by {
            assert forall|k: int| 0 <= k < fa.len() implies ascii_lowercase(fa)[k]
                == ascii_lowercase(fb)[k] by {
                assert(ascii_lower_code(fa[k] as int) == ascii_lower_code(fb[k] as int));
            }
        }
    }
}

} // verus!
