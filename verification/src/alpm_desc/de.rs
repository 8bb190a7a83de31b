//! Deserializer for the description format.
//!
//! Reading happens in two stages: the input is first cut into raw
//! `(key, value-block)` pairs along `%KEY%` lines and blank-line framing,
//! and the blocks are then decoded against the shapes a schema expects.

use vstd::prelude::*;
use vstd::string::StrSliceExecFns;
use crate::alpm_desc::record::{
    Field, Record, Scalar, ScalarShape, ScalarV, SchemaField, SchemaFieldV, Shape, Value, ValueV,
    FieldV,
};
use crate::alpm_desc::ser::{upper, nl};
pub use crate::alpm_desc::de_error::{Error, ErrorKind, SpecDeError};

verus! {

/// Does `p` occur in `s` at position `i`?
pub open spec fn occurs_at(s: Seq<char>, p: Seq<char>, i: int) -> bool {
    0 <= i && i + p.len() <= s.len() && s.subrange(i, i + p.len()) == p
}

/// The first position at or after `from` where `p` occurs in `s`.
pub open spec fn first_occ(s: Seq<char>, p: Seq<char>, from: int) -> Option<int>
    decreases s.len() - from,
{
    if p.len() == 0 || from < 0 || from + p.len() > s.len() {
        None
    } else if s.subrange(from, from + p.len()) == p {
        Some(from)
    } else {
        first_occ(s, p, from + 1)
    }
}

/// What `first_occ` returns is the first occurrence.
pub proof fn lemma_first_occ(s: Seq<char>, p: Seq<char>, from: int)
    requires
        p.len() >= 1,
        from >= 0,
    ensures
        match first_occ(s, p, from) {
            Some(i) => from <= i && occurs_at(s, p, i) && forall|j: int|
                from <= j < i ==> !occurs_at(s, p, j),
            None => forall|j: int| from <= j ==> !occurs_at(s, p, j),
        },
    decreases s.len() - from,
{
    if from + p.len() > s.len() {
        assert forall|j: int| from <= j implies !occurs_at(s, p, j) by {}
    } else if s.subrange(from, from + p.len()) == p {
    } else {
        lemma_first_occ(s, p, from + 1);
    }
}

/// `first_occ` is pinned down by the characteristic properties.
pub proof fn lemma_first_occ_is(s: Seq<char>, p: Seq<char>, from: int, r: Option<int>)
    requires
        p.len() >= 1,
        from >= 0,
        match r {
            Some(i) => from <= i && occurs_at(s, p, i) && forall|j: int|
                from <= j < i ==> !occurs_at(s, p, j),
            None => forall|j: int| from <= j ==> !occurs_at(s, p, j),
        },
    ensures
        first_occ(s, p, from) == r,
    decreases s.len() - from,
{
    if from + p.len() > s.len() {
        if r is Some {
            assert(occurs_at(s, p, r->0));
        }
    } else if s.subrange(from, from + p.len()) == p {
        assert(occurs_at(s, p, from));
    } else {
        assert(!occurs_at(s, p, from));
        lemma_first_occ_is(s, p, from + 1, r);
    }
}

/// What the key parser yields on success: the key name and the remainder
/// after the closing `%` and line ending.
pub open spec fn spec_parse_key(s: Seq<char>, le: Seq<char>) -> Option<(Seq<char>, Seq<char>)> {
    if s.len() == 0 || s[0] != '%' {
        None
    } else {
        match first_occ(s, seq!['%'], 1) {
            None => None,
            Some(i) => if i == 1 {
                None
            } else if i + 1 + le.len() <= s.len() && s.subrange(i + 1, i + 1 + le.len() as int)
                == le {
                Some((s.subrange(1, i), s.skip(i + 1 + le.len())))
            } else {
                None
            },
        }
    }
}

/// On success the key parser always consumes at least the two `%` bytes,
/// one key character and the line ending.
pub proof fn lemma_parse_key_shrinks(s: Seq<char>, le: Seq<char>)
    requires
        le.len() >= 1,
        spec_parse_key(s, le) is Some,
    ensures
        (spec_parse_key(s, le)->0).1.len() < s.len(),
{
    lemma_first_occ(s, seq!['%'], 1);
}

/// What the value parser yields: the value block and the remainder.  An
/// immediate line ending is an empty block; otherwise the block runs to the
/// first doubled line ending, or to the end of input when there is none.
pub open spec fn spec_parse_value(s: Seq<char>, le: Seq<char>) -> (Seq<char>, Seq<char>) {
    if s.len() >= le.len() && s.subrange(0, le.len() as int) == le {
        (Seq::empty(), s.skip(le.len() as int))
    } else {
        match first_occ(s, le + le, 0) {
            Some(i) => (s.subrange(0, i), s.skip(i + 2 * le.len())),
            None => (s, Seq::empty()),
        }
    }
}

/// The value parser never leaves more input than it was given.
pub proof fn lemma_parse_value_no_grow(s: Seq<char>, le: Seq<char>)
    requires
        le.len() >= 1,
    ensures
        spec_parse_value(s, le).1.len() <= s.len(),
{
    if !(s.len() >= le.len() && s.subrange(0, le.len() as int) == le) {
        lemma_first_occ(s, le + le, 0);
    }
}

/// ASCII whitespace.
pub open spec fn is_ws(c: char) -> bool {
    c == ' ' || c == '\t' || c == '\n' || c == '\r'
}

/// Is the whole string ASCII whitespace?  The reader takes this as the end
/// of input.
pub open spec fn is_all_ws(s: Seq<char>) -> bool {
    forall|i: int| 0 <= i < s.len() ==> is_ws(#[trigger] s[i])
}

/// The raw pairs read from the input, file order kept, or `None` when a
/// key line is malformed.
pub open spec fn spec_read(s: Seq<char>, le: Seq<char>) -> Option<Seq<(Seq<char>, Seq<char>)>>
    decreases s.len(),
    when le.len() >= 1
{
    if is_all_ws(s) {
        Some(Seq::empty())
    } else {
        match spec_parse_key(s, le) {
            None => None,
            Some((k, rest)) => {
                let pv = spec_parse_value(rest, le);
                proof {
                    lemma_parse_key_shrinks(s, le);
                    lemma_parse_value_no_grow(rest, le);
                }
                match spec_read(pv.1, le) {
                    None => None,
                    Some(t) => Some(seq![(k, pv.0)] + t),
                }
            },
        }
    }
}

/// Is this a decimal digit?
pub open spec fn is_dec_digit(c: char) -> bool {
    '0' <= c && c <= '9'
}

/// A nonempty all-digit string.
pub open spec fn is_dec(s: Seq<char>) -> bool {
    s.len() >= 1 && forall|i: int| 0 <= i < s.len() ==> is_dec_digit(#[trigger] s[i])
}

/// The number a digit string denotes.
pub open spec fn dec_val(s: Seq<char>) -> int
    decreases s.len(),
{
    if s.len() == 0 {
        0
    } else {
        dec_val(s.drop_last()) * 10 + (s.last() as int - 48)
    }
}

/// The number the text before the sign handling denotes.
pub open spec fn strip_plus(s: Seq<char>) -> Seq<char> {
    if s.len() > 0 && s[0] == '+' {
        s.drop_first()
    } else {
        s
    }
}

/// What decoding one scalar block yields.
pub open spec fn spec_decode_scalar(x: Seq<char>, sh: ScalarShape) -> Result<
    ScalarV,
    SpecDeError,
> {
    match sh {
        ScalarShape::Bool => {
            if x == seq!['t', 'r', 'u', 'e'] {
                Ok(ScalarV::Bool(true))
            } else if x == seq!['f', 'a', 'l', 's', 'e'] {
                Ok(ScalarV::Bool(false))
            } else {
                Err(SpecDeError::ExpectedBool)
            }
        },
        ScalarShape::Unsigned => {
            let body = strip_plus(x);
            if is_dec(body) && dec_val(body) <= u64::MAX {
                Ok(ScalarV::Unsigned(dec_val(body) as u64))
            } else {
                Err(SpecDeError::ExpectedUnsigned)
            }
        },
        ScalarShape::Signed => {
            if x.len() > 0 && x[0] == '-' {
                let body = x.drop_first();
                if is_dec(body) && dec_val(body) <= 0x8000000000000000 {
                    Ok(ScalarV::Signed((-dec_val(body)) as i64))
                } else {
                    Err(SpecDeError::ExpectedSigned)
                }
            } else {
                let body = strip_plus(x);
                if is_dec(body) && dec_val(body) <= i64::MAX {
                    Ok(ScalarV::Signed(dec_val(body) as i64))
                } else {
                    Err(SpecDeError::ExpectedSigned)
                }
            }
        },
        ScalarShape::Text => Ok(ScalarV::Text(x)),
    }
}

/// The list elements of a block: split on the line ending, stopping at the
/// first empty element.
pub open spec fn spec_split_list(x: Seq<char>, le: Seq<char>) -> Seq<Seq<char>>
    decreases x.len(),
    when le.len() >= 1
{
    if x.len() == 0 {
        Seq::empty()
    } else {
        let cut = first_occ(x, le, 0);
        let e = match cut {
            Some(i) => x.subrange(0, i),
            None => x,
        };
        let rest = match cut {
            Some(i) => x.skip(i + le.len()),
            None => Seq::<char>::empty(),
        };
        if e.len() == 0 {
            Seq::empty()
        } else {
            proof {
                lemma_first_occ(x, le, 0);
            }
            seq![e] + spec_split_list(rest, le)
        }
    }
}

/// What decoding one block at a given shape yields.
pub open spec fn spec_decode_value(x: Seq<char>, shape: Shape, le: Seq<char>) -> Result<
    ValueV,
    SpecDeError,
> {
    match shape {
        Shape::Scalar(sh) => match spec_decode_scalar(x, sh) {
            Ok(s) => Ok(ValueV::Scalar(s)),
            Err(e) => Err(e),
        },
        Shape::Optional(sh) => {
            if x.len() == 0 {
                Ok(ValueV::Optional(None))
            } else {
                match spec_decode_scalar(x, sh) {
                    Ok(s) => Ok(ValueV::Optional(Some(s))),
                    Err(e) => Err(e),
                }
            }
        },
        Shape::List => Ok(ValueV::List(spec_split_list(x, le))),
    }
}

/// Case-insensitive equality, by ASCII upper-casing.
pub open spec fn eq_ic(a: Seq<char>, b: Seq<char>) -> bool {
    upper(a) == upper(b)
}

/// The block of the first raw pair whose key matches `name`
/// case-insensitively.
pub open spec fn find_raw(pairs: Seq<(Seq<char>, Seq<char>)>, name: Seq<char>) -> Option<
    Seq<char>,
>
    decreases pairs.len(),
{
    if pairs.len() == 0 {
        None
    } else if eq_ic(pairs[0].0, name) {
        Some(pairs[0].1)
    } else {
        find_raw(pairs.drop_first(), name)
    }
}

/// Decode the raw pairs against a schema, in schema order.  A missing
/// optional reads as `None`, a missing list as empty, a missing scalar is
/// an error; unknown keys are ignored.
pub open spec fn spec_decode_fields(
    schema: Seq<SchemaFieldV>,
    pairs: Seq<(Seq<char>, Seq<char>)>,
    le: Seq<char>,
) -> Result<Seq<FieldV>, SpecDeError>
    decreases schema.len(),
{
    if schema.len() == 0 {
        Ok(Seq::empty())
    } else {
        let sf = schema[0];
        let head: Result<FieldV, SpecDeError> = match find_raw(pairs, sf.name) {
            None => match sf.shape {
                Shape::Scalar(_) => Err(SpecDeError::Custom),
                Shape::Optional(_) => Ok(
                    FieldV { name: sf.name, value: ValueV::Optional(None) },
                ),
                Shape::List => Ok(FieldV { name: sf.name, value: ValueV::List(Seq::empty()) }),
            },
            Some(x) => match spec_decode_value(x, sf.shape, le) {
                Ok(v) => Ok(FieldV { name: sf.name, value: v }),
                Err(e) => Err(e),
            },
        };
        match head {
            Err(e) => Err(e),
            Ok(f) => match spec_decode_fields(schema.drop_first(), pairs, le) {
                Err(e) => Err(e),
                Ok(t) => Ok(seq![f] + t),
            },
        }
    }
}

/// No two expected names may collide case-insensitively.
pub open spec fn wf_schema(schema: Seq<SchemaFieldV>) -> bool {
    forall|i: int, j: int|
        0 <= i < j < schema.len() ==> !eq_ic(
            (#[trigger] schema[i]).name,
            (#[trigger] schema[j]).name,
        )
}

/// The whole reading pipeline: schema check, raw split, typed decode.
pub open spec fn spec_from_str(s: Seq<char>, schema: Seq<SchemaFieldV>, le: Seq<char>) -> Result<
    Seq<FieldV>,
    SpecDeError,
> {
    if !wf_schema(schema) {
        Err(SpecDeError::Unsupported)
    } else {
        match spec_read(s, le) {
            None => Err(SpecDeError::ExpectedKey),
            Some(pairs) => spec_decode_fields(schema, pairs, le),
        }
    }
}


/// Exec check whether `p` occurs in `s` at `at`.
fn has_prefix_at(s: &str, p: &str, at: usize) -> (r: bool)
    ensures
        r == occurs_at(s@, p@, at as int),
{
    let n = s.unicode_len();
    let m = p.unicode_len();
    if at > n || m > n - at {
        return false;
    }
    let mut k: usize = 0;
    while k < m
        invariant
            n == s@.len(),
            m == p@.len(),
            at + m <= n,
            k <= m,
            forall|j: int| 0 <= j < k ==> s@[at + j] == p@[j],
        decreases m - k,
    {
        if s.get_char(at + k) != p.get_char(k) {
            proof {
                if occurs_at(s@, p@, at as int) {
                    assert(s@.subrange(at as int, at + m)[k as int] == p@[k as int]);
                }
            }
            return false;
        }
        k += 1;
    }
    proof {
        assert(s@.subrange(at as int, at + m) =~= p@);
    }
    true
}

/// Exec search for the first occurrence of `p` at or after `from`.
fn find_from(s: &str, p: &str, from: usize) -> (r: Option<usize>)
    requires
        p@.len() >= 1,
    ensures
        match r {
            Some(i) => first_occ(s@, p@, from as int) == Some(i as int) && from <= i && i
                + p@.len() <= s@.len(),
            None => first_occ(s@, p@, from as int) is None,
        },
{
    let n = s.unicode_len();
    let m = p.unicode_len();
    if m > n {
        proof {
            lemma_first_occ_is(s@, p@, from as int, None);
        }
        return None;
    }
    let mut j = from;
    while j <= n - m
        invariant
            n == s@.len(),
            m == p@.len(),
            1 <= m <= n,
            from <= j,
            forall|t: int| from <= t < j ==> !occurs_at(s@, p@, t),
        ensures
            from <= j,
            forall|t: int| from <= t < j ==> !occurs_at(s@, p@, t),
            j <= n - m ==> occurs_at(s@, p@, j as int),
        decreases n - j,
    {
        if has_prefix_at(s, p, j) {
            break;
        }
        j += 1;
    }
    if j <= n - m {
        proof {
            lemma_first_occ_is(s@, p@, from as int, Some(j as int));
        }
        Some(j)
    } else {
        proof {
            assert forall|t: int| from <= t implies !occurs_at(s@, p@, t) by {
                if t + p@.len() <= s@.len() {
                    assert(t < j);
                }
            }
            lemma_first_occ_is(s@, p@, from as int, None);
        }
        None
    }
}

/// Exec check that the whole string is ASCII whitespace.
fn all_ws(s: &str) -> (r: bool)
    ensures
        r == is_all_ws(s@),
{
    let n = s.unicode_len();
    let mut k: usize = 0;
    while k < n
        invariant
            n == s@.len(),
            k <= n,
            forall|j: int| 0 <= j < k ==> is_ws(#[trigger] s@[j]),
        decreases n - k,
    {
        let c = s.get_char(k);
        if !(c == ' ' || c == '\t' || c == '\n' || c == '\r') {
            return false;
        }
        k += 1;
    }
    true
}

/// Exec ASCII upper-casing of one character.
fn upper_char_exec(c: char) -> (r: char)
    ensures
        r == crate::alpm_desc::ser::upper_char(c),
{
    if c >= 'a' && c <= 'z' {
        (((c as u8) - 32) as u8) as char
    } else {
        c
    }
}

/// Case-insensitive string equality, by ASCII upper-casing.
pub fn eq_ignore_case(a: &str, b: &str) -> (r: bool)
    ensures
        r == eq_ic(a@, b@),
{
    let n = a.unicode_len();
    if n != b.unicode_len() {
        proof {
            assert(upper(a@).len() != upper(b@).len());
        }
        return false;
    }
    let mut k: usize = 0;
    while k < n
        invariant
            n == a@.len() == b@.len(),
            k <= n,
            forall|j: int| 0 <= j < k ==> upper(a@)[j] == upper(b@)[j],
        decreases n - k,
    {
        let ca = upper_char_exec(a.get_char(k));
        let cb = upper_char_exec(b.get_char(k));
        proof {
            assert(upper(a@)[k as int] == crate::alpm_desc::ser::upper_char(a@[k as int]));
            assert(upper(b@)[k as int] == crate::alpm_desc::ser::upper_char(b@[k as int]));
        }
        if ca != cb {
            proof {
                if eq_ic(a@, b@) {
                    assert(upper(a@)[k as int] == upper(b@)[k as int]);
                }
            }
            return false;
        }
        k += 1;
    }
    proof {
        assert(upper(a@) =~= upper(b@));
    }
    true
}

/// Every digit string denotes something non-negative.
proof fn lemma_dec_val_nonneg(s: Seq<char>)
    requires
        forall|i: int| 0 <= i < s.len() ==> is_dec_digit(#[trigger] s[i]),
    ensures
        dec_val(s) >= 0,
    decreases s.len(),
{
    if s.len() > 0 {
        lemma_dec_val_nonneg(s.drop_last());
    }
}

/// A digit string denotes at least what any of its prefixes denotes.
proof fn lemma_dec_val_mono(s: Seq<char>, k: int)
    requires
        forall|i: int| 0 <= i < s.len() ==> is_dec_digit(#[trigger] s[i]),
        0 <= k <= s.len(),
    ensures
        dec_val(s) >= dec_val(s.take(k)),
    decreases s.len() - k,
{
    if k == s.len() {
        assert(s.take(k) =~= s);
    } else {
        lemma_dec_val_mono(s, k + 1);
        assert(s.take(k + 1).drop_last() =~= s.take(k));
        lemma_dec_val_nonneg(s.take(k));
    }
}

/// Parse the decimal suffix of `input` starting at `start` into a `u64`.
fn parse_dec(input: &str, start: usize) -> (r: Result<u64, ()>)
    requires
        start <= input@.len(),
    ensures
        r is Ok <==> (is_dec(input@.skip(start as int)) && dec_val(input@.skip(start as int))
            <= u64::MAX),
        r is Ok ==> r->Ok_0 == dec_val(input@.skip(start as int)),
{
    let ghost body = input@.skip(start as int);
    let n = input.unicode_len();
    if n == start {
        return Err(());
    }
    let mut v: u64 = 0;
    let mut k = start;
    proof {
        assert(body.take(0) =~= Seq::<char>::empty());
    }
    while k < n
        invariant
            n == input@.len(),
            start <= k <= n,
            start < n,
            body == input@.skip(start as int),
            forall|j: int| 0 <= j < k - start ==> is_dec_digit(#[trigger] body[j]),
            v == dec_val(body.take(k - start)),
        decreases n - k,
    {
        let c = input.get_char(k);
        proof {
            assert(body[k - start] == input@[k as int]);
        }
        if !(c >= '0' && c <= '9') {
            proof {
                assert(!is_dec(body));
            }
            return Err(());
        }
        let d = ((c as u8) - 48) as u64;
        if v > 1844674407370955161 || (v == 1844674407370955161 && d > 5) {
            // the running value already exceeds what a u64 can hold
            proof {
                assert(body.take(k - start + 1).drop_last() =~= body.take(k - start));
                assert(dec_val(body.take(k - start + 1)) == v * 10 + d);
                if is_dec(body) {
                    lemma_dec_val_mono(body, k - start + 1);
                }
            }
            return Err(());
        }
        v = v * 10 + d;
        proof {
            assert(body.take(k - start + 1).drop_last() =~= body.take(k - start));
            assert(body.take(k - start + 1).last() == body[k - start]);
        }
        k += 1;
    }
    proof {
        assert(body.take(n - start) =~= body);
        assert(is_dec(body));
    }
    Ok(v)
}

/// Parse a bool: the input must be exactly `true` or `false`.
pub fn parse_bool(input: &str) -> (r: Result<bool, Error>)
    ensures
        match spec_decode_scalar(input@, ScalarShape::Bool) {
            Ok(s) => r is Ok && s == ScalarV::Bool(r->Ok_0),
            Err(e) => r is Err && r->Err_0@ == e,
        },
{
    proof {
        reveal_strlit("true");
        reveal_strlit("false");
        assert("true"@ =~= seq!['t', 'r', 'u', 'e']);
        assert("false"@ =~= seq!['f', 'a', 'l', 's', 'e']);
    }
    if crate::util::str_eq(input, "true") {
        Ok(true)
    } else if crate::util::str_eq(input, "false") {
        Ok(false)
    } else {
        Err(Error::from_kind(ErrorKind::ExpectedBool))
    }
}

/// Parse an unsigned integer: an optional `+`, then decimal digits.
pub fn parse_unsigned(input: &str) -> (r: Result<u64, Error>)
    ensures
        match spec_decode_scalar(input@, ScalarShape::Unsigned) {
            Ok(s) => r is Ok && s == ScalarV::Unsigned(r->Ok_0),
            Err(e) => r is Err && r->Err_0@ == e,
        },
{
    let n = input.unicode_len();
    let start: usize = if n > 0 && input.get_char(0) == '+' {
        1
    } else {
        0
    };
    proof {
        if start == 1 {
            assert(strip_plus(input@) =~= input@.skip(1));
        } else {
            assert(strip_plus(input@) =~= input@.skip(0));
        }
    }
    match parse_dec(input, start) {
        Ok(v) => Ok(v),
        Err(_) => Err(Error::from_kind(ErrorKind::ExpectedUnsigned)),
    }
}

/// Parse a signed integer: an optional sign, then decimal digits.
pub fn parse_signed(input: &str) -> (r: Result<i64, Error>)
    ensures
        match spec_decode_scalar(input@, ScalarShape::Signed) {
            Ok(s) => r is Ok && s == ScalarV::Signed(r->Ok_0),
            Err(e) => r is Err && r->Err_0@ == e,
        },
{
    let n = input.unicode_len();
    if n > 0 && input.get_char(0) == '-' {
        proof {
            assert(input@.drop_first() =~= input@.skip(1));
        }
        match parse_dec(input, 1) {
            Ok(m) => {
                if m > 9223372036854775808u64 {
                    Err(Error::from_kind(ErrorKind::ExpectedSigned))
                } else if m == 9223372036854775808u64 {
                    Ok(i64::MIN)
                } else {
                    Ok(-(m as i64))
                }
            },
            Err(_) => Err(Error::from_kind(ErrorKind::ExpectedSigned)),
        }
    } else {
        let start: usize = if n > 0 && input.get_char(0) == '+' {
            1
        } else {
            0
        };
        proof {
            if start == 1 {
                assert(strip_plus(input@) =~= input@.skip(1));
            } else {
                assert(strip_plus(input@) =~= input@.skip(0));
            }
        }
        match parse_dec(input, start) {
            Ok(m) => {
                if m > i64::MAX as u64 {
                    Err(Error::from_kind(ErrorKind::ExpectedSigned))
                } else {
                    Ok(m as i64)
                }
            },
            Err(_) => Err(Error::from_kind(ErrorKind::ExpectedSigned)),
        }
    }
}

/// The value of one hex digit, or `-1`.
pub open spec fn hex_val(b: u8) -> int {
    if 48 <= b && b <= 57 {
        b - 48
    } else if 97 <= b && b <= 102 {
        b - 87
    } else if 65 <= b && b <= 70 {
        b - 55
    } else {
        -1
    }
}

/// What `parse_byte` yields: the byte two hex digits denote.
pub open spec fn spec_parse_byte(s: Seq<u8>) -> Option<u8> {
    if s.len() == 2 && hex_val(s[0]) >= 0 && hex_val(s[1]) >= 0 {
        Some((hex_val(s[0]) * 16 + hex_val(s[1])) as u8)
    } else {
        None
    }
}

/// Decode exactly two hex digits into one byte.
pub fn parse_byte(input: &[u8]) -> (r: Option<u8>)
    ensures
        r == spec_parse_byte(input@),
{
    if input.len() != 2 {
        return None;
    }
    let hi = *vstd::slice::slice_index_get(input, 0);
    let lo = *vstd::slice::slice_index_get(input, 1);
    let h: u8 = if hi >= 48 && hi <= 57 {
        hi - 48
    } else if hi >= 97 && hi <= 102 {
        hi - 87
    } else if hi >= 65 && hi <= 70 {
        hi - 55
    } else {
        return None;
    };
    let l: u8 = if lo >= 48 && lo <= 57 {
        lo - 48
    } else if lo >= 97 && lo <= 102 {
        lo - 87
    } else if lo >= 65 && lo <= 70 {
        lo - 55
    } else {
        return None;
    };
    Some(h * 16 + l)
}


/// Parse a `%KEY%` line: returns the rest of the input and the key name.
pub fn parse_key(input: &str, line_ending: &str) -> (r: Result<(String, String), Error>)
    ensures
        match spec_parse_key(input@, line_ending@) {
            Some(kr) => r is Ok && (r->Ok_0).0@ == kr.1 && (r->Ok_0).1@ == kr.0,
            None => r is Err && r->Err_0@ == SpecDeError::ExpectedKey,
        },
{
    proof {
        reveal_strlit("%");
        assert("%"@ =~= seq!['%']);
    }
    let n = input.unicode_len();
    if n == 0 || input.get_char(0) != '%' {
        return Err(Error::from_kind(ErrorKind::ExpectedKey));
    }
    match find_from(input, "%", 1) {
        None => Err(Error::from_kind(ErrorKind::ExpectedKey)),
        Some(i) => {
            if i == 1 {
                return Err(Error::from_kind(ErrorKind::ExpectedKey));
            }
            if !has_prefix_at(input, line_ending, i + 1) {
                return Err(Error::from_kind(ErrorKind::ExpectedKey));
            }
            let le_len = line_ending.unicode_len();
            let name = input.substring_char(1, i).to_owned();
            let rest = input.substring_char(i + 1 + le_len, n).to_owned();
            proof {
                assert(input@.skip(i + 1 + le_len) =~= input@.subrange(
                    i + 1 + le_len,
                    input@.len() as int,
                ));
            }
            Ok((rest, name))
        },
    }
}

/// One list element: the text before the first line ending (or all of the
/// input), and whatever follows it.
pub fn parse_seq_element(input: &str, line_ending: &str) -> (r: (String, String))
    requires
        line_ending@.len() >= 1,
    ensures
        match first_occ(input@, line_ending@, 0) {
            Some(i) => r.0@ == input@.subrange(0, i) && r.1@ == input@.skip(
                i + line_ending@.len(),
            ),
            None => r.0@ == input@ && r.1@ =~= Seq::<char>::empty(),
        },
{
    let n = input.unicode_len();
    match find_from(input, line_ending, 0) {
        Some(i) => {
            let le_len = line_ending.unicode_len();
            let e = input.substring_char(0, i).to_owned();
            let rest = input.substring_char(i + le_len, n).to_owned();
            proof {
                assert(input@.skip(i + le_len) =~= input@.subrange(
                    i + le_len,
                    input@.len() as int,
                ));
            }
            (e, rest)
        },
        None => (input.to_owned(), String::new()),
    }
}

/// Split a list block into its elements, stopping at an empty element.
pub fn split_list(block: &str, line_ending: &str) -> (r: Vec<String>)
    requires
        line_ending@.len() >= 1,
    ensures
        r@.map_values(|e: String| e@) == spec_split_list(block@, line_ending@),
{
    let mut out: Vec<String> = Vec::new();
    let mut rest: String = block.to_owned();
    proof {
        assert(out@.map_values(|e: String| e@) =~= Seq::<Seq<char>>::empty());
    }
    loop
        invariant
            line_ending@.len() >= 1,
            spec_split_list(block@, line_ending@) =~= out@.map_values(|e: String| e@)
                + spec_split_list(rest@, line_ending@),
        decreases rest@.len(),
    {
        if rest.as_str().is_empty() {
            proof {
                assert(out@.map_values(|e: String| e@) + spec_split_list(rest@, line_ending@)
                    =~= out@.map_values(|e: String| e@));
            }
            return out;
        }
        let ghost cur = rest@;
        let (e, rest2) = parse_seq_element(rest.as_str(), line_ending);
        if e.as_str().is_empty() {
            proof {
                assert(spec_split_list(cur, line_ending@) =~= Seq::<Seq<char>>::empty());
                assert(out@.map_values(|f: String| f@) + spec_split_list(cur, line_ending@)
                    =~= out@.map_values(|f: String| f@));
            }
            return out;
        }
        proof {
            lemma_first_occ(cur, line_ending@, 0);
            assert(spec_split_list(cur, line_ending@) =~= seq![e@] + spec_split_list(
                rest2@,
                line_ending@,
            ));
            assert(out@.push(e).map_values(|f: String| f@) =~= out@.map_values(|f: String| f@)
                + seq![e@]);
        }
        out.push(e);
        rest = rest2;
    }
}

/// A deserializer for the description format: it holds the input still to
/// be read and the line ending in use.
pub struct Deserializer {
    input: String,
    line_ending: String,
    double_line_ending: String,
}

/// The raw pairs a vector of owned strings stands for.
pub open spec fn view_pairs(v: Seq<(String, String)>) -> Seq<(Seq<char>, Seq<char>)> {
    v.map_values(|p: (String, String)| (p.0@, p.1@))
}

impl Deserializer {
    /// The input still to be read.
    pub closed spec fn spec_input(&self) -> Seq<char> {
        self.input@
    }

    /// The line ending in use.
    pub closed spec fn spec_le(&self) -> Seq<char> {
        self.line_ending@
    }

    /// The doubled line ending really is the line ending twice.
    pub closed spec fn wf(&self) -> bool {
        self.line_ending@.len() >= 1 && self.double_line_ending@ == self.line_ending@
            + self.line_ending@
    }

    /// Create a deserializer reading with the POSIX line ending.
    pub fn from_str(input: &str) -> (d: Deserializer)
        ensures
            d.wf(),
            d.spec_input() == input@,
            d.spec_le() == nl(),
    {
        let d = Deserializer {
            input: input.to_owned(),
            line_ending: String::from_str("\n"),
            double_line_ending: String::from_str("\n\n"),
        };
        proof {
            reveal_strlit("\n");
            reveal_strlit("\n\n");
            assert(d.line_ending@ =~= nl());
            assert(d.double_line_ending@ =~= nl() + nl());
        }
        d
    }

    /// Like `from_str`, but with a custom line ending.
    pub fn from_str_line_ending(input: &str, line_ending: &str, double_line_ending: &str) -> (d:
        Deserializer)
        requires
            line_ending@.len() >= 1,
            double_line_ending@ == line_ending@ + line_ending@,
        ensures
            d.wf(),
            d.spec_input() == input@,
            d.spec_le() == line_ending@,
    {
        Deserializer {
            input: input.to_owned(),
            line_ending: line_ending.to_owned(),
            double_line_ending: double_line_ending.to_owned(),
        }
    }

    /// Returns the next key, and consumes it.
    pub fn parse_key(&mut self) -> (r: Result<String, Error>)
        requires
            old(self).wf(),
        ensures
            final(self).wf(),
            final(self).spec_le() == old(self).spec_le(),
            match spec_parse_key(old(self).spec_input(), old(self).spec_le()) {
                Some(kr) => r is Ok && r->Ok_0@ == kr.0 && final(self).spec_input() == kr.1,
                None => r is Err && r->Err_0@ == SpecDeError::ExpectedKey
                    && final(self).spec_input() == old(self).spec_input(),
            },
    {
        let res = parse_key(self.input.as_str(), self.line_ending.as_str());
        match res {
            Ok((rest, name)) => {
                self.input = rest;
                Ok(name)
            },
            Err(e) => Err(e),
        }
    }

    /// Split the input at the next doubled line ending: everything before
    /// it, and what follows it when it was found.
    pub fn split_next_double_newline(&self) -> (r: (String, Option<String>))
        requires
            self.wf(),
        ensures
            match first_occ(self.spec_input(), self.spec_le() + self.spec_le(), 0) {
                Some(i) => r.0@ == self.spec_input().subrange(0, i) && r.1 is Some && (r.1)->0@
                    == self.spec_input().skip(i + 2 * self.spec_le().len()),
                None => r.0@ == self.spec_input() && r.1 is None,
            },
    {
        let n = self.input.as_str().unicode_len();
        match find_from(self.input.as_str(), self.double_line_ending.as_str(), 0) {
            Some(i) => {
                let dlen = self.double_line_ending.as_str().unicode_len();
                let chunk = self.input.as_str().substring_char(0, i).to_owned();
                let rest = self.input.as_str().substring_char(i + dlen, n).to_owned();
                proof {
                    assert(self.spec_input().skip(i + 2 * self.spec_le().len())
                        =~= self.spec_input().subrange(i + dlen, self.spec_input().len() as int));
                }
                (chunk, Some(rest))
            },
            None => (self.input.as_str().to_owned(), None),
        }
    }

    /// Returns the next value block, consuming it and its delimiter.
    pub fn parse_value(&mut self) -> (r: Result<String, Error>)
        requires
            old(self).wf(),
        ensures
            final(self).wf(),
            final(self).spec_le() == old(self).spec_le(),
            r is Ok,
            r->Ok_0@ == spec_parse_value(old(self).spec_input(), old(self).spec_le()).0,
            final(self).spec_input() == spec_parse_value(
                old(self).spec_input(),
                old(self).spec_le(),
            ).1,
    {
        if has_prefix_at(self.input.as_str(), self.line_ending.as_str(), 0) {
            let n = self.input.as_str().unicode_len();
            let le_len = self.line_ending.as_str().unicode_len();
            let rest = self.input.as_str().substring_char(le_len, n).to_owned();
            proof {
                assert(old(self).spec_input().skip(le_len as int)
                    =~= old(self).spec_input().subrange(
                    le_len as int,
                    old(self).spec_input().len() as int,
                ));
            }
            self.input = rest;
            Ok(String::new())
        } else {
            let (chunk, rest) = self.split_next_double_newline();
            match rest {
                Some(rest) => {
                    self.input = rest;
                    Ok(chunk)
                },
                None => {
                    self.input = String::new();
                    Ok(chunk)
                },
            }
        }
    }

    /// Read all raw `(key, value)` pairs, in file order, until only
    /// whitespace is left.
    pub fn read_records(&mut self) -> (r: Result<Vec<(String, String)>, Error>)
        requires
            old(self).wf(),
        ensures
            final(self).wf(),
            match spec_read(old(self).spec_input(), old(self).spec_le()) {
                Some(pairs) => r is Ok && view_pairs(r->Ok_0@) == pairs,
                None => r is Err && r->Err_0@ == SpecDeError::ExpectedKey,
            },
    {
        let ghost orig = self.spec_input();
        let ghost le = self.spec_le();
        let mut out: Vec<(String, String)> = Vec::new();
        proof {
            assert(view_pairs(out@) =~= Seq::<(Seq<char>, Seq<char>)>::empty());
        }
        loop
            invariant
                self.wf(),
                orig == old(self).spec_input(),
                le == old(self).spec_le(),
                self.spec_le() == le,
                spec_read(orig, le) == (match spec_read(self.spec_input(), le) {
                    None => None::<Seq<(Seq<char>, Seq<char>)>>,
                    Some(t) => Some(view_pairs(out@) + t),
                }),
            decreases self.spec_input().len(),
        {
            let ghost cur = self.spec_input();
            if all_ws(self.input.as_str()) {
                proof {
                    assert(spec_read(cur, le) == Some(Seq::<(Seq<char>, Seq<char>)>::empty()));
                    assert(view_pairs(out@) + Seq::<(Seq<char>, Seq<char>)>::empty()
                        =~= view_pairs(out@));
                }
                return Ok(out);
            }
            let k = match self.parse_key() {
                Ok(k) => k,
                Err(e) => {
                    proof {
                        assert(spec_read(cur, le) is None);
                    }
                    return Err(e);
                },
            };
            let ghost after_key = self.spec_input();
            let v = match self.parse_value() {
                Ok(v) => v,
                Err(e) => {
                    return Err(e);
                },
            };
            proof {
                lemma_parse_key_shrinks(cur, le);
                lemma_parse_value_no_grow(after_key, le);
                let kr = spec_parse_key(cur, le)->0;
                let pv = spec_parse_value(after_key, le);
                assert(spec_read(cur, le) == (match spec_read(pv.1, le) {
                    None => None::<Seq<(Seq<char>, Seq<char>)>>,
                    Some(t) => Some(seq![(kr.0, pv.0)] + t),
                }));
                assert(view_pairs(out@.push((k, v))) =~= view_pairs(out@) + seq![(k@, v@)]);
                if spec_read(self.spec_input(), le) is Some {
                    let t = spec_read(self.spec_input(), le)->0;
                    assert(view_pairs(out@) + (seq![(kr.0, pv.0)] + t) =~= (view_pairs(out@)
                        + seq![(k@, v@)]) + t);
                }
            }
            out.push((k, v));
        }
    }
}


/// The schema entries a schema vector stands for.
pub open spec fn view_schema(v: Seq<SchemaField>) -> Seq<SchemaFieldV> {
    v.map_values(|sf: SchemaField| sf@)
}

/// The fields a field vector stands for.
pub open spec fn view_fields(v: Seq<Field>) -> Seq<FieldV> {
    v.map_values(|f: Field| f@)
}

/// Decode one scalar block at the expected shape.
fn decode_scalar(x: &str, sh: ScalarShape) -> (r: Result<Scalar, Error>)
    ensures
        match spec_decode_scalar(x@, sh) {
            Ok(s) => r is Ok && r->Ok_0@ == s,
            Err(e) => r is Err && r->Err_0@ == e,
        },
{
    match sh {
        ScalarShape::Bool => match parse_bool(x) {
            Ok(b) => Ok(Scalar::Bool(b)),
            Err(e) => Err(e),
        },
        ScalarShape::Unsigned => match parse_unsigned(x) {
            Ok(v) => Ok(Scalar::Unsigned(v)),
            Err(e) => Err(e),
        },
        ScalarShape::Signed => match parse_signed(x) {
            Ok(v) => Ok(Scalar::Signed(v)),
            Err(e) => Err(e),
        },
        ScalarShape::Text => Ok(Scalar::Text(x.to_owned())),
    }
}

/// Decode one value block at the expected shape.
fn decode_value(x: &str, shape: Shape, le: &str) -> (r: Result<Value, Error>)
    requires
        le@.len() >= 1,
    ensures
        match spec_decode_value(x@, shape, le@) {
            Ok(v) => r is Ok && r->Ok_0@ == v,
            Err(e) => r is Err && r->Err_0@ == e,
        },
{
    match shape {
        Shape::Scalar(sh) => match decode_scalar(x, sh) {
            Ok(s) => Ok(Value::Scalar(s)),
            Err(e) => Err(e),
        },
        Shape::Optional(sh) => {
            if x.is_empty() {
                Ok(Value::Optional(None))
            } else {
                match decode_scalar(x, sh) {
                    Ok(s) => Ok(Value::Optional(Some(s))),
                    Err(e) => Err(e),
                }
            }
        },
        Shape::List => {
            let es = split_list(x, le);
            Ok(Value::List(es))
        },
    }
}

/// The first raw block whose key matches `name` case-insensitively.
fn find_raw_exec(pairs: &Vec<(String, String)>, name: &str) -> (r: Option<String>)
    ensures
        match find_raw(view_pairs(pairs@), name@) {
            Some(x) => r is Some && r->0@ == x,
            None => r is None,
        },
{
    let ghost vp = view_pairs(pairs@);
    let mut k: usize = 0;
    proof {
        assert(vp.skip(0) =~= vp);
    }
    while k < pairs.len()
        invariant
            k <= pairs@.len(),
            vp == view_pairs(pairs@),
            find_raw(vp, name@) == find_raw(vp.skip(k as int), name@),
        decreases pairs@.len() - k,
    {
        let ghost tail = vp.skip(k as int);
        proof {
            assert(tail[0] == (pairs@[k as int].0@, pairs@[k as int].1@));
        }
        if eq_ignore_case(pairs[k].0.as_str(), name) {
            return Some(pairs[k].1.clone());
        }
        proof {
            assert(tail.drop_first() =~= vp.skip(k + 1));
        }
        k += 1;
    }
    proof {
        assert(vp.skip(pairs@.len() as int) =~= Seq::<(Seq<char>, Seq<char>)>::empty());
    }
    None
}

/// Does the schema hold two names that differ only by case?
fn schema_has_collision(schema: &Vec<SchemaField>) -> (r: bool)
    ensures
        r == !wf_schema(view_schema(schema@)),
{
    let ghost sv = view_schema(schema@);
    let n = schema.len();
    let mut i: usize = 0;
    while i < n
        invariant
            n == schema@.len(),
            sv == view_schema(schema@),
            i <= n,
            forall|a: int, b: int|
                0 <= a < b < n && a < i ==> !eq_ic((#[trigger] sv[a]).name, (#[trigger] sv[b]).name),
        decreases n - i,
    {
        let mut j = i + 1;
        while j < n
            invariant
                n == schema@.len(),
                sv == view_schema(schema@),
                i < j <= n,
                forall|b: int| i < b < j ==> !eq_ic(sv[i as int].name, (#[trigger] sv[b]).name),
            decreases n - j,
        {
            if eq_ignore_case(schema[i].name.as_str(), schema[j].name.as_str()) {
                proof {
                    assert(eq_ic(sv[i as int].name, sv[j as int].name));
                }
                return true;
            }
            j += 1;
        }
        i += 1;
    }
    false
}

/// Decode raw pairs against a schema, in schema order.
fn decode_fields(schema: &Vec<SchemaField>, pairs: &Vec<(String, String)>, le: &str) -> (r:
    Result<Vec<Field>, Error>)
    requires
        le@.len() >= 1,
    ensures
        match spec_decode_fields(view_schema(schema@), view_pairs(pairs@), le@) {
            Ok(fs) => r is Ok && view_fields(r->Ok_0@) == fs,
            Err(e) => r is Err && r->Err_0@ == e,
        },
{
    let ghost sv = view_schema(schema@);
    let ghost pv = view_pairs(pairs@);
    let mut out: Vec<Field> = Vec::new();
    let mut k: usize = 0;
    proof {
        assert(sv.skip(0) =~= sv);
        assert(view_fields(out@) =~= Seq::<FieldV>::empty());
    }
    while k < schema.len()
        invariant
            k <= schema@.len(),
            le@.len() >= 1,
            sv == view_schema(schema@),
            pv == view_pairs(pairs@),
            spec_decode_fields(sv, pv, le@) == (match spec_decode_fields(
                sv.skip(k as int),
                pv,
                le@,
            ) {
                Ok(t) => Ok::<Seq<FieldV>, SpecDeError>(view_fields(out@) + t),
                Err(e) => Err(e),
            }),
        decreases schema@.len() - k,
    {
        let ghost tail = sv.skip(k as int);
        proof {
            assert(tail[0] == schema@[k as int]@);
            assert(tail.drop_first() =~= sv.skip(k + 1));
        }
        let sf = &schema[k];
        let field: Field;
        match find_raw_exec(pairs, sf.name.as_str()) {
            None => {
                match sf.shape {
                    Shape::Scalar(_) => {
                        return Err(
                            Error::from_kind(
                                ErrorKind::Custom(String::from_str("missing field")),
                            ),
                        );
                    },
                    Shape::Optional(_) => {
                        field = Field { name: sf.name.clone(), value: Value::Optional(None) };
                    },
                    Shape::List => {
                        let empty: Vec<String> = Vec::new();
                        field = Field { name: sf.name.clone(), value: Value::List(empty) };
                        proof {
                            assert(field@.value->List_0 =~= Seq::<Seq<char>>::empty());
                        }
                    },
                }
            },
            Some(x) => {
                match decode_value(x.as_str(), sf.shape, le) {
                    Ok(v) => {
                        field = Field { name: sf.name.clone(), value: v };
                    },
                    Err(e) => {
                        return Err(e);
                    },
                }
            },
        }
        proof {
            assert(view_fields(out@.push(field)) =~= view_fields(out@) + seq![field@]);
            if spec_decode_fields(sv.skip(k + 1), pv, le@) is Ok {
                let t = spec_decode_fields(sv.skip(k + 1), pv, le@)->Ok_0;
                assert(view_fields(out@) + (seq![field@] + t) =~= (view_fields(out@) + seq![
                    field@,
                ]) + t);
            }
        }
        out.push(field);
        k += 1;
    }
    proof {
        assert(sv.skip(schema@.len() as int) =~= Seq::<SchemaFieldV>::empty());
        assert(view_fields(out@) + Seq::<FieldV>::empty() =~= view_fields(out@));
    }
    Ok(out)
}

/// Read a record out of description-format text, against the field set the
/// caller expects, with the POSIX line ending.
pub fn from_str(s: &str, schema: &Vec<SchemaField>) -> (r: Result<Record, Error>)
    ensures
        match spec_from_str(s@, view_schema(schema@), nl()) {
            Ok(fs) => r is Ok && r->Ok_0@ == fs,
            Err(e) => r is Err && r->Err_0@ == e,
        },
{
    if schema_has_collision(schema) {
        return Err(Error::from_kind(ErrorKind::Unsupported("same case")));
    }
    let mut d = Deserializer::from_str(s);
    let pairs = match d.read_records() {
        Ok(p) => p,
        Err(e) => {
            return Err(e);
        },
    };
    proof {
        reveal_strlit("\n");
        assert("\n"@ =~= nl());
    }
    match decode_fields(schema, &pairs, "\n") {
        Ok(fields) => Ok(Record { fields }),
        Err(e) => Err(e),
    }
}

} // verus!
