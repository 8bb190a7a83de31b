//! Serializer for the description format.
//!
//! A record is written as a sequence of `%KEY%` lines, each followed by its
//! value block and a blank line.  Keys are upper-cased on the way out.

use vstd::prelude::*;
use vstd::string::StringExecFns;
use crate::alpm_desc::record::{Record, Scalar, ScalarV, Value, ValueV, FieldV};
pub use crate::alpm_desc::ser_error::{Error, ErrorKind};

verus! {

/// The decimal digit character for `d % 10`.
pub open spec fn dec_digit(d: u64) -> char {
    ((48 + (d % 10)) as u8) as char
}

/// The decimal text of an unsigned number.
pub open spec fn ser_unsigned(v: u64) -> Seq<char>
    decreases v,
{
    if v < 10 {
        seq![dec_digit(v)]
    } else {
        ser_unsigned(v / 10).push(dec_digit(v))
    }
}

/// The magnitude of a negative number.
pub open spec fn neg_mag(v: i64) -> u64 {
    (-(v as int)) as u64
}

/// The decimal text of a signed number.
pub open spec fn ser_signed(v: i64) -> Seq<char> {
    if v >= 0 {
        ser_unsigned(v as u64)
    } else {
        seq!['-'] + ser_unsigned(neg_mag(v))
    }
}

/// The text of one scalar.
pub open spec fn ser_scalar(s: ScalarV) -> Seq<char> {
    match s {
        ScalarV::Bool(b) => if b {
            seq!['t', 'r', 'u', 'e']
        } else {
            seq!['f', 'a', 'l', 's', 'e']
        },
        ScalarV::Unsigned(v) => ser_unsigned(v),
        ScalarV::Signed(v) => ser_signed(v),
        ScalarV::Text(t) => t,
    }
}

/// The lines of a list: each element followed by one line ending.
pub open spec fn ser_list(es: Seq<Seq<char>>, le: Seq<char>) -> Seq<char>
    decreases es.len(),
{
    if es.len() == 0 {
        Seq::empty()
    } else {
        es[0] + le + ser_list(es.drop_first(), le)
    }
}

/// The value block of one field: empty for an absent optional or an empty
/// text, otherwise the value's lines.
pub open spec fn ser_value(v: ValueV, le: Seq<char>) -> Seq<char> {
    match v {
        ValueV::Scalar(s) => if ser_scalar(s).len() == 0 {
            Seq::empty()
        } else {
            ser_scalar(s) + le
        },
        ValueV::Optional(o) => match o {
            None => Seq::empty(),
            Some(s) => if ser_scalar(s).len() == 0 {
                Seq::empty()
            } else {
                ser_scalar(s) + le
            },
        },
        ValueV::List(es) => ser_list(es, le),
    }
}

/// ASCII upper-casing of one character.
pub open spec fn upper_char(c: char) -> char {
    if 'a' <= c && c <= 'z' {
        (((c as u8) - 32) as u8) as char
    } else {
        c
    }
}

/// ASCII upper-casing of a string.
pub open spec fn upper(s: Seq<char>) -> Seq<char> {
    s.map_values(|c: char| upper_char(c))
}

/// One whole field: `%KEY%`, a line ending, the value block, a blank line.
pub open spec fn ser_field(f: FieldV, le: Seq<char>) -> Seq<char> {
    seq!['%'] + upper(f.name) + seq!['%'] + le + ser_value(f.value, le) + le
}

/// A whole record: its fields one after the other.
pub open spec fn ser_record(fs: Seq<FieldV>, le: Seq<char>) -> Seq<char>
    decreases fs.len(),
{
    if fs.len() == 0 {
        Seq::empty()
    } else {
        ser_field(fs[0], le) + ser_record(fs.drop_first(), le)
    }
}

/// The default line ending.
pub open spec fn nl() -> Seq<char> {
    seq!['\n']
}

/// Relies on `String::push`: appends exactly the one character.
#[verifier::external_body]
fn push_char(s: &mut String, c: char)
    ensures
        final(s)@ == old(s)@.push(c),
{
    s.push(c);
}

/// Append the decimal digits of `v`.
fn push_unsigned(out: &mut String, v: u64)
    ensures
        final(out)@ == old(out)@ + ser_unsigned(v),
    decreases v,
{
    if v >= 10 {
        push_unsigned(out, v / 10);
    }
    push_char(out, (48 + (v % 10) as u8) as char);
    proof {
        if v < 10 {
            assert(old(out)@ + ser_unsigned(v) =~= old(out)@.push(dec_digit(v)));
        } else {
            assert(old(out)@ + ser_unsigned(v) =~= (old(out)@ + ser_unsigned(v / 10)).push(
                dec_digit(v),
            ));
        }
    }
}

/// Append the decimal digits of `v`, with a sign when negative.
fn push_signed(out: &mut String, v: i64)
    ensures
        final(out)@ == old(out)@ + ser_signed(v),
{
    if v >= 0 {
        push_unsigned(out, v as u64);
    } else {
        push_char(out, '-');
        let wide = v as i128;
        let mag = (-wide) as u64;
        push_unsigned(out, mag);
        proof {
            assert(old(out)@ + ser_signed(v) =~= old(out)@.push('-') + ser_unsigned(neg_mag(v)));
        }
    }
}

/// Append one scalar's text.
fn push_scalar(out: &mut String, s: &Scalar)
    ensures
        final(out)@ == old(out)@ + ser_scalar(s@),
{
    match s {
        Scalar::Bool(b) => {
            if *b {
                out.append("true");
                proof {
                    reveal_strlit("true");
                    assert(old(out)@ + ser_scalar(s@) =~= old(out)@ + "true"@);
                }
            } else {
                out.append("false");
                proof {
                    reveal_strlit("false");
                    assert(old(out)@ + ser_scalar(s@) =~= old(out)@ + "false"@);
                }
            }
        },
        Scalar::Unsigned(v) => {
            push_unsigned(out, *v);
        },
        Scalar::Signed(v) => {
            push_signed(out, *v);
        },
        Scalar::Text(t) => {
            out.append(t.as_str());
        },
    }
}

/// Append the upper-cased form of `name`.
fn push_upper(out: &mut String, name: &str)
    ensures
        final(out)@ == old(out)@ + upper(name@),
{
    let n = name.unicode_len();
    let mut k: usize = 0;
    proof {
        assert(old(out)@ + upper(name@).subrange(0, 0) =~= old(out)@);
    }
    while k < n
        invariant
            n == name@.len(),
            k <= n,
            out@ == old(out)@ + upper(name@).subrange(0, k as int),
        decreases n - k,
    {
        let c = name.get_char(k);
        let u: char;
        if c >= 'a' && c <= 'z' {
            u = (((c as u8) - 32) as u8) as char;
        } else {
            u = c;
        }
        proof {
            assert(u == upper_char(name@[k as int]));
            assert(upper(name@)[k as int] == upper_char(name@[k as int]));
        }
        push_char(out, u);
        proof {
            assert((old(out)@ + upper(name@).subrange(0, k as int)).push(u) =~= old(out)@ + upper(
                name@,
            ).subrange(0, k + 1));
        }
        k += 1;
    }
    proof {
        assert(upper(name@).subrange(0, name@.len() as int) =~= upper(name@));
    }
}

/// A serialized number is never empty.
pub proof fn lemma_ser_unsigned_len(v: u64)
    ensures
        ser_unsigned(v).len() >= 1,
    decreases v,
{
    if v >= 10 {
        lemma_ser_unsigned_len(v / 10);
    }
}

/// Only an empty text serializes to an empty scalar.
pub proof fn lemma_ser_scalar_empty(s: ScalarV)
    ensures
        ser_scalar(s).len() == 0 <==> (s is Text && s->Text_0.len() == 0),
{
    match s {
        ScalarV::Unsigned(v) => lemma_ser_unsigned_len(v),
        ScalarV::Signed(v) => {
            if v >= 0 {
                lemma_ser_unsigned_len(v as u64);
            } else {
                lemma_ser_unsigned_len(neg_mag(v));
            }
        },
        _ => {},
    }
}

/// Is this scalar's text empty?
fn scalar_is_empty(s: &Scalar) -> (r: bool)
    ensures
        r == (ser_scalar(s@).len() == 0),
{
    proof {
        lemma_ser_scalar_empty(s@);
    }
    match s {
        Scalar::Text(t) => t.as_str().is_empty(),
        _ => false,
    }
}

/// Append one value block.
fn push_value(out: &mut String, v: &Value, le: &str)
    ensures
        final(out)@ == old(out)@ + ser_value(v@, le@),
{
    match v {
        Value::Scalar(s) => {
            if !scalar_is_empty(s) {
                push_scalar(out, s);
                out.append(le);
            } else {
                proof {
                    assert(old(out)@ + ser_value(v@, le@) =~= old(out)@);
                }
            }
        },
        Value::Optional(o) => {
            match o {
                None => {
                    proof {
                        assert(old(out)@ + ser_value(v@, le@) =~= old(out)@);
                    }
                },
                Some(s) => {
                    if !scalar_is_empty(s) {
                        push_scalar(out, s);
                        out.append(le);
                    } else {
                        proof {
                            assert(old(out)@ + ser_value(v@, le@) =~= old(out)@);
                        }
                    }
                },
            }
        },
        Value::List(es) => {
            let ghost esv = es@.map_values(|e: String| e@);
            let mut k: usize = 0;
            proof {
                assert(esv.skip(0) =~= esv);
            }
            while k < es.len()
                invariant
                    k <= es@.len(),
                    esv == es@.map_values(|e: String| e@),
                    old(out)@ + ser_list(esv, le@) == out@ + ser_list(
                        esv.skip(k as int),
                        le@,
                    ),
                decreases es@.len() - k,
            {
                let ghost tail = esv.skip(k as int);
                proof {
                    assert(tail[0] == es@[k as int]@);
                }
                out.append(es[k].as_str());
                out.append(le);
                proof {
                    assert(tail.drop_first() =~= esv.skip(k + 1));
                    assert(out@ + ser_list(esv.skip(k + 1), le@) =~= old(out)@ + ser_list(
                        esv,
                        le@,
                    ));
                }
                k += 1;
            }
            proof {
                assert(esv.skip(es@.len() as int) =~= Seq::<Seq<char>>::empty());
                assert(out@ + ser_list(esv.skip(es@.len() as int), le@) =~= out@);
            }
        },
    }
}

/// The serializer for the description format: it accumulates the text of
/// the fields it is given.
#[derive(Debug)]
pub struct Serializer {
    out: String,
    line_ending: String,
}

impl Serializer {
    /// The text written so far.
    pub closed spec fn spec_out(&self) -> Seq<char> {
        self.out@
    }

    /// The line ending in use.
    pub closed spec fn spec_le(&self) -> Seq<char> {
        self.line_ending@
    }

    /// A serializer using the POSIX line ending.
    pub fn new() -> (s: Serializer)
        ensures
            s.spec_out() =~= Seq::<char>::empty(),
            s.spec_le() =~= nl(),
    {
        let s = Serializer { out: String::new(), line_ending: String::from_str("\n") };
        proof {
            reveal_strlit("\n");
            assert(s.line_ending@ =~= nl());
        }
        s
    }

    /// A serializer with a chosen line ending.
    pub fn with_line_ending(le: &str) -> (s: Serializer)
        ensures
            s.spec_out() =~= Seq::<char>::empty(),
            s.spec_le() == le@,
    {
        Serializer { out: String::new(), line_ending: String::from_str(le) }
    }

    /// Write one field: its upper-cased key line, its value block, and the
    /// blank line that closes the record.
    pub fn serialize_field(&mut self, name: &str, value: &Value)
        ensures
            final(self).spec_le() == old(self).spec_le(),
            final(self).spec_out() == old(self).spec_out() + ser_field(
                FieldV { name: name@, value: value@ },
                old(self).spec_le(),
            ),
    {
        let ghost le = self.line_ending@;
        let ghost fv = FieldV { name: name@, value: value@ };
        push_char(&mut self.out, '%');
        push_upper(&mut self.out, name);
        push_char(&mut self.out, '%');
        let le_copy = String::from_str(self.line_ending.as_str());
        self.out.append(le_copy.as_str());
        push_value(&mut self.out, value, le_copy.as_str());
        self.out.append(le_copy.as_str());
        proof {
            assert(self.out@ =~= old(self).out@ + (seq!['%'] + upper(name@) + seq!['%'] + le
                + ser_value(value@, le) + le));
        }
    }

    /// Hand back everything written so far.
    pub fn finish(self) -> (r: String)
        ensures
            r@ == self.spec_out(),
    {
        self.out
    }
}

/// Serialize a record to a string in the description format, using the
/// POSIX line ending.  Every record in the model is representable, so this
/// never fails.
pub fn to_string(record: &Record) -> (r: Result<String, Error>)
    ensures
        r is Ok,
        r->Ok_0@ == ser_record(record@, nl()),
{
    let mut s = Serializer::new();
    let ghost fields = record@;
    let mut k: usize = 0;
    proof {
        assert(fields.skip(0) =~= fields);
    }
    while k < record.fields.len()
        invariant
            k <= record.fields@.len(),
            fields == record@,
            s.spec_le() == nl(),
            ser_record(fields, nl()) == s.spec_out() + ser_record(fields.skip(k as int), nl()),
        decreases record.fields@.len() - k,
    {
        let ghost tail = fields.skip(k as int);
        proof {
            assert(tail[0] == record.fields@[k as int]@);
        }
        let f = &record.fields[k];
        s.serialize_field(f.name.as_str(), &f.value);
        proof {
            assert(tail.drop_first() =~= fields.skip(k + 1));
        }
        k += 1;
    }
    proof {
        assert(fields.skip(record.fields@.len() as int) =~= Seq::<FieldV>::empty());
    }
    Ok(s.finish())
}

} // verus!
