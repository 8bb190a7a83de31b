//! The codec round-trip law: a well-formed record written by the serializer
//! is read back unchanged by the deserializer, against the schema the
//! record itself induces.

use vstd::prelude::*;
use crate::alpm_desc::record::{
    FieldV, ValueV, ScalarV, SchemaFieldV, Shape, ScalarShape, shape_of, scalar_shape_of,
};
use crate::alpm_desc::ser::{
    ser_record, ser_field, ser_value, ser_scalar, ser_list, ser_unsigned, neg_mag, upper,
    upper_char, nl, dec_digit, lemma_ser_unsigned_len, lemma_ser_scalar_empty,
};
use crate::alpm_desc::de::{
    spec_from_str, spec_read, spec_parse_key, spec_parse_value, spec_split_list,
    spec_decode_fields, spec_decode_value, spec_decode_scalar, find_raw, wf_schema, eq_ic,
    first_occ, occurs_at, is_all_ws, is_ws, is_dec, is_dec_digit, dec_val, strip_plus,
    lemma_first_occ_is, SpecDeError,
};

verus! {

/// Text that can stand on a line of its own: no line-ending character.
pub open spec fn wf_text(t: Seq<char>) -> bool {
    forall|i: int| 0 <= i < t.len() ==> #[trigger] t[i] != '\n'
}

/// A scalar whose written form stays on its line.
pub open spec fn wf_scalar(s: ScalarV) -> bool {
    s is Text ==> wf_text(s->Text_0)
}

/// A key that survives the trip: nonempty and free of the delimiters.
/// Casing does not matter: the writer upper-cases keys and the reader
/// matches them case-insensitively.
pub open spec fn wf_key(n: Seq<char>) -> bool {
    n.len() >= 1 && forall|i: int| 0 <= i < n.len() ==> #[trigger] n[i] != '%' && n[i] != '\n'
}

/// Upper-casing does not introduce a delimiter, so it preserves key
/// well-formedness.
proof fn lemma_wf_key_upper(n: Seq<char>)
    requires
        wf_key(n),
    ensures
        wf_key(upper(n)),
{
    assert forall|i: int| 0 <= i < upper(n).len() implies #[trigger] upper(n)[i] != '%' && upper(
        n,
    )[i] != '\n' by {
        assert(upper(n)[i] == upper_char(n[i]));
    }
}

/// Upper-casing is idempotent.
proof fn lemma_upper_idem(n: Seq<char>)
    ensures
        upper(upper(n)) == upper(n),
{
    assert forall|i: int| 0 <= i < upper(upper(n)).len() implies upper(upper(n))[i] == upper(
        n,
    )[i] by {
        assert(upper(upper(n))[i] == upper_char(upper(n)[i]));
        assert(upper(n)[i] == upper_char(n[i]));
    }
    assert(upper(upper(n)) =~= upper(n));
}

/// A value that survives the trip.  A present optional must not be empty
/// text (an empty block is how absence is written), and list elements must
/// be nonempty single lines.
pub open spec fn wf_value(v: ValueV) -> bool {
    match v {
        ValueV::Scalar(s) => wf_scalar(s),
        ValueV::Optional(o) => match o {
            None => true,
            Some(s) => wf_scalar(s) && ser_scalar(s).len() >= 1,
        },
        ValueV::List(es) => forall|i: int|
            0 <= i < es.len() ==> (#[trigger] es[i]).len() >= 1 && wf_text(es[i]),
    }
}

/// A field that survives the trip.
pub open spec fn wf_field(f: FieldV) -> bool {
    wf_key(f.name) && wf_value(f.value)
}

/// The schema a record induces: its own names with its values' shapes.
pub open spec fn schema_of_record(fs: Seq<FieldV>) -> Seq<SchemaFieldV> {
    fs.map_values(|f: FieldV| SchemaFieldV { name: f.name, shape: shape_of(f.value) })
}

/// A record that survives the trip: well-formed fields whose names do not
/// collide case-insensitively.
pub open spec fn wf_record(fs: Seq<FieldV>) -> bool {
    (forall|i: int| 0 <= i < fs.len() ==> wf_field(#[trigger] fs[i])) && wf_schema(
        schema_of_record(fs),
    )
}

/// The list elements joined by single line endings.
pub open spec fn join(es: Seq<Seq<char>>) -> Seq<char>
    decreases es.len(),
{
    if es.len() == 0 {
        Seq::empty()
    } else if es.len() == 1 {
        es[0]
    } else {
        es[0] + nl() + join(es.drop_first())
    }
}

/// The value block the reader recovers for a value.
pub open spec fn block_of(v: ValueV) -> Seq<char> {
    match v {
        ValueV::Scalar(s) => ser_scalar(s),
        ValueV::Optional(o) => match o {
            None => Seq::empty(),
            Some(s) => ser_scalar(s),
        },
        ValueV::List(es) => join(es),
    }
}

/// The raw pairs the reader recovers for a record.
pub open spec fn raw_of(fs: Seq<FieldV>) -> Seq<(Seq<char>, Seq<char>)> {
    fs.map_values(|f: FieldV| (upper(f.name), block_of(f.value)))
}

/// A single-character pattern occurs where that character stands.
proof fn lemma_occurs_single(s: Seq<char>, c: char, j: int)
    ensures
        occurs_at(s, seq![c], j) <==> (0 <= j && j + 1 <= s.len() && s[j] == c),
{
    if 0 <= j && j + 1 <= s.len() {
        assert(s.subrange(j, j + 1) =~= seq![s[j]]);
        if s[j] == c {
            assert(s.subrange(j, j + 1) =~= seq![c]);
        } else {
            assert(s.subrange(j, j + 1) != seq![c]) by {
                assert(s.subrange(j, j + 1)[0] == s[j]);
            }
        }
    }
}

/// A doubled-character pattern occurs where both characters stand.
proof fn lemma_occurs_double(s: Seq<char>, c: char, j: int)
    ensures
        occurs_at(s, seq![c, c], j) <==> (0 <= j && j + 2 <= s.len() && s[j] == c && s[j + 1]
            == c),
{
    if 0 <= j && j + 2 <= s.len() {
        assert(s.subrange(j, j + 2) =~= seq![s[j], s[j + 1]]);
        if s[j] == c && s[j + 1] == c {
        } else {
            assert(s.subrange(j, j + 2) != seq![c, c]) by {
                assert(s.subrange(j, j + 2)[0] == s[j]);
                assert(s.subrange(j, j + 2)[1] == s[j + 1]);
            }
        }
    }
}

/// Serialized numbers consist of decimal digits.
proof fn lemma_ser_unsigned_digits(v: u64)
    ensures
        forall|i: int|
            0 <= i < ser_unsigned(v).len() ==> is_dec_digit(#[trigger] ser_unsigned(v)[i]),
    decreases v,
{
    assert(is_dec_digit(dec_digit(v)));
    if v >= 10 {
        lemma_ser_unsigned_digits(v / 10);
        let x = ser_unsigned(v);
        let p = ser_unsigned(v / 10);
        assert forall|i: int| 0 <= i < x.len() implies is_dec_digit(#[trigger] x[i]) by {
            if i < p.len() {
                assert(x[i] == p[i]);
            } else {
                assert(x[i] == dec_digit(v));
            }
        }
    } else {
        assert(ser_unsigned(v) =~= seq![dec_digit(v)]);
    }
}

/// Serialized numbers read back to the number.
proof fn lemma_dec_val_ser(v: u64)
    ensures
        dec_val(ser_unsigned(v)) == v,
    decreases v,
{
    assert(dec_digit(v) as int == 48 + (v % 10) as int);
    assert(dec_val(Seq::<char>::empty()) == 0);
    if v < 10 {
        assert(ser_unsigned(v) =~= seq![dec_digit(v)]);
        assert(ser_unsigned(v).drop_last() =~= Seq::<char>::empty());
        assert(ser_unsigned(v).last() == dec_digit(v));
    } else {
        lemma_dec_val_ser(v / 10);
        assert(ser_unsigned(v).drop_last() =~= ser_unsigned(v / 10));
        assert(ser_unsigned(v).last() == dec_digit(v));
        assert(dec_val(ser_unsigned(v)) == dec_val(ser_unsigned(v / 10)) * 10 + (dec_digit(v)
            as int - 48));
        assert((v / 10) * 10 + (v % 10) == v);
    }
}

/// A serialized scalar holds no line-ending character.
proof fn lemma_ser_scalar_clean(s: ScalarV)
    requires
        wf_scalar(s),
    ensures
        forall|i: int| 0 <= i < ser_scalar(s).len() ==> #[trigger] ser_scalar(s)[i] != '\n',
{
    match s {
        ScalarV::Bool(_) => {},
        ScalarV::Unsigned(v) => {
            lemma_ser_unsigned_digits(v);
        },
        ScalarV::Signed(v) => {
            if v >= 0 {
                lemma_ser_unsigned_digits(v as u64);
            } else {
                lemma_ser_unsigned_digits(neg_mag(v));
                assert forall|i: int| 0 <= i < ser_scalar(s).len() implies #[trigger] ser_scalar(
                    s,
                )[i] != '\n' by {
                    if i > 0 {
                        assert(ser_scalar(s)[i] == ser_unsigned(neg_mag(v))[i - 1]);
                    }
                }
            }
        },
        ScalarV::Text(_) => {},
    }
}

/// A well-formed scalar decodes back to itself at its own shape.
proof fn lemma_scalar_round(s: ScalarV)
    requires
        wf_scalar(s),
    ensures
        spec_decode_scalar(ser_scalar(s), scalar_shape_of(s)) == Ok::<ScalarV, SpecDeError>(s),
{
    let x = ser_scalar(s);
    match s {
        ScalarV::Bool(b) => {
            if b {
                assert(x =~= seq!['t', 'r', 'u', 'e']);
            } else {
                assert(x =~= seq!['f', 'a', 'l', 's', 'e']);
                assert(x != seq!['t', 'r', 'u', 'e']) by {
                    assert(x[0] == 'f');
                }
            }
        },
        ScalarV::Unsigned(v) => {
            lemma_ser_unsigned_digits(v);
            lemma_ser_unsigned_len(v);
            lemma_dec_val_ser(v);
            assert(x[0] != '+');
            assert(strip_plus(x) == x);
            assert(is_dec(x));
        },
        ScalarV::Signed(v) => {
            if v >= 0 {
                lemma_ser_unsigned_digits(v as u64);
                lemma_ser_unsigned_len(v as u64);
                lemma_dec_val_ser(v as u64);
                assert(x[0] != '+');
                assert(x[0] != '-');
                assert(strip_plus(x) == x);
                assert(is_dec(x));
            } else {
                let m = neg_mag(v);
                lemma_ser_unsigned_digits(m);
                lemma_ser_unsigned_len(m);
                lemma_dec_val_ser(m);
                assert(x[0] == '-');
                assert(x.drop_first() =~= ser_unsigned(m));
                assert(is_dec(x.drop_first()));
                assert(dec_val(x.drop_first()) == m);
            }
        },
        ScalarV::Text(_) => {},
    }
}

/// A joined list keeps its elements' characters apart: it does not start
/// or end on a line ending and never doubles one.
proof fn lemma_join_clean(es: Seq<Seq<char>>)
    requires
        forall|i: int| 0 <= i < es.len() ==> (#[trigger] es[i]).len() >= 1 && wf_text(es[i]),
        es.len() >= 1,
    ensures
        join(es).len() >= 1,
        join(es)[0] != '\n',
        join(es).last() != '\n',
        forall|j: int|
            0 <= j < join(es).len() - 1 ==> !(#[trigger] join(es)[j] == '\n' && join(es)[j + 1]
                == '\n'),
    decreases es.len(),
{
    if es.len() == 1 {
        assert(join(es) == es[0]);
    } else {
        let e = es[0];
        let rest = es.drop_first();
        assert(forall|i: int|
            0 <= i < rest.len() ==> (#[trigger] rest[i]).len() >= 1 && wf_text(rest[i]));
        lemma_join_clean(rest);
        let b = join(es);
        assert(b =~= e + nl() + join(rest));
        assert(b[0] == e[0]);
        assert(b.last() == join(rest).last());
        assert forall|j: int| 0 <= j < b.len() - 1 implies !(#[trigger] b[j] == '\n' && b[j + 1]
            == '\n') by {
            if j < e.len() {
                assert(b[j] == e[j]);
            } else if j == e.len() {
                assert(b[j + 1] == join(rest)[0]);
            } else {
                assert(b[j] == join(rest)[j - e.len() - 1]);
                assert(b[j + 1] == join(rest)[j - e.len()]);
            }
        }
    }
}

/// Writing a nonempty list is writing the joined block plus a line ending.
proof fn lemma_ser_list_join(es: Seq<Seq<char>>)
    ensures
        es.len() == 0 ==> ser_list(es, nl()) =~= Seq::<char>::empty(),
        es.len() >= 1 ==> ser_list(es, nl()) =~= join(es) + nl(),
    decreases es.len(),
{
    if es.len() >= 1 {
        lemma_ser_list_join(es.drop_first());
        if es.len() == 1 {
            assert(ser_list(es.drop_first(), nl()) =~= Seq::<char>::empty());
            assert(ser_list(es, nl()) =~= es[0] + nl());
        }
    }
}

/// Splitting a joined list recovers the elements.
proof fn lemma_split_join(es: Seq<Seq<char>>)
    requires
        forall|i: int| 0 <= i < es.len() ==> (#[trigger] es[i]).len() >= 1 && wf_text(es[i]),
    ensures
        spec_split_list(join(es), nl()) == es,
    decreases es.len(),
{
    let b = join(es);
    if es.len() == 0 {
        assert(spec_split_list(b, nl()) =~= es);
    } else if es.len() == 1 {
        let e = es[0];
        assert(b == e);
        assert forall|j: int| 0 <= j implies !occurs_at(b, nl(), j) by {
            lemma_occurs_single(b, '\n', j);
        }
        lemma_first_occ_is(b, nl(), 0, None);
        assert(spec_split_list(Seq::<char>::empty(), nl()) =~= Seq::<Seq<char>>::empty());
        assert(spec_split_list(b, nl()) =~= seq![e]);
        assert(seq![e] =~= es);
    } else {
        let e = es[0];
        let rest = es.drop_first();
        assert(b =~= e + nl() + join(rest));
        assert forall|j: int| 0 <= j < e.len() implies !occurs_at(b, nl(), j) by {
            lemma_occurs_single(b, '\n', j);
            assert(b[j] == e[j]);
        }
        assert(occurs_at(b, nl(), e.len() as int)) by {
            lemma_occurs_single(b, '\n', e.len() as int);
        }
        lemma_first_occ_is(b, nl(), 0, Some(e.len() as int));
        assert(b.subrange(0, e.len() as int) =~= e);
        assert(b.skip(e.len() as int + 1) =~= join(rest));
        lemma_split_join(rest);
        assert(spec_split_list(b, nl()) =~= seq![e] + rest);
        assert(seq![e] + rest =~= es);
    }
}

/// The block the serializer writes and the line ending that closes it.
proof fn lemma_ser_value_block(v: ValueV)
    requires
        wf_value(v),
    ensures
        block_of(v).len() == 0 ==> ser_value(v, nl()) =~= Seq::<char>::empty(),
        block_of(v).len() >= 1 ==> ser_value(v, nl()) =~= block_of(v) + nl(),
{
    match v {
        ValueV::Scalar(_) => {},
        ValueV::Optional(_) => {},
        ValueV::List(es) => {
            lemma_ser_list_join(es);
            if es.len() >= 1 {
                lemma_join_clean(es);
            }
        },
    }
}

/// The block a well-formed value writes never starts or ends on a line
/// ending and never doubles one.
proof fn lemma_block_clean(v: ValueV)
    requires
        wf_value(v),
    ensures
        block_of(v).len() >= 1 ==> block_of(v)[0] != '\n' && block_of(v).last() != '\n',
        forall|j: int|
            0 <= j < block_of(v).len() - 1 ==> !(#[trigger] block_of(v)[j] == '\n' && block_of(
                v,
            )[j + 1] == '\n'),
{
    let b = block_of(v);
    match v {
        ValueV::Scalar(s) => {
            lemma_ser_scalar_clean(s);
        },
        ValueV::Optional(o) => {
            if o is Some {
                lemma_ser_scalar_clean(o->0);
            }
        },
        ValueV::List(es) => {
            if es.len() >= 1 {
                lemma_join_clean(es);
            } else {
                assert(b =~= Seq::<char>::empty());
            }
        },
    }
}

/// Reading a serialized value block recovers the block and the tail.
proof fn lemma_parse_value_ser(v: ValueV, tail: Seq<char>)
    requires
        wf_value(v),
    ensures
        spec_parse_value(ser_value(v, nl()) + nl() + tail, nl()) == (block_of(v), tail),
{
    let b = block_of(v);
    lemma_ser_value_block(v);
    lemma_block_clean(v);
    let s = ser_value(v, nl()) + nl() + tail;
    if b.len() == 0 {
        assert(s =~= nl() + tail);
        assert(s.subrange(0, 1) =~= nl());
        assert(s.skip(1) =~= tail);
    } else {
        assert(s =~= b + nl() + nl() + tail);
        assert(s.subrange(0, 1) != nl()) by {
            assert(s.subrange(0, 1)[0] == b[0]);
        }
        let dle = nl() + nl();
        assert(dle =~= seq!['\n', '\n']);
        assert forall|j: int| 0 <= j < b.len() implies !occurs_at(s, dle, j) by {
            lemma_occurs_double(s, '\n', j);
            if j < b.len() - 1 {
                assert(s[j] == b[j]);
                assert(s[j + 1] == b[j + 1]);
            } else {
                assert(s[j] == b.last());
            }
        }
        assert(occurs_at(s, dle, b.len() as int)) by {
            lemma_occurs_double(s, '\n', b.len() as int);
        }
        lemma_first_occ_is(s, dle, 0, Some(b.len() as int));
        assert(s.subrange(0, b.len() as int) =~= b);
        assert(s.skip(b.len() as int + 2) =~= tail);
    }
}

/// Reading a serialized key line recovers the name and the tail.
proof fn lemma_parse_key_ser(name: Seq<char>, tail: Seq<char>)
    requires
        wf_key(name),
    ensures
        spec_parse_key(seq!['%'] + name + seq!['%'] + nl() + tail, nl()) == Some(
            (name, tail),
        ),
{
    let s = seq!['%'] + name + seq!['%'] + nl() + tail;
    assert(s[0] == '%');
    let i = 1 + name.len() as int;
    assert forall|j: int| 1 <= j < i implies !occurs_at(s, seq!['%'], j) by {
        lemma_occurs_single(s, '%', j);
        assert(s[j] == name[j - 1]);
    }
    assert(occurs_at(s, seq!['%'], i)) by {
        lemma_occurs_single(s, '%', i);
    }
    lemma_first_occ_is(s, seq!['%'], 1, Some(i));
    assert(s.subrange(i + 1, i + 2) =~= nl());
    assert(s.subrange(1, i) =~= name);
    assert(s.skip(i + 2) =~= tail);
}

/// Reading a serialized record recovers all its raw pairs.
proof fn lemma_read_ser(fs: Seq<FieldV>)
    requires
        forall|i: int| 0 <= i < fs.len() ==> wf_field(#[trigger] fs[i]),
    ensures
        spec_read(ser_record(fs, nl()), nl()) == Some(raw_of(fs)),
    decreases fs.len(),
{
    let s = ser_record(fs, nl());
    if fs.len() == 0 {
        assert(s =~= Seq::<char>::empty());
        assert(raw_of(fs) =~= Seq::<(Seq<char>, Seq<char>)>::empty());
    } else {
        let f = fs[0];
        let rest = fs.drop_first();
        assert(wf_field(f));
        assert(forall|i: int| 0 <= i < rest.len() ==> wf_field(#[trigger] rest[i]));
        let name = upper(f.name);
        lemma_wf_key_upper(f.name);
        let tail_v = ser_value(f.value, nl()) + nl() + ser_record(rest, nl());
        assert(s =~= (seq!['%'] + name + seq!['%'] + nl()) + tail_v);
        assert(s =~= seq!['%'] + name + seq!['%'] + nl() + tail_v);
        assert(!is_all_ws(s)) by {
            assert(s[0] == '%');
            assert(!is_ws('%'));
        }
        lemma_parse_key_ser(name, tail_v);
        lemma_parse_value_ser(f.value, ser_record(rest, nl()));
        lemma_read_ser(rest);
        assert(spec_read(s, nl()) == Some(
            seq![(name, block_of(f.value))] + raw_of(rest),
        ));
        assert(seq![(name, block_of(f.value))] + raw_of(rest) =~= raw_of(fs));
    }
}

/// `find_raw` picks the pair at `k` when nothing before it matches.
proof fn lemma_find_raw_at(pairs: Seq<(Seq<char>, Seq<char>)>, name: Seq<char>, k: int)
    requires
        0 <= k < pairs.len(),
        eq_ic(pairs[k].0, name),
        forall|j: int| 0 <= j < k ==> !eq_ic((#[trigger] pairs[j]).0, name),
    ensures
        find_raw(pairs, name) == Some(pairs[k].1),
    decreases k,
{
    if k > 0 {
        let rest = pairs.drop_first();
        assert(forall|j: int| 0 <= j < k - 1 ==> rest[j] == pairs[j + 1]);
        lemma_find_raw_at(rest, name, k - 1);
    }
}

/// Decoding the raw pairs of a record, from field `i` on, yields the
/// fields from `i` on.
proof fn lemma_decode_suffix(fs: Seq<FieldV>, i: int)
    requires
        wf_record(fs),
        0 <= i <= fs.len(),
    ensures
        spec_decode_fields(schema_of_record(fs).skip(i), raw_of(fs), nl()) == Ok::<
            Seq<FieldV>,
            SpecDeError,
        >(fs.skip(i)),
    decreases fs.len() - i,
{
    let schema = schema_of_record(fs);
    let raw = raw_of(fs);
    if i == fs.len() {
        assert(schema.skip(i) =~= Seq::<SchemaFieldV>::empty());
        assert(fs.skip(i) =~= Seq::<FieldV>::empty());
    } else {
        let f = fs[i];
        assert(wf_field(f));
        let sub = schema.skip(i);
        assert(sub[0] == schema[i]);
        lemma_upper_idem(f.name);
        assert(eq_ic(raw[i].0, f.name)) by {
            assert(raw[i].0 == upper(f.name));
        }
        assert forall|j: int| 0 <= j < i implies !eq_ic((#[trigger] raw[j]).0, f.name) by {
            lemma_upper_idem(fs[j].name);
            assert(raw[j].0 == upper(fs[j].name));
            assert(!eq_ic(schema[j].name, schema[i].name));
        }
        lemma_find_raw_at(raw, f.name, i);
        assert(find_raw(raw, f.name) == Some(block_of(f.value)));
        let shape = shape_of(f.value);
        let block = block_of(f.value);
        // the block decodes back to the field's value
        match f.value {
            ValueV::Scalar(s) => {
                lemma_scalar_round(s);
            },
            ValueV::Optional(o) => {
                match o {
                    None => {},
                    Some(s) => {
                        lemma_scalar_round(s);
                    },
                }
            },
            ValueV::List(es) => {
                lemma_split_join(es);
            },
        }
        assert(spec_decode_value(block, shape, nl()) == Ok::<ValueV, SpecDeError>(f.value));
        assert(sub.drop_first() =~= schema.skip(i + 1));
        lemma_decode_suffix(fs, i + 1);
        assert(seq![f] + fs.skip(i + 1) =~= fs.skip(i));
    }
}

/// Codec round-trip law: serializing a well-formed record and reading it
/// back against the record's own schema yields the record unchanged.
pub proof fn lemma_round_trip(fs: Seq<FieldV>)
    requires
        wf_record(fs),
    ensures
        spec_from_str(ser_record(fs, nl()), schema_of_record(fs), nl()) == Ok::<
            Seq<FieldV>,
            SpecDeError,
        >(fs),
{
    lemma_read_ser(fs);
    lemma_decode_suffix(fs, 0);
    assert(schema_of_record(fs).skip(0) =~= schema_of_record(fs));
    assert(fs.skip(0) =~= fs);
}

} // verus!
