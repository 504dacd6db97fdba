//! JSON document model and serializer.
//!
//! A document is modelled with string scalars and object keys held as UTF-8
//! bytes and numbers held as their decimal text, so that serialization and
//! canonical ordering are plain functions over byte sequences. The serializer
//! follows the compact JSON form: no whitespace, `"`, `\` and control bytes
//! escaped, everything else copied through.

use vstd::prelude::*;

use crate::order::{bytes_lt, lemma_lex_connex, lemma_lex_irrefl, lex_lt};

verus! {

/// One `key: value` member of a JSON object.
pub struct JsonField {
    pub key: Vec<u8>,
    pub value: JsonValue,
}

/// A JSON document. `Num` carries the number's decimal text; `Str` carries
/// the string's UTF-8 bytes, unescaped.
pub enum JsonValue {
    Null,
    Bool(bool),
    Num(Vec<u8>),
    Str(Vec<u8>),
    Arr(Vec<JsonValue>),
    Obj(Vec<JsonField>),
}

/// Bytes allowed in the decimal text of a number.
pub open spec fn is_number_byte(b: u8) -> bool {
    (0x30 <= b <= 0x39) || b == 0x2b || b == 0x2d || b == 0x2e || b == 0x65 || b == 0x45
}

/// Every number in the document holds plain decimal text. Serialization
/// splices that text in unquoted, so this is what keeps the output free of
/// stray control bytes.
pub open spec fn nums_wf(v: JsonValue) -> bool
    decreases v,
{
    match v {
        JsonValue::Num(d) => d@.len() > 0 && (forall|i: int|
            0 <= i < d@.len() ==> is_number_byte(#[trigger] d@[i])),
        JsonValue::Arr(items) => forall|i: int|
            0 <= i < items@.len() ==> nums_wf(#[trigger] items@[i]),
        JsonValue::Obj(fields) => forall|i: int|
            0 <= i < fields@.len() ==> nums_wf((#[trigger] fields@[i]).value),
        _ => true,
    }
}

/// The members of one object carry pairwise distinct keys.
pub open spec fn fields_unique(fs: Seq<JsonField>) -> bool {
    forall|i: int, j: int| 0 <= i < j < fs.len() ==> (#[trigger] fs[i]).key@ != (#[trigger] fs[j]).key@
}

/// Keys are pairwise distinct in every object of the document.
pub open spec fn keys_unique(v: JsonValue) -> bool
    decreases v,
{
    match v {
        JsonValue::Arr(items) => forall|i: int|
            0 <= i < items@.len() ==> keys_unique(#[trigger] items@[i]),
        JsonValue::Obj(fields) => fields_unique(fields@) && (forall|i: int|
            0 <= i < fields@.len() ==> keys_unique((#[trigger] fields@[i]).value)),
        _ => true,
    }
}

/// The members of one object stand in strictly increasing key order.
pub open spec fn fields_sorted(fs: Seq<JsonField>) -> bool {
    forall|i: int, j: int| 0 <= i < j < fs.len() ==> lex_lt(
        (#[trigger] fs[i]).key@,
        (#[trigger] fs[j]).key@,
    )
}

/// Every object of the document is in strictly increasing key order.
pub open spec fn sorted_json(v: JsonValue) -> bool
    decreases v,
{
    match v {
        JsonValue::Arr(items) => forall|i: int|
            0 <= i < items@.len() ==> sorted_json(#[trigger] items@[i]),
        JsonValue::Obj(fields) => fields_sorted(fields@) && (forall|i: int|
            0 <= i < fields@.len() ==> sorted_json((#[trigger] fields@[i]).value)),
        _ => true,
    }
}

/// Strictly sorted keys are pairwise distinct.
pub proof fn lemma_sorted_fields_unique(fs: Seq<JsonField>)
    requires
        fields_sorted(fs),
    ensures
        fields_unique(fs),
{
    assert forall|i: int, j: int| 0 <= i < j < fs.len() implies (#[trigger] fs[i]).key@ != (
    #[trigger] fs[j]).key@ by {
        if fs[i].key@ == fs[j].key@ {
            lemma_lex_irrefl(fs[i].key@);
        }
    }
}

/// Every sorted document also has unique keys.
pub proof fn lemma_sorted_json_unique(v: JsonValue)
    requires
        sorted_json(v),
    ensures
        keys_unique(v),
    decreases v,
{
    match v {
        JsonValue::Arr(items) => {
            assert forall|i: int| 0 <= i < items@.len() implies keys_unique(
                #[trigger] items@[i],
            ) by {
                lemma_sorted_json_unique(items@[i]);
            }
        },
        JsonValue::Obj(fields) => {
            lemma_sorted_fields_unique(fields@);
            assert forall|i: int| 0 <= i < fields@.len() implies keys_unique(
                (#[trigger] fields@[i]).value,
            ) by {
                lemma_sorted_json_unique(fields@[i].value);
            }
        },
        _ => {},
    }
}

/// Two documents denote the same data: equal scalars, arrays equal pointwise
/// in order, objects equal as key-to-value maps regardless of member order.
pub open spec fn json_equiv(a: JsonValue, b: JsonValue) -> bool
    decreases a,
{
    match (a, b) {
        (JsonValue::Null, JsonValue::Null) => true,
        (JsonValue::Bool(x), JsonValue::Bool(y)) => x == y,
        (JsonValue::Num(x), JsonValue::Num(y)) => x@ == y@,
        (JsonValue::Str(x), JsonValue::Str(y)) => x@ == y@,
        (JsonValue::Arr(x), JsonValue::Arr(y)) => x@.len() == y@.len() && (forall|i: int|
            0 <= i < x@.len() ==> json_equiv(#[trigger] x@[i], y@[i])),
        (JsonValue::Obj(x), JsonValue::Obj(y)) => {
            &&& forall|i: int| 0 <= i < x@.len() ==> exists|j: int|
                0 <= j < y@.len() && (#[trigger] x@[i]).key@ == y@[j].key@ && json_equiv(
                    x@[i].value,
                    y@[j].value,
                )
            &&& forall|j: int| 0 <= j < y@.len() ==> exists|i: int|
                0 <= i < x@.len() && x@[i].key@ == (#[trigger] y@[j]).key@ && json_equiv(
                    x@[i].value,
                    y@[j].value,
                )
        },
        _ => false,
    }
}

/// The decimal hex digit byte (lower case) for `n < 16`.
pub open spec fn hex_digit_byte(n: u8) -> u8 {
    if n < 10 {
        (0x30 + n) as u8
    } else {
        (0x57 + n) as u8
    }
}

/// How one byte of a string scalar appears in serialized form.
pub open spec fn esc_byte(b: u8) -> Seq<u8> {
    if b == 0x22 {
        seq![0x5cu8, 0x22u8]
    } else if b == 0x5c {
        seq![0x5cu8, 0x5cu8]
    } else if b == 0x08 {
        seq![0x5cu8, 0x62u8]
    } else if b == 0x09 {
        seq![0x5cu8, 0x74u8]
    } else if b == 0x0a {
        seq![0x5cu8, 0x6eu8]
    } else if b == 0x0c {
        seq![0x5cu8, 0x66u8]
    } else if b == 0x0d {
        seq![0x5cu8, 0x72u8]
    } else if b < 0x20 {
        seq![0x5cu8, 0x75u8, 0x30u8, 0x30u8, hex_digit_byte(b / 16), hex_digit_byte(b % 16)]
    } else {
        seq![b]
    }
}

/// The serialized form of the first `i` bytes of a string scalar's content.
pub open spec fn esc_prefix(s: Seq<u8>, i: int) -> Seq<u8>
    decreases i,
{
    if i <= 0 {
        Seq::empty()
    } else {
        esc_prefix(s, i - 1) + esc_byte(s[i - 1])
    }
}

/// The serialized form of a string scalar: quoted and escaped.
pub open spec fn ser_string(s: Seq<u8>) -> Seq<u8> {
    seq![0x22u8] + esc_prefix(s, s.len() as int) + seq![0x22u8]
}

/// The serialized form of a document.
pub open spec fn ser_json(v: JsonValue) -> Seq<u8>
    decreases v, 0int, 0int,
{
    match v {
        JsonValue::Null => seq![0x6eu8, 0x75u8, 0x6cu8, 0x6cu8],
        JsonValue::Bool(b) => if b {
            seq![0x74u8, 0x72u8, 0x75u8, 0x65u8]
        } else {
            seq![0x66u8, 0x61u8, 0x6cu8, 0x73u8, 0x65u8]
        },
        JsonValue::Num(d) => d@,
        JsonValue::Str(s) => ser_string(s@),
        JsonValue::Arr(items) => seq![0x5bu8] + ser_items(items@, items@.len() as int) + seq![
            0x5du8,
        ],
        JsonValue::Obj(fields) => seq![0x7bu8] + ser_fields(fields@, fields@.len() as int) + seq![
            0x7du8,
        ],
    }
}

/// The serialized form of the first `i` items of an array, comma separated.
pub open spec fn ser_items(items: Seq<JsonValue>, i: int) -> Seq<u8>
    decreases items, 1int, i,
{
    if i <= 0 || i > items.len() {
        Seq::empty()
    } else if i == 1 {
        ser_json(items[0])
    } else {
        ser_items(items, i - 1) + seq![0x2cu8] + ser_json(items[i - 1])
    }
}

/// The serialized form of one object member.
pub open spec fn ser_field(f: JsonField) -> Seq<u8>
    decreases f, 2int, 0int,
{
    ser_string(f.key@) + seq![0x3au8] + ser_json(f.value)
}

/// The serialized form of the first `i` members of an object, comma separated.
pub open spec fn ser_fields(fields: Seq<JsonField>, i: int) -> Seq<u8>
    decreases fields, 3int, i,
{
    if i <= 0 || i > fields.len() {
        Seq::empty()
    } else if i == 1 {
        ser_field(fields[0])
    } else {
        ser_fields(fields, i - 1) + seq![0x2cu8] + ser_field(fields[i - 1])
    }
}

/// The decimal text of `n`.
pub open spec fn dec_bytes(n: nat) -> Seq<u8>
    decreases n,
{
    if n < 10 {
        seq![(0x30 + n) as u8]
    } else {
        dec_bytes(n / 10) + seq![(0x30 + n % 10) as u8]
    }
}

/// Appends the decimal text of `n` to `out`.
pub fn push_decimal(n: u64, out: &mut Vec<u8>)
    ensures
        final(out)@ == old(out)@ + dec_bytes(n as nat),
    decreases n,
{
    if n < 10 {
        out.push(0x30 + (n as u8));
    } else {
        push_decimal(n / 10, out);
        out.push(0x30 + ((n % 10) as u8));
    }
    proof {
        assert(final(out)@ =~= old(out)@ + dec_bytes(n as nat));
    }
}

/// Appends the serialized form of a string scalar's content bytes to `out`.
fn write_escaped(s: &[u8], out: &mut Vec<u8>)
    ensures
        final(out)@ == old(out)@ + esc_prefix(s@, s@.len() as int),
{
    let n = s.len();
    let mut i: usize = 0;
    while i < n
        invariant
            0 <= i <= n,
            n == s@.len(),
            out@ == old(out)@ + esc_prefix(s@, i as int),
        decreases n - i,
    {
        let b = s[i];
        if b == 0x22 {
            out.push(0x5c);
            out.push(0x22);
        } else if b == 0x5c {
            out.push(0x5c);
            out.push(0x5c);
        } else if b == 0x08 {
            out.push(0x5c);
            out.push(0x62);
        } else if b == 0x09 {
            out.push(0x5c);
            out.push(0x74);
        } else if b == 0x0a {
            out.push(0x5c);
            out.push(0x6e);
        } else if b == 0x0c {
            out.push(0x5c);
            out.push(0x66);
        } else if b == 0x0d {
            out.push(0x5c);
            out.push(0x72);
        } else if b < 0x20 {
            out.push(0x5c);
            out.push(0x75);
            out.push(0x30);
            out.push(0x30);
            out.push(if b / 16 < 10 {
                0x30 + b / 16
            } else {
                0x57 + b / 16
            });
            out.push(if b % 16 < 10 {
                0x30 + b % 16
            } else {
                0x57 + b % 16
            });
        } else {
            out.push(b);
        }
        proof {
            assert(out@ =~= old(out)@ + esc_prefix(s@, i + 1));
        }
        i = i + 1;
    }
}

/// Appends the serialized (quoted, escaped) form of a string scalar to `out`.
fn write_string(s: &[u8], out: &mut Vec<u8>)
    ensures
        final(out)@ == old(out)@ + ser_string(s@),
{
    out.push(0x22);
    write_escaped(s, out);
    out.push(0x22);
    proof {
        assert(final(out)@ =~= old(out)@ + ser_string(s@));
    }
}

/// Appends the serialized form of `v` to `out`, members in the order they
/// stand in `v`.
pub fn write_json(v: &JsonValue, out: &mut Vec<u8>)
    ensures
        final(out)@ == old(out)@ + ser_json(*v),
    decreases *v,
{
    match v {
        JsonValue::Null => {
            out.push(0x6e);
            out.push(0x75);
            out.push(0x6c);
            out.push(0x6c);
            proof {
                assert(final(out)@ =~= old(out)@ + ser_json(*v));
            }
        },
        JsonValue::Bool(b) => {
            if *b {
                out.push(0x74);
                out.push(0x72);
                out.push(0x75);
                out.push(0x65);
            } else {
                out.push(0x66);
                out.push(0x61);
                out.push(0x6c);
                out.push(0x73);
                out.push(0x65);
            }
            proof {
                assert(final(out)@ =~= old(out)@ + ser_json(*v));
            }
        },
        JsonValue::Num(d) => {
            out.extend_from_slice(d.as_slice());
            proof {
                assert(final(out)@ =~= old(out)@ + ser_json(*v));
            }
        },
        JsonValue::Str(s) => {
            write_string(s.as_slice(), out);
        },
        JsonValue::Arr(items) => {
            out.push(0x5b);
            let n = items.len();
            let mut i: usize = 0;
            while i < n
                invariant
                    0 <= i <= n,
                    n == items@.len(),
                    v is Arr,
                    *items == v->Arr_0,
                    out@ == old(out)@ + seq![0x5bu8] + ser_items(items@, i as int),
                decreases n - i,
            {
                if i > 0 {
                    out.push(0x2c);
                }
                proof {
                    assert(decreases_to!(*v => v->Arr_0));
                    assert(decreases_to!(*items => items@));
                    assert(decreases_to!(items@ => items@[i as int]));
                }
                write_json(&items[i], out);
                proof {
                    assert(out@ =~= old(out)@ + seq![0x5bu8] + ser_items(items@, i + 1));
                }
                i = i + 1;
            }
            out.push(0x5d);
            proof {
                assert(final(out)@ =~= old(out)@ + ser_json(*v));
            }
        },
        JsonValue::Obj(fields) => {
            out.push(0x7b);
            let n = fields.len();
            let mut i: usize = 0;
            while i < n
                invariant
                    0 <= i <= n,
                    n == fields@.len(),
                    v is Obj,
                    *fields == v->Obj_0,
                    out@ == old(out)@ + seq![0x7bu8] + ser_fields(fields@, i as int),
                decreases n - i,
            {
                if i > 0 {
                    out.push(0x2c);
                }
                write_string(fields[i].key.as_slice(), out);
                out.push(0x3a);
                proof {
                    assert(decreases_to!(*v => v->Obj_0));
                    assert(decreases_to!(*fields => fields@));
                    assert(decreases_to!(fields@ => fields@[i as int]));
                    assert(decreases_to!(fields@[i as int] => fields@[i as int].value));
                }
                write_json(&fields[i].value, out);
                proof {
                    assert(ser_field(fields@[i as int]) == ser_string(fields@[i as int].key@)
                        + seq![0x3au8] + ser_json(fields@[i as int].value));
                    assert(out@ =~= old(out)@ + seq![0x7bu8] + ser_fields(fields@, i + 1));
                }
                i = i + 1;
            }
            out.push(0x7d);
            proof {
                assert(final(out)@ =~= old(out)@ + ser_json(*v));
            }
        },
    }
}

/// Places `f` into the sorted member list `out`, keeping strict key order.
fn insert_field_sorted(out: &mut Vec<JsonField>, f: JsonField)
    requires
        fields_sorted(old(out)@),
        forall|j: int| 0 <= j < old(out)@.len() ==> (#[trigger] old(out)@[j]).key@ != f.key@,
    ensures
        exists|m: int| 0 <= m <= old(out)@.len() && final(out)@ == old(out)@.insert(m, f),
        fields_sorted(final(out)@),
{
    let n = out.len();
    let mut m: usize = 0;
    while m < n && !bytes_lt(f.key.as_slice(), out[m].key.as_slice())
        invariant
            0 <= m <= n,
            n == out@.len(),
            out@ == old(out)@,
            fields_sorted(out@),
            forall|j: int| 0 <= j < out@.len() ==> (#[trigger] out@[j]).key@ != f.key@,
            forall|j: int| 0 <= j < m ==> lex_lt((#[trigger] out@[j]).key@, f.key@),
        decreases n - m,
    {
        proof {
            if !lex_lt(out@[m as int].key@, f.key@) {
                lemma_lex_connex(f.key@, out@[m as int].key@);
            }
        }
        m = m + 1;
    }
    let ghost pre = out@;
    let ghost fkey = f.key@;
    let ghost mm = m as int;
    proof {
        assert(forall|j: int| 0 <= j < mm ==> lex_lt((#[trigger] pre[j]).key@, fkey));
        assert(mm < pre.len() ==> lex_lt(fkey, pre[mm].key@));
    }
    out.insert(m, f);
    proof {
        assert(final(out)@ == pre.insert(mm, f));
        assert forall|i: int, j: int| 0 <= i < j < final(out)@.len() implies lex_lt(
            (#[trigger] final(out)@[i]).key@,
            (#[trigger] final(out)@[j]).key@,
        ) by {
            if i < mm && j == mm {
            } else if i == mm && j > mm {
                if mm < pre.len() {
                    if j - 1 > mm {
                        crate::order::lemma_lex_trans(fkey, pre[mm].key@, pre[j - 1].key@);
                    }
                }
            } else if i < mm && j > mm {
                if lex_lt(pre[i].key@, fkey) && mm <= j - 1 < pre.len() {
                    if mm < j - 1 {
                        crate::order::lemma_lex_trans(pre[i].key@, pre[mm].key@, pre[j - 1].key@);
                    }
                }
            }
        }
    }
}

/// `f` stands somewhere in `fs`.
pub open spec fn appears_in(fs: Seq<JsonField>, f: JsonField) -> bool {
    exists|j: int| 0 <= j < fs.len() && fs[j] == f
}

/// `f` stands somewhere in the first `k` members of `fs`.
pub open spec fn appears_before(fs: Seq<JsonField>, k: int, f: JsonField) -> bool {
    exists|i: int| 0 <= i < k && i < fs.len() && fs[i] == f
}

/// Orders an object's member list by key; a permutation of the input.
#[verifier::loop_isolation(false)]
#[verifier::rlimit(100)]
fn sort_fields(fields: Vec<JsonField>) -> (r: Vec<JsonField>)
    requires
        fields_unique(fields@),
    ensures
        fields_sorted(r@),
        r@.len() == fields@.len(),
        forall|i: int| 0 <= i < fields@.len() ==> appears_in(r@, #[trigger] fields@[i]),
        forall|j: int| 0 <= j < r@.len() ==> appears_in(fields@, #[trigger] r@[j]),
{
    let ghost orig = fields@;
    let mut rest = fields;
    let mut out: Vec<JsonField> = Vec::new();
    while rest.len() > 0
        invariant
            out@.len() + rest@.len() == orig.len(),
            rest@ == orig.skip(out@.len() as int),
            fields_sorted(out@),
            forall|i: int| 0 <= i < out@.len() ==> appears_in(out@, #[trigger] orig[i]),
            forall|j: int| 0 <= j < out@.len() ==> appears_before(
                orig,
                out@.len() as int,
                #[trigger] out@[j],
            ),
        decreases rest@.len(),
    {
        let ghost k = out@.len() as int;
        let f = rest.remove(0);
        let ghost ff = f;
        proof {
            assert(ff == orig[k]);
            assert(rest@ =~= orig.skip(k + 1));
            assert forall|j: int| 0 <= j < out@.len() implies (#[trigger] out@[j]).key@
                != ff.key@ by {
                let ii = choose|ii: int| 0 <= ii < k && ii < orig.len() && orig[ii] == out@[j];
                assert(orig[ii].key@ != orig[k].key@);
            };
        }
        let ghost pre = out@;
        insert_field_sorted(&mut out, f);
        proof {
            let m = choose|m: int| 0 <= m <= pre.len() && out@ == pre.insert(m, ff);
            assert(out@ == pre.insert(m, ff));
            assert forall|i: int| 0 <= i < k + 1 implies appears_in(out@, #[trigger] orig[i]) by {
                if i == k {
                    assert(out@[m] == ff);
                } else {
                    let j0 = choose|j0: int| 0 <= j0 < pre.len() && pre[j0] == orig[i];
                    if j0 < m {
                        assert(out@[j0] == pre[j0]);
                    } else {
                        assert(out@[j0 + 1] == pre[j0]);
                    }
                }
            };
            assert forall|j: int| 0 <= j < out@.len() implies appears_before(
                orig,
                k + 1,
                #[trigger] out@[j],
            ) by {
                if j == m {
                    assert(out@[m] == ff && ff == orig[k]);
                } else {
                    let jj: int = if j < m {
                        j
                    } else {
                        j - 1
                    };
                    assert(out@[j] == pre[jj]);
                    let i0 = choose|i0: int| 0 <= i0 < k && i0 < orig.len() && orig[i0] == pre[jj];
                    assert(orig[i0] == out@[j]);
                }
            };
        }
    }
    proof {
        assert forall|j: int| 0 <= j < out@.len() implies appears_in(
            orig,
            #[trigger] out@[j],
        ) by {
            let i0 = choose|i0: int|
                0 <= i0 < out@.len() as int && i0 < orig.len() && orig[i0] == out@[j];
        };
    }
    out
}

/// Builds object equivalence out of its two member-correspondence clauses.
proof fn lemma_obj_equiv_intro(a: JsonValue, x: Seq<JsonField>, y: Seq<JsonField>)
    requires
        a is Obj,
        a->Obj_0@ == x,
        forall|i: int| 0 <= i < x.len() ==> exists|j: int|
            0 <= j < y.len() && (#[trigger] x[i]).key@ == y[j].key@ && json_equiv(
                x[i].value,
                y[j].value,
            ),
        forall|j: int| 0 <= j < y.len() ==> exists|i: int|
            0 <= i < x.len() && x[i].key@ == (#[trigger] y[j]).key@ && json_equiv(
                x[i].value,
                y[j].value,
            ),
    ensures
        forall|b: JsonValue| b is Obj && b->Obj_0@ == y ==> #[trigger] json_equiv(a, b),
{
    assert forall|b: JsonValue| b is Obj && b->Obj_0@ == y implies #[trigger] json_equiv(
        a,
        b,
    ) by {
        assert forall|i: int| 0 <= i < a->Obj_0@.len() implies exists|j: int|
            0 <= j < b->Obj_0@.len() && (#[trigger] a->Obj_0@[i]).key@ == b->Obj_0@[j].key@
                && json_equiv(a->Obj_0@[i].value, b->Obj_0@[j].value) by {
            let j0 = choose|j0: int|
                0 <= j0 < y.len() && (#[trigger] x[i]).key@ == y[j0].key@ && json_equiv(
                    x[i].value,
                    y[j0].value,
                );
            assert(0 <= j0 < b->Obj_0@.len() && a->Obj_0@[i].key@ == b->Obj_0@[j0].key@
                && json_equiv(a->Obj_0@[i].value, b->Obj_0@[j0].value));
        };
        assert forall|j: int| 0 <= j < b->Obj_0@.len() implies exists|i: int|
            0 <= i < a->Obj_0@.len() && a->Obj_0@[i].key@ == (#[trigger] b->Obj_0@[j]).key@
                && json_equiv(a->Obj_0@[i].value, b->Obj_0@[j].value) by {
            let i0 = choose|i0: int|
                0 <= i0 < x.len() && x[i0].key@ == (#[trigger] y[j]).key@ && json_equiv(
                    x[i0].value,
                    y[j].value,
                );
            assert(0 <= i0 < a->Obj_0@.len() && a->Obj_0@[i0].key@ == b->Obj_0@[j].key@
                && json_equiv(a->Obj_0@[i0].value, b->Obj_0@[j].value));
        };
    };
}

/// Recursively orders every object's members by key. The result denotes the
/// same data and is canonically ordered.
#[verifier::loop_isolation(false)]
#[verifier::rlimit(100)]
pub fn sort_json(v: JsonValue) -> (r: JsonValue)
    requires
        keys_unique(v),
    ensures
        sorted_json(r),
        json_equiv(v, r),
    decreases v,
{
    match v {
        JsonValue::Arr(items) => {
            let ghost w = v;
            let ghost orig = items@;
            let mut rest = items;
            let mut out: Vec<JsonValue> = Vec::new();
            while rest.len() > 0
                invariant
                    out@.len() + rest@.len() == orig.len(),
                    rest@ == orig.skip(out@.len() as int),
                    forall|j: int| 0 <= j < out@.len() ==> sorted_json(#[trigger] out@[j]),
                    forall|j: int| 0 <= j < out@.len() ==> json_equiv(
                        orig[j],
                        #[trigger] out@[j],
                    ),
                decreases rest@.len(),
            {
                let ghost k = out@.len() as int;
                let x = rest.remove(0);
                proof {
                    assert(x == orig[k]);
                    assert(rest@ =~= orig.skip(k + 1));
                    assert(keys_unique(orig[k]));
                    assert(decreases_to!(w => w->Arr_0));
                    assert(decreases_to!(w->Arr_0 => w->Arr_0@));
                    assert(decreases_to!(w->Arr_0@ => w->Arr_0@[k]));
                    assert(decreases_to!(v => x));
                }
                let y = sort_json(x);
                out.push(y);
            }
            proof {
                assert(json_equiv(w, JsonValue::Arr(out)));
            }
            JsonValue::Arr(out)
        },
        JsonValue::Obj(fields) => {
            let ghost w = v;
            let ghost orig = fields@;
            proof {
                assert(fields_unique(orig));
            }
            let sorted = sort_fields(fields);
            let ghost mid = sorted@;
            let mut rest = sorted;
            let mut out: Vec<JsonField> = Vec::new();
            while rest.len() > 0
                invariant
                    out@.len() + rest@.len() == mid.len(),
                    rest@ == mid.skip(out@.len() as int),
                    forall|j: int| 0 <= j < out@.len() ==> (#[trigger] out@[j]).key@
                        == mid[j].key@,
                    forall|j: int| 0 <= j < out@.len() ==> sorted_json(
                        (#[trigger] out@[j]).value,
                    ),
                    forall|j: int| 0 <= j < out@.len() ==> json_equiv(
                        mid[j].value,
                        (#[trigger] out@[j]).value,
                    ),
                decreases rest@.len(),
            {
                let ghost k = out@.len() as int;
                let f = rest.remove(0);
                proof {
                    assert(f == mid[k]);
                    assert(rest@ =~= mid.skip(k + 1));
                    let i0 = choose|i0: int|
                        0 <= i0 < orig.len() && orig[i0] == #[trigger] mid[k];
                    assert(keys_unique(orig[i0].value));
                    assert(decreases_to!(w => w->Obj_0));
                    assert(decreases_to!(w->Obj_0 => w->Obj_0@));
                    assert(decreases_to!(w->Obj_0@ => w->Obj_0@[i0]));
                    assert(decreases_to!(orig[i0] => orig[i0].value));
                    assert(decreases_to!(v => f.value));
                }
                let sv = sort_json(f.value);
                let sf = JsonField { key: f.key, value: sv };
                out.push(sf);
            }
            proof {
                assert(out@.len() == mid.len());
                assert forall|i: int, j: int| 0 <= i < j < out@.len() implies lex_lt(
                    (#[trigger] out@[i]).key@,
                    (#[trigger] out@[j]).key@,
                ) by {
                    assert(lex_lt(mid[i].key@, mid[j].key@));
                };
                assert forall|i: int| 0 <= i < orig.len() implies exists|j: int|
                    0 <= j < out@.len() && (#[trigger] orig[i]).key@ == out@[j].key@
                        && json_equiv(orig[i].value, out@[j].value) by {
                    let j0 = choose|j0: int| 0 <= j0 < mid.len() && mid[j0] == orig[i];
                    assert(out@[j0].key@ == mid[j0].key@);
                    assert(json_equiv(mid[j0].value, out@[j0].value));
                    assert(orig[i].key@ == out@[j0].key@ && json_equiv(
                        orig[i].value,
                        out@[j0].value,
                    ));
                };
                assert forall|j: int| 0 <= j < out@.len() implies exists|i: int|
                    0 <= i < orig.len() && orig[i].key@ == (#[trigger] out@[j]).key@
                        && json_equiv(orig[i].value, out@[j].value) by {
                    let i0 = choose|i0: int|
                        0 <= i0 < orig.len() && orig[i0] == #[trigger] mid[j];
                    assert(out@[j].key@ == mid[j].key@);
                    assert(json_equiv(mid[j].value, out@[j].value));
                    assert(orig[i0].key@ == out@[j].key@ && json_equiv(
                        orig[i0].value,
                        out@[j].value,
                    ));
                };
                lemma_obj_equiv_intro(w, orig, out@);
            }
            JsonValue::Obj(out)
        },
        other => other,
    }
}


/// Some member of `fs` carries the key `k`.
pub open spec fn key_in(fs: Seq<JsonField>, k: Seq<u8>) -> bool {
    exists|j: int| 0 <= j < fs.len() && (#[trigger] fs[j]).key@ == k
}

/// Comma-joined serializations agree when the parts agree.
proof fn lemma_ser_items_congruent(x: Seq<JsonValue>, y: Seq<JsonValue>, i: int)
    requires
        x.len() == y.len(),
        forall|k: int| 0 <= k < i ==> ser_json(#[trigger] x[k]) == ser_json(y[k]),
    ensures
        ser_items(x, i) == ser_items(y, i),
    decreases i,
{
    if i > 0 {
        lemma_ser_items_congruent(x, y, i - 1);
    }
}

/// Comma-joined member serializations agree when keys and values agree.
proof fn lemma_ser_fields_congruent(x: Seq<JsonField>, y: Seq<JsonField>, i: int)
    requires
        x.len() == y.len(),
        forall|k: int| 0 <= k < i ==> (#[trigger] x[k]).key@ == y[k].key@ && ser_json(x[k].value)
            == ser_json(y[k].value),
    ensures
        ser_fields(x, i) == ser_fields(y, i),
    decreases i,
{
    if i > 0 {
        lemma_ser_fields_congruent(x, y, i - 1);
        assert(ser_field(x[i - 1]) == ser_field(y[i - 1]));
    }
}

/// Two strictly sorted member lists with the same key set align member for
/// member.
proof fn lemma_sorted_keys_align(x: Seq<JsonField>, y: Seq<JsonField>)
    requires
        fields_sorted(x),
        fields_sorted(y),
        forall|i: int| 0 <= i < x.len() ==> key_in(y, (#[trigger] x[i]).key@),
        forall|j: int| 0 <= j < y.len() ==> key_in(x, (#[trigger] y[j]).key@),
    ensures
        x.len() == y.len(),
        forall|i: int| 0 <= i < x.len() ==> (#[trigger] x[i]).key@ == y[i].key@,
    decreases x.len(),
{
    if x.len() == 0 {
        if y.len() > 0 {
            assert(key_in(x, y[0].key@));
            let i0 = choose|i0: int| 0 <= i0 < x.len() && (#[trigger] x[i0]).key@ == y[0].key@;
            assert(false);
        }
    } else {
        assert(key_in(y, x[0].key@));
        assert(y.len() > 0);
        let j0 = choose|j0: int| 0 <= j0 < y.len() && (#[trigger] y[j0]).key@ == x[0].key@;
        let i0 = choose|i0: int| 0 <= i0 < x.len() && (#[trigger] x[i0]).key@ == y[0].key@;
        if x[0].key@ != y[0].key@ {
            assert(j0 != 0 && i0 != 0);
            assert(lex_lt(y[0].key@, y[j0].key@));
            assert(lex_lt(x[0].key@, x[i0].key@));
            crate::order::lemma_lex_trans(x[0].key@, y[0].key@, x[0].key@);
            lemma_lex_irrefl(x[0].key@);
            assert(false);
        }
        let xt = x.drop_first();
        let yt = y.drop_first();
        assert forall|i: int| 0 <= i < xt.len() implies key_in(yt, (#[trigger] xt[i]).key@) by {
            assert(xt[i] == x[i + 1]);
            assert(key_in(y, x[i + 1].key@));
            let j = choose|j: int| 0 <= j < y.len() && (#[trigger] y[j]).key@ == x[i + 1].key@;
            if j == 0 {
                assert(x[0].key@ == x[i + 1].key@);
                assert(lex_lt(x[0].key@, x[i + 1].key@));
                lemma_lex_irrefl(x[0].key@);
            }
            assert(yt[j - 1].key@ == xt[i].key@);
        }
        assert forall|j: int| 0 <= j < yt.len() implies key_in(xt, (#[trigger] yt[j]).key@) by {
            assert(yt[j] == y[j + 1]);
            assert(key_in(x, y[j + 1].key@));
            let i = choose|i: int| 0 <= i < x.len() && (#[trigger] x[i]).key@ == y[j + 1].key@;
            if i == 0 {
                assert(y[0].key@ == y[j + 1].key@);
                assert(lex_lt(y[0].key@, y[j + 1].key@));
                lemma_lex_irrefl(y[0].key@);
            }
            assert(xt[i - 1].key@ == yt[j].key@);
        }
        lemma_sorted_keys_align(xt, yt);
        assert forall|i: int| 0 <= i < x.len() implies (#[trigger] x[i]).key@ == y[i].key@ by {
            if i > 0 {
                assert(x[i] == xt[i - 1]);
                assert(y[i] == yt[i - 1]);
            }
        }
    }
}

/// Equivalent, canonically ordered objects align member for member: the
/// same key at each position, with equivalent values.
proof fn lemma_obj_members_align(x: Seq<JsonField>, y: Seq<JsonField>)
    requires
        fields_sorted(x),
        fields_sorted(y),
        forall|i: int| 0 <= i < x.len() ==> exists|j: int|
            0 <= j < y.len() && (#[trigger] x[i]).key@ == y[j].key@ && json_equiv(
                x[i].value,
                y[j].value,
            ),
        forall|j: int| 0 <= j < y.len() ==> exists|i: int|
            0 <= i < x.len() && x[i].key@ == (#[trigger] y[j]).key@ && json_equiv(
                x[i].value,
                y[j].value,
            ),
    ensures
        x.len() == y.len(),
        forall|i: int| 0 <= i < x.len() ==> (#[trigger] x[i]).key@ == y[i].key@,
        forall|i: int| 0 <= i < x.len() ==> json_equiv((#[trigger] x[i]).value, y[i].value),
{
    assert forall|i: int| 0 <= i < x.len() implies key_in(y, (#[trigger] x[i]).key@) by {
        let j = choose|j: int|
            0 <= j < y.len() && (#[trigger] x[i]).key@ == y[j].key@ && json_equiv(
                x[i].value,
                y[j].value,
            );
        assert(y[j].key@ == x[i].key@);
    }
    assert forall|j: int| 0 <= j < y.len() implies key_in(x, (#[trigger] y[j]).key@) by {
        let i = choose|i: int|
            0 <= i < x.len() && (#[trigger] x[i]).key@ == y[j].key@ && json_equiv(
                x[i].value,
                y[j].value,
            );
        assert(x[i].key@ == y[j].key@);
    }
    lemma_sorted_keys_align(x, y);
    assert forall|i: int| 0 <= i < x.len() implies json_equiv(
        (#[trigger] x[i]).value,
        y[i].value,
    ) by {
        let j = choose|j: int|
            0 <= j < y.len() && (#[trigger] x[i]).key@ == y[j].key@ && json_equiv(
                x[i].value,
                y[j].value,
            );
        if j != i {
            assert(y[j].key@ == y[i].key@);
            if j < i {
                assert(lex_lt(y[j].key@, y[i].key@));
            } else {
                assert(lex_lt(y[i].key@, y[j].key@));
            }
            lemma_lex_irrefl(y[i].key@);
            assert(false);
        }
    }
}

/// Canonical serialization is unique: two canonically ordered documents
/// that denote the same data serialize to the same bytes. Together with the
/// canonical ordering pass this is what makes the compose hash independent
/// of the member order of its source text.
pub proof fn lemma_canonical_serialization_unique(a: JsonValue, b: JsonValue)
    requires
        sorted_json(a),
        sorted_json(b),
        json_equiv(a, b),
    ensures
        ser_json(a) == ser_json(b),
    decreases a,
{
    match (a, b) {
        (JsonValue::Arr(x), JsonValue::Arr(y)) => {
            assert forall|k: int| 0 <= k < x@.len() implies ser_json(#[trigger] x@[k]) == ser_json(
                y@[k],
            ) by {
                assert(json_equiv(x@[k], y@[k]));
                assert(sorted_json(x@[k]));
                assert(sorted_json(y@[k]));
                assert(decreases_to!(a => a->Arr_0));
                assert(decreases_to!(a->Arr_0 => a->Arr_0@));
                assert(decreases_to!(a->Arr_0@ => a->Arr_0@[k]));
                lemma_canonical_serialization_unique(x@[k], y@[k]);
            }
            lemma_ser_items_congruent(x@, y@, x@.len() as int);
        },
        (JsonValue::Obj(x), JsonValue::Obj(y)) => {
            lemma_obj_members_align(x@, y@);
            assert forall|i: int| 0 <= i < x@.len() implies (#[trigger] x@[i]).key@ == y@[i].key@
                && ser_json(x@[i].value) == ser_json(y@[i].value) by {
                assert(json_equiv(x@[i].value, y@[i].value));
                assert(sorted_json(x@[i].value));
                assert(sorted_json(y@[i].value));
                assert(decreases_to!(a => a->Obj_0));
                assert(decreases_to!(a->Obj_0 => a->Obj_0@));
                assert(decreases_to!(a->Obj_0@ => a->Obj_0@[i]));
                assert(decreases_to!(a->Obj_0@[i] => a->Obj_0@[i].value));
                lemma_canonical_serialization_unique(x@[i].value, y@[i].value);
            }
            lemma_ser_fields_congruent(x@, y@, x@.len() as int);
        },
        _ => {},
    }
}

/// Escaped string content holds no NUL byte: every escape opens with a
/// backslash and a plain byte passes through only when it is 0x20 or more.
proof fn lemma_esc_no_nul(s: Seq<u8>, i: int)
    ensures
        forall|k: int| 0 <= k < esc_prefix(s, i).len() ==> #[trigger] esc_prefix(s, i)[k] != 0,
    decreases i,
{
    if i > 0 {
        lemma_esc_no_nul(s, i - 1);
        assert forall|k: int| 0 <= k < esc_byte(s[i - 1]).len() implies #[trigger] esc_byte(
            s[i - 1],
        )[k] != 0 by {
            let b = s[i - 1];
            if !(b == 0x22 || b == 0x5c || b == 0x08 || b == 0x09 || b == 0x0a || b == 0x0c || b
                == 0x0d) && b < 0x20 {
                assert(hex_digit_byte(b / 16) != 0);
                assert(hex_digit_byte(b % 16) != 0);
            }
        }
        assert forall|k: int| 0 <= k < esc_prefix(s, i).len() implies #[trigger] esc_prefix(
            s,
            i,
        )[k] != 0 by {
            let pre = esc_prefix(s, i - 1);
            if k < pre.len() {
                assert(esc_prefix(s, i)[k] == pre[k]);
            } else {
                assert(esc_prefix(s, i)[k] == esc_byte(s[i - 1])[k - pre.len()]);
            }
        }
    }
}

/// The serialized form of a well-formed document holds no NUL byte; the
/// hash input's separator can never be mistaken for manifest content.
pub proof fn lemma_ser_no_nul(v: JsonValue)
    requires
        nums_wf(v),
    ensures
        forall|k: int| 0 <= k < ser_json(v).len() ==> #[trigger] ser_json(v)[k] != 0,
    decreases v, 0int, 0int,
{
    match v {
        JsonValue::Str(st) => {
            lemma_esc_no_nul(st@, st@.len() as int);
            let e = esc_prefix(st@, st@.len() as int);
            assert forall|k: int| 0 <= k < ser_json(v).len() implies #[trigger] ser_json(v)[k]
                != 0 by {
                if 0 < k <= e.len() {
                    assert(ser_json(v)[k] == e[k - 1]);
                }
            }
        },
        JsonValue::Arr(items) => {
            assert(decreases_to!(v => v->Arr_0));
            assert(decreases_to!(v->Arr_0 => v->Arr_0@));
            lemma_ser_items_no_nul(items@, items@.len() as int);
            let mid = ser_items(items@, items@.len() as int);
            assert forall|k: int| 0 <= k < ser_json(v).len() implies #[trigger] ser_json(v)[k]
                != 0 by {
                if 0 < k <= mid.len() {
                    assert(ser_json(v)[k] == mid[k - 1]);
                }
            }
        },
        JsonValue::Obj(fields) => {
            assert(decreases_to!(v => v->Obj_0));
            assert(decreases_to!(v->Obj_0 => v->Obj_0@));
            lemma_ser_fields_no_nul(fields@, fields@.len() as int);
            let mid = ser_fields(fields@, fields@.len() as int);
            assert forall|k: int| 0 <= k < ser_json(v).len() implies #[trigger] ser_json(v)[k]
                != 0 by {
                if 0 < k <= mid.len() {
                    assert(ser_json(v)[k] == mid[k - 1]);
                }
            }
        },
        _ => {},
    }
}

/// No NUL byte in a comma-joined item list.
proof fn lemma_ser_items_no_nul(items: Seq<JsonValue>, i: int)
    requires
        forall|j: int| 0 <= j < items.len() ==> nums_wf(#[trigger] items[j]),
    ensures
        forall|k: int| 0 <= k < ser_items(items, i).len() ==> #[trigger] ser_items(items, i)[k]
            != 0,
    decreases items, 1int, i,
{
    if 0 < i <= items.len() {
        assert(decreases_to!(items => items[i - 1]));
        lemma_ser_no_nul(items[i - 1]);
        let cur = ser_json(items[i - 1]);
        if i == 1 {
            assert(ser_items(items, i) == cur);
        } else {
            lemma_ser_items_no_nul(items, i - 1);
            let pre = ser_items(items, i - 1);
            assert forall|k: int| 0 <= k < ser_items(items, i).len() implies #[trigger] ser_items(
                items,
                i,
            )[k] != 0 by {
                if k < pre.len() {
                    assert(ser_items(items, i)[k] == pre[k]);
                } else if k > pre.len() {
                    assert(ser_items(items, i)[k] == cur[k - pre.len() - 1]);
                }
            }
        }
    }
}

/// No NUL byte in one serialized member.
proof fn lemma_ser_field_no_nul(f: JsonField)
    requires
        nums_wf(f.value),
    ensures
        forall|k: int| 0 <= k < ser_field(f).len() ==> #[trigger] ser_field(f)[k] != 0,
    decreases f, 2int, 0int,
{
    lemma_esc_no_nul(f.key@, f.key@.len() as int);
    assert(decreases_to!(f => f.value));
    lemma_ser_no_nul(f.value);
    let ks = ser_string(f.key@);
    let e = esc_prefix(f.key@, f.key@.len() as int);
    let vs = ser_json(f.value);
    assert forall|k: int| 0 <= k < ser_field(f).len() implies #[trigger] ser_field(f)[k] != 0 by {
        if k < ks.len() {
            assert(ser_field(f)[k] == ks[k]);
            if 0 < k <= e.len() {
                assert(ks[k] == e[k - 1]);
            }
        } else if k > ks.len() {
            assert(ser_field(f)[k] == vs[k - ks.len() - 1]);
        }
    }
}

/// No NUL byte in a comma-joined member list.
proof fn lemma_ser_fields_no_nul(fields: Seq<JsonField>, i: int)
    requires
        forall|j: int| 0 <= j < fields.len() ==> nums_wf((#[trigger] fields[j]).value),
    ensures
        forall|k: int| 0 <= k < ser_fields(fields, i).len() ==> #[trigger] ser_fields(fields, i)[k]
            != 0,
    decreases fields, 3int, i,
{
    if 0 < i <= fields.len() {
        assert(decreases_to!(fields => fields[i - 1]));
        lemma_ser_field_no_nul(fields[i - 1]);
        let cur = ser_field(fields[i - 1]);
        if i == 1 {
            assert(ser_fields(fields, i) == cur);
        } else {
            lemma_ser_fields_no_nul(fields, i - 1);
            let pre = ser_fields(fields, i - 1);
            assert forall|k: int| 0 <= k < ser_fields(fields, i).len() implies
                #[trigger] ser_fields(fields, i)[k] != 0 by {
                if k < pre.len() {
                    assert(ser_fields(fields, i)[k] == pre[k]);
                } else if k > pre.len() {
                    assert(ser_fields(fields, i)[k] == cur[k - pre.len() - 1]);
                }
            }
        }
    }
}

} // verus!
