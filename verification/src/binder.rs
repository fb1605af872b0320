//! Typed parameter binding: converting raw string captures and query
//! fields into a typed parameter record according to a declared
//! schema. Binding is all-or-nothing with first-failure-wins.

use vstd::prelude::*;
use crate::request::{first_value, lookup_first};

verus! {

/// Where a schema field draws its raw value from: a path capture or
/// the query string.
#[derive(Clone, Copy, Debug, PartialEq, Eq, Structural)]
pub enum FieldSource {
    Path,
    Query,
}

/// The coercion applied to a field's raw value. `Optional*` fields may
/// be absent; the others are required.
#[derive(Clone, Copy, Debug, PartialEq, Eq, Structural)]
pub enum FieldType {
    Text,
    Integer,
    OptionalText,
    OptionalInteger,
}

/// One declared field of a route's parameter schema.
#[derive(Clone, Debug)]
pub struct SchemaField {
    pub name: String,
    pub source: FieldSource,
    pub ty: FieldType,
}

/// A typed, bound parameter value.
#[derive(Clone, Debug, PartialEq, Eq)]
pub enum ParamValue {
    Text(String),
    Integer(i64),
    OptionalText(Option<String>),
    OptionalInteger(Option<i64>),
}

/// Why a bind failed: a required field was absent, or a present raw
/// value did not coerce to the declared type. The first failing field
/// in schema order decides.
#[derive(Clone, Debug, PartialEq, Eq)]
pub enum BindError {
    MissingRequiredField(String),
    TypeCoercionError(String, String),
}

/// A decimal digit.
pub open spec fn is_digit(c: char) -> bool {
    48 <= c as u32 && c as u32 <= 57
}

/// The numeric value of a decimal digit.
pub open spec fn digit_val(c: char) -> int {
    c as u32 - 48
}

pub open spec fn all_digits(s: Seq<char>) -> bool {
    forall|i: int| 0 <= i < s.len() ==> is_digit(#[trigger] s[i])
}

/// The value of a digit string read in base 10.
pub open spec fn digits_val(s: Seq<char>) -> int
    decreases s.len(),
{
    if s.len() == 0 {
        0
    } else {
        digits_val(s.drop_last()) * 10 + digit_val(s.last())
    }
}

/// A base-10 signed integer literal: an optional leading `-`, then one
/// or more digits; no surrounding whitespace, no other characters.
pub open spec fn is_int_string(s: Seq<char>) -> bool {
    if s.len() == 0 {
        false
    } else if s[0] == '-' {
        s.len() >= 2 && all_digits(s.skip(1))
    } else {
        all_digits(s)
    }
}

/// The mathematical value of an integer literal.
pub open spec fn int_string_val(s: Seq<char>) -> int {
    if s.len() > 0 && s[0] == '-' {
        -digits_val(s.skip(1))
    } else {
        digits_val(s)
    }
}

/// An integer literal that fits a 64-bit signed machine word.
pub open spec fn int_in_range(s: Seq<char>) -> bool {
    is_int_string(s) && i64::MIN <= int_string_val(s) <= i64::MAX
}

pub proof fn lemma_digits_val_nonneg(s: Seq<char>)
    requires
        all_digits(s),
    ensures
        digits_val(s) >= 0,
    decreases s.len(),
{
    if s.len() > 0 {
        assert(all_digits(s.drop_last()));
        lemma_digits_val_nonneg(s.drop_last());
    }
}

/// Reading further digits never shrinks the value.
pub proof fn lemma_digits_prefix_mono(s: Seq<char>, i: int, j: int)
    requires
        all_digits(s),
        0 <= i <= j <= s.len(),
    ensures
        digits_val(s.take(i)) <= digits_val(s.take(j)),
    decreases j - i,
{
    if i < j {
        lemma_digits_prefix_mono(s, i, j - 1);
        let p = s.take(j);
        assert(p.drop_last() =~= s.take(j - 1));
        assert(all_digits(s.take(j - 1)));
        lemma_digits_val_nonneg(s.take(j - 1));
    }
}

/// Parses a base-10 signed integer with no surrounding whitespace.
/// Returns `Some` exactly when the string is an integer literal whose
/// value fits an `i64`; overflow and non-numeric content yield `None`.
pub fn parse_int(s: &str) -> (r: Option<i64>)
    ensures
        r is Some <==> int_in_range(s@),
        r matches Some(v) ==> v as int == int_string_val(s@),
{
    let n = s.unicode_len();
    if n == 0 {
        return None;
    }
    let neg = s.get_char(0) == '-';
    let start: usize = if neg {
        1
    } else {
        0
    };
    if start == n {
        return None;
    }
    let ghost digits = s@.skip(start as int);
    let mut acc: i64 = 0;
    let mut i: usize = start;
    while i < n
        invariant
            start <= i <= n,
            n == s@.len(),
            start < n,
            digits == s@.skip(start as int),
            neg ==> s@[0] == '-' && start == 1,
            !neg ==> s@[0] != '-' && start == 0,
            all_digits(s@.subrange(start as int, i as int)),
            acc as int == -digits_val(s@.subrange(start as int, i as int)),
            acc <= 0,
        decreases n - i,
    {
        let c = s.get_char(i);
        let cu = c as u32;
        if !(48 <= cu && cu <= 57) {
            proof {
                assert(!is_digit(s@[i as int]));
                if neg {
                    assert(s@.skip(1)[i - 1] == s@[i as int]);
                    assert(!all_digits(s@.skip(1)));
                } else {
                    assert(!all_digits(s@));
                }
                assert(!is_int_string(s@));
            }
            return None;
        }
        let d: i64 = (cu - 48) as i64;
        let ghost pre = s@.subrange(start as int, i as int);
        let ghost cur = s@.subrange(start as int, i + 1);
        proof {
            assert(cur.drop_last() =~= pre);
            assert(cur.last() == s@[i as int]);
            assert(all_digits(cur));
            assert(digits_val(cur) == digits_val(pre) * 10 + digit_val(s@[i as int]));
        }
        let next = match acc.checked_mul(10) {
            Some(a) => a.checked_sub(d),
            None => None,
        };
        match next {
            Some(a) => {
                acc = a;
            },
            None => {
                proof {
                    assert(digits_val(cur) > i64::MAX);
                    if is_int_string(s@) {
                        assert(all_digits(digits));
                        assert(digits.take(i + 1 - start) =~= cur);
                        assert(digits.take(digits.len() as int) =~= digits);
                        lemma_digits_prefix_mono(digits, i + 1 - start, digits.len() as int);
                        assert(digits_val(digits) > i64::MAX);
                        if neg {
                            assert(int_string_val(s@) == -digits_val(digits));
                            assert(int_string_val(s@) < i64::MIN);
                        } else {
                            assert(s@.subrange(0, n as int) =~= s@);
                            assert(int_string_val(s@) == digits_val(digits));
                        }
                        assert(!int_in_range(s@));
                    }
                }
                return None;
            },
        }
        i += 1;
    }
    proof {
        assert(s@.subrange(start as int, n as int) =~= digits);
        if neg {
            assert(is_int_string(s@));
            assert(int_string_val(s@) == acc as int);
        } else {
            assert(s@.subrange(0, n as int) =~= s@);
            assert(is_int_string(s@));
            assert(int_string_val(s@) == -(acc as int));
        }
    }
    if neg {
        Some(acc)
    } else {
        if acc == i64::MIN {
            proof {
                assert(int_string_val(s@) > i64::MAX);
            }
            None
        } else {
            Some(-acc)
        }
    }
}

/// The raw string a schema field sees: the first capture or query
/// entry carrying the field's name.
pub open spec fn field_raw(
    f: SchemaField,
    caps: Seq<(Seq<char>, Seq<char>)>,
    query: Seq<(Seq<char>, Seq<char>)>,
) -> Option<Seq<char>> {
    match f.source {
        FieldSource::Path => first_value(caps, f.name@),
        FieldSource::Query => first_value(query, f.name@),
    }
}

/// Whether one field binds successfully.
pub open spec fn field_ok(
    f: SchemaField,
    caps: Seq<(Seq<char>, Seq<char>)>,
    query: Seq<(Seq<char>, Seq<char>)>,
) -> bool {
    match field_raw(f, caps, query) {
        None => f.ty is OptionalText || f.ty is OptionalInteger,
        Some(raw) => match f.ty {
            FieldType::Text => true,
            FieldType::OptionalText => true,
            FieldType::Integer => int_in_range(raw),
            FieldType::OptionalInteger => int_in_range(raw),
        },
    }
}

/// The exact typed value a successful field bind yields.
pub open spec fn value_matches(
    v: ParamValue,
    f: SchemaField,
    caps: Seq<(Seq<char>, Seq<char>)>,
    query: Seq<(Seq<char>, Seq<char>)>,
) -> bool {
    match field_raw(f, caps, query) {
        None => match f.ty {
            FieldType::OptionalText => v matches ParamValue::OptionalText(None),
            FieldType::OptionalInteger => v matches ParamValue::OptionalInteger(None),
            _ => false,
        },
        Some(raw) => match f.ty {
            FieldType::Text => v matches ParamValue::Text(t) && t@ == raw,
            FieldType::OptionalText => v matches ParamValue::OptionalText(Some(t)) && t@ == raw,
            FieldType::Integer => v matches ParamValue::Integer(n) && n as int == int_string_val(
                raw,
            ),
            FieldType::OptionalInteger => v matches ParamValue::OptionalInteger(Some(n)) && n as int
                == int_string_val(raw),
        },
    }
}

/// The exact error a failing field yields: absence gives
/// `MissingRequiredField`, a present raw value that will not coerce
/// gives `TypeCoercionError` carrying the raw value.
pub open spec fn bind_err_matches(
    e: BindError,
    f: SchemaField,
    caps: Seq<(Seq<char>, Seq<char>)>,
    query: Seq<(Seq<char>, Seq<char>)>,
) -> bool {
    match field_raw(f, caps, query) {
        None => e matches BindError::MissingRequiredField(n) && n@ == f.name@,
        Some(raw) => e matches BindError::TypeCoercionError(n, r) && n@ == f.name@ && r@ == raw,
    }
}

/// Index `k` is the first field, in schema order, that fails to bind.
pub open spec fn first_fail(
    schema: Seq<SchemaField>,
    caps: Seq<(Seq<char>, Seq<char>)>,
    query: Seq<(Seq<char>, Seq<char>)>,
    k: int,
) -> bool {
    0 <= k < schema.len() && !field_ok(schema[k], caps, query) && forall|j: int|
        0 <= j < k ==> field_ok(#[trigger] schema[j], caps, query)
}

/// The full contract of `bind`: success yields one typed value per
/// schema field, each pinned by `value_matches`; failure yields the
/// error of the first failing field.
pub open spec fn bind_post(
    schema: Seq<SchemaField>,
    caps: Seq<(Seq<char>, Seq<char>)>,
    query: Seq<(Seq<char>, Seq<char>)>,
    r: Result<Vec<(String, ParamValue)>, BindError>,
) -> bool {
    match r {
        Ok(rec) => rec@.len() == schema.len() && (forall|i: int|
            0 <= i < schema.len() ==> field_ok(#[trigger] schema[i], caps, query)) && (forall|
            i: int,
        |
            0 <= i < schema.len() ==> (#[trigger] rec@[i]).0@ == schema[i].name@ && value_matches(
                rec@[i].1,
                schema[i],
                caps,
                query,
            )),
        Err(e) => exists|k: int|
            #[trigger] first_fail(schema, caps, query, k) && bind_err_matches(
                e,
                schema[k],
                caps,
                query,
            ),
    }
}

/// Binds raw captures and query fields into a typed record, in schema
/// order, all-or-nothing, first failure wins.
pub fn bind(
    schema: &Vec<SchemaField>,
    captures: &Vec<(String, String)>,
    query: &Vec<(String, String)>,
) -> (r: Result<Vec<(String, ParamValue)>, BindError>)
    ensures
        bind_post(schema@, captures.deep_view(), query.deep_view(), r),
{
    let ghost cv = captures.deep_view();
    let ghost qv = query.deep_view();
    let mut rec: Vec<(String, ParamValue)> = Vec::new();
    let n = schema.len();
    let mut i: usize = 0;
    while i < n
        invariant
            i <= n,
            n == schema@.len(),
            cv == captures.deep_view(),
            qv == query.deep_view(),
            rec@.len() == i,
            forall|j: int| 0 <= j < i ==> field_ok(#[trigger] schema@[j], cv, qv),
            forall|j: int|
                0 <= j < i ==> (#[trigger] rec@[j]).0@ == schema@[j].name@ && value_matches(
                    rec@[j].1,
                    schema@[j],
                    cv,
                    qv,
                ),
        decreases n - i,
    {
        let f = &schema[i];
        let raw = match f.source {
            FieldSource::Path => lookup_first(captures, &f.name),
            FieldSource::Query => lookup_first(query, &f.name),
        };
        proof {
            match &raw {
                Some(v) => assert(field_raw(schema@[i as int], cv, qv) == Some(v@)),
                None => assert(field_raw(schema@[i as int], cv, qv) is None),
            }
        }
        match raw {
            None => {
                match f.ty {
                    FieldType::OptionalText => {
                        rec.push((f.name.clone(), ParamValue::OptionalText(None)));
                    },
                    FieldType::OptionalInteger => {
                        rec.push((f.name.clone(), ParamValue::OptionalInteger(None)));
                    },
                    FieldType::Text | FieldType::Integer => {
                        let e = BindError::MissingRequiredField(f.name.clone());
                        proof {
                            assert(first_fail(schema@, cv, qv, i as int));
                            assert(bind_err_matches(e, schema@[i as int], cv, qv));
                        }
                        return Err(e);
                    },
                }
            },
            Some(rawv) => {
                match f.ty {
                    FieldType::Text => {
                        rec.push((f.name.clone(), ParamValue::Text(rawv)));
                    },
                    FieldType::OptionalText => {
                        rec.push((f.name.clone(), ParamValue::OptionalText(Some(rawv))));
                    },
                    FieldType::Integer | FieldType::OptionalInteger => {
                        match parse_int(rawv.as_str()) {
                            Some(v) => {
                                let val = if matches!(f.ty, FieldType::Integer) {
                                    ParamValue::Integer(v)
                                } else {
                                    ParamValue::OptionalInteger(Some(v))
                                };
                                rec.push((f.name.clone(), val));
                            },
                            None => {
                                let e = BindError::TypeCoercionError(f.name.clone(), rawv);
                                proof {
                                    assert(first_fail(schema@, cv, qv, i as int));
                                    assert(bind_err_matches(e, schema@[i as int], cv, qv));
                                }
                                return Err(e);
                            },
                        }
                    },
                }
            },
        }
        i += 1;
    }
    Ok(rec)
}

/// An `Integer` or `OptionalInteger` field whose raw value is present
/// but is no integer literal makes the whole bind fail with
/// `TypeCoercionError` naming that field and carrying that raw value,
/// whatever stands in the fields after it.
pub proof fn lemma_integer_coercion_failure(
    schema: Seq<SchemaField>,
    caps: Seq<(Seq<char>, Seq<char>)>,
    query: Seq<(Seq<char>, Seq<char>)>,
    r: Result<Vec<(String, ParamValue)>, BindError>,
    k: int,
)
    requires
        0 <= k < schema.len(),
        schema[k].ty is Integer || schema[k].ty is OptionalInteger,
        field_raw(schema[k], caps, query) matches Some(raw) && !is_int_string(raw),
        forall|j: int| 0 <= j < k ==> field_ok(#[trigger] schema[j], caps, query),
        bind_post(schema, caps, query, r),
    ensures
        r matches Err(e) && e matches BindError::TypeCoercionError(n, rawv) && n@
            == schema[k].name@ && Some(rawv@) == field_raw(schema[k], caps, query),
{
    assert(!field_ok(schema[k], caps, query));
    match r {
        Ok(_) => {
            assert(field_ok(schema[k], caps, query));
        },
        Err(e) => {
            let kk = choose|kk: int|
                #[trigger] first_fail(schema, caps, query, kk) && bind_err_matches(
                    e,
                    schema[kk],
                    caps,
                    query,
                );
            if kk < k {
                assert(field_ok(schema[kk], caps, query));
            }
            if kk > k {
                assert(field_ok(schema[k], caps, query));
            }
            assert(kk == k);
        },
    }
}

} // verus!
