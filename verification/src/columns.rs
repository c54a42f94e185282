//! Column decoder: slices one line of text into fixed-width fields,
//! consumed strictly left to right, and converts each to a typed value.
//! When the line is shorter than the cumulative width, the missing tail
//! reads as an empty string, which fails numeric parsing.

use vstd::prelude::*;
use crate::error::{Error, ErrorModel};
use crate::floatlit::{float_ok, is_float_text};
use crate::text::{int32_of, parse_i32, subrange_vec, trim_bytes, trim_spec};

verus! {

/// One column of a fixed-width record layout.
#[derive(Debug, Clone, Copy, PartialEq, Eq, Structural)]
pub enum ColSpec {
    /// Consume the width, produce nothing (separator columns).
    Skip(usize),
    /// Consume the width verbatim, spaces kept.
    RawString(usize),
    /// Consume the width, strip surrounding whitespace.
    TrimmedString(usize),
    /// Consume the width, trim, parse as a signed 32-bit integer.
    Int32(usize),
    /// Consume the width, trim, keep the token of a 64-bit float.
    Float64(usize),
}

/// A decoded field: text columns yield `Str`, integer columns `Int`, and
/// float columns `Float` carrying the validated decimal token.
#[derive(Debug, Clone)]
pub enum FieldValue {
    Str(Vec<u8>),
    Int(i32),
    Float(Vec<u8>),
}

pub ghost enum FieldValueModel {
    Str(Seq<u8>),
    Int(i32),
    Float(Seq<u8>),
}

impl View for FieldValue {
    type V = FieldValueModel;

    open spec fn view(&self) -> FieldValueModel {
        match self {
            FieldValue::Str(s) => FieldValueModel::Str(s@),
            FieldValue::Int(v) => FieldValueModel::Int(*v),
            FieldValue::Float(s) => FieldValueModel::Float(s@),
        }
    }
}

pub open spec fn width_of(c: ColSpec) -> int {
    match c {
        ColSpec::Skip(w) => w as int,
        ColSpec::RawString(w) => w as int,
        ColSpec::TrimmedString(w) => w as int,
        ColSpec::Int32(w) => w as int,
        ColSpec::Float64(w) => w as int,
    }
}

/// Decode of the first `k` columns: the values they produce and the
/// position after them, clamped to the line's end.
pub open spec fn dec_prefix(line: Seq<u8>, cols: Seq<ColSpec>, k: int) -> Result<
    (Seq<FieldValueModel>, int),
    ErrorModel,
>
    decreases k,
{
    if k <= 0 {
        Ok((Seq::empty(), 0))
    } else {
        match dec_prefix(line, cols, k - 1) {
            Err(e) => Err(e),
            Ok((vs, pos)) => {
                let c = cols[k - 1];
                let stop = if pos + width_of(c) <= line.len() {
                    pos + width_of(c)
                } else {
                    line.len() as int
                };
                let piece = line.subrange(pos, stop);
                match c {
                    ColSpec::Skip(_) => Ok((vs, stop)),
                    ColSpec::RawString(_) => Ok((vs.push(FieldValueModel::Str(piece)), stop)),
                    ColSpec::TrimmedString(_) => Ok(
                        (vs.push(FieldValueModel::Str(trim_spec(piece))), stop),
                    ),
                    ColSpec::Int32(_) => match int32_of(trim_spec(piece)) {
                        Some(v) => Ok((vs.push(FieldValueModel::Int(v)), stop)),
                        None => Err(ErrorModel::ParseInt),
                    },
                    ColSpec::Float64(_) => if float_ok(trim_spec(piece)) {
                        Ok((vs.push(FieldValueModel::Float(trim_spec(piece))), stop))
                    } else {
                        Err(ErrorModel::ParseFloat)
                    },
                }
            },
        }
    }
}

/// What decoding a whole layout yields.
pub open spec fn decode_cols_spec(line: Seq<u8>, cols: Seq<ColSpec>) -> Result<
    Seq<FieldValueModel>,
    ErrorModel,
> {
    match dec_prefix(line, cols, cols.len() as int) {
        Ok((vs, pos)) => Ok(vs),
        Err(e) => Err(e),
    }
}

/// Once a column fails, every longer prefix fails the same way.
pub proof fn lemma_dec_prefix_err(line: Seq<u8>, cols: Seq<ColSpec>, k: int, n: int)
    requires
        0 <= k <= n,
        dec_prefix(line, cols, k) is Err,
    ensures
        dec_prefix(line, cols, n) == dec_prefix(line, cols, k),
    decreases n - k,
{
    if k < n {
        lemma_dec_prefix_err(line, cols, k + 1, n);
    }
}

/// When every column is a float column, a successful decode yields one
/// validated float token per column.
pub proof fn lemma_dec_prefix_all_float(line: Seq<u8>, cols: Seq<ColSpec>, k: int)
    requires
        0 <= k <= cols.len(),
        forall|j: int| 0 <= j < cols.len() ==> (#[trigger] cols[j]) matches ColSpec::Float64(w),
        dec_prefix(line, cols, k) is Ok,
    ensures
        dec_prefix(line, cols, k)->Ok_0.0.len() == k,
        forall|idx: int|
            0 <= idx < k ==> (#[trigger] dec_prefix(line, cols, k)->Ok_0.0[idx]) is Float
                && float_ok(fv_float(dec_prefix(line, cols, k)->Ok_0.0[idx])),
    decreases k,
{
    if k > 0 {
        lemma_dec_prefix_all_float(line, cols, k - 1);
        let vs = dec_prefix(line, cols, k)->Ok_0.0;
        let pre = dec_prefix(line, cols, k - 1)->Ok_0.0;
        assert forall|idx: int|
            0 <= idx < k implies (#[trigger] vs[idx]) is Float && float_ok(fv_float(vs[idx])) by {
            if idx < k - 1 {
                assert(vs[idx] == pre[idx]);
            }
        }
    }
}

/// The token inside a float field.
pub open spec fn fv_float(f: FieldValueModel) -> Seq<u8> {
    match f {
        FieldValueModel::Float(t) => t,
        _ => Seq::empty(),
    }
}

/// Decode one line against an ordered column layout.
pub fn decode_cols(line: &[u8], cols: &[ColSpec]) -> (r: Result<Vec<FieldValue>, Error>)
    ensures
        match r {
            Ok(vs) => decode_cols_spec(line@, cols@) == Ok::<_, ErrorModel>(
                vs@.map_values(|f: FieldValue| f@),
            ),
            Err(e) => decode_cols_spec(line@, cols@) == Err::<Seq<FieldValueModel>, _>(e@),
        },
{
    let mut out: Vec<FieldValue> = Vec::new();
    proof {
        assert(out@.map_values(|f: FieldValue| f@) =~= Seq::<FieldValueModel>::empty());
    }
    let mut pos: usize = 0;
    let mut i: usize = 0;
    while i < cols.len()
        invariant
            i <= cols@.len(),
            pos <= line@.len(),
            dec_prefix(line@, cols@, i as int) == Ok::<_, ErrorModel>(
                (out@.map_values(|f: FieldValue| f@), pos as int),
            ),
        decreases cols@.len() - i,
    {
        let c = cols[i];
        let w: usize = match c {
            ColSpec::Skip(w) => w,
            ColSpec::RawString(w) => w,
            ColSpec::TrimmedString(w) => w,
            ColSpec::Int32(w) => w,
            ColSpec::Float64(w) => w,
        };
        let stop: usize = if w <= line.len() - pos {
            pos + w
        } else {
            line.len()
        };
        let piece = subrange_vec(line, pos, stop);
        let ghost pre = out@.map_values(|f: FieldValue| f@);
        match c {
            ColSpec::Skip(_) => {
                proof {
                    assert(out@.map_values(|f: FieldValue| f@) =~= pre);
                }
            },
            ColSpec::RawString(_) => {
                let ghost pv = piece@;
                out.push(FieldValue::Str(piece));
                proof {
                    assert(out@.map_values(|f: FieldValue| f@) =~= pre.push(
                        FieldValueModel::Str(pv),
                    ));
                }
            },
            ColSpec::TrimmedString(_) => {
                out.push(FieldValue::Str(trim_bytes(piece.as_slice())));
                proof {
                    assert(out@.map_values(|f: FieldValue| f@) =~= pre.push(
                        FieldValueModel::Str(trim_spec(piece@)),
                    ));
                }
            },
            ColSpec::Int32(_) => {
                let t = trim_bytes(piece.as_slice());
                match parse_i32(t.as_slice()) {
                    Some(v) => {
                        out.push(FieldValue::Int(v));
                        proof {
                            assert(out@.map_values(|f: FieldValue| f@) =~= pre.push(
                                FieldValueModel::Int(v),
                            ));
                        }
                    },
                    None => {
                        proof {
                            lemma_dec_prefix_err(line@, cols@, i + 1, cols@.len() as int);
                        }
                        return Err(Error::ParseInt);
                    },
                }
            },
            ColSpec::Float64(_) => {
                let t = trim_bytes(piece.as_slice());
                if is_float_text(t.as_slice()) {
                    let ghost tv = t@;
                    out.push(FieldValue::Float(t));
                    proof {
                        assert(out@.map_values(|f: FieldValue| f@) =~= pre.push(
                            FieldValueModel::Float(tv),
                        ));
                    }
                } else {
                    proof {
                        lemma_dec_prefix_err(line@, cols@, i + 1, cols@.len() as int);
                    }
                    return Err(Error::ParseFloat);
                }
            },
        }
        pos = stop;
        i = i + 1;
    }
    Ok(out)
}

} // verus!
