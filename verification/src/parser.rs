//! CPF grammar parser: drives line-by-line through the fixed section
//! order, building one `CheckPointFile` value. Every section's length is
//! determined by a count read in an earlier section; any failure aborts
//! the whole parse.
//!
//! Each section has a specification function over the line sequence; the
//! executable parser is proved to return exactly what the specification
//! says, error for error.

use vstd::prelude::*;
use crate::columns::{
    dec_prefix, decode_cols, decode_cols_spec, lemma_dec_prefix_err, ColSpec, FieldValue,
    FieldValueModel,
};
use crate::error::{Error, ErrorModel};
use crate::floatlit::{float_ok, is_float_text};
use crate::text::{
    find_nonspace, int32_of, lemma_scan, parse_i32, parse_usize, scan, split_lines, split_ws,
    subrange_vec, tokens_from, trim_bytes, trim_spec, uint_of,
};
use crate::types::{
    ApproxParams, ApproxParamsModel, Atom, AtomModel, CheckPointFile, CheckPointFileModel,
    DimerData, Dimers, DimersModel, Monomers, MonomersModel, SplittedBond, SystemEnergy,
    SystemEnergyModel, Vec3, Vec3Model,
};

verus! {

/// The width-`w` piece of `line` starting at `pos`, clamped to the
/// line's end: a short line reads as empty columns.
pub open spec fn slice_at(line: Seq<u8>, pos: int, w: int) -> Seq<u8> {
    let st = if pos <= line.len() {
        pos
    } else {
        line.len() as int
    };
    let en = if pos + w <= line.len() {
        pos + w
    } else {
        line.len() as int
    };
    if st <= en {
        line.subrange(st, en)
    } else {
        Seq::empty()
    }
}

/// Copy the width-`w` piece of `line` starting at `pos`.
fn slice_vec(line: &[u8], pos: usize, w: usize) -> (r: Vec<u8>)
    ensures
        r@ == slice_at(line@, pos as int, w as int),
{
    let st: usize = if pos <= line.len() {
        pos
    } else {
        line.len()
    };
    let en: usize = if w <= line.len() - st && pos <= line.len() {
        pos + w
    } else {
        line.len()
    };
    subrange_vec(line, st, en)
}

/// The predicate "is a plain space", for use with `scan`: the header
/// version token ends at a space character only.
pub open spec fn blank_p() -> spec_fn(u8) -> bool {
    |b: u8| b == 32
}

/// The predicate "ends a line's content": carriage return or line feed.
pub open spec fn crlf_p() -> spec_fn(u8) -> bool {
    |b: u8| b == 13 || b == 10
}

/// The version token of a header line: the run of non-space bytes after
/// the 8 filler characters.
pub open spec fn version_of(line: Seq<u8>) -> Seq<u8> {
    let st = if 8 <= line.len() {
        8int
    } else {
        line.len() as int
    };
    line.subrange(st, scan(line, st, blank_p()))
}

/// The comment of a header line: everything after the space that ends
/// the version token, up to a carriage return or line feed.
pub open spec fn comments_of(line: Seq<u8>) -> Seq<u8> {
    let st = if 8 <= line.len() {
        8int
    } else {
        line.len() as int
    };
    let ve = scan(line, st, blank_p());
    let cs = if ve < line.len() {
        ve + 1
    } else {
        ve
    };
    line.subrange(cs, scan(line, cs, crlf_p()))
}

/// Header section: one line yielding the version token and the comment.
pub open spec fn header_spec(lines: Seq<Seq<u8>>, pos: int) -> Result<
    ((Seq<u8>, Seq<u8>), int),
    ErrorModel,
> {
    if pos >= lines.len() {
        Err(ErrorModel::UnexpectedEnd)
    } else {
        Ok(((version_of(lines[pos]), comments_of(lines[pos])), pos + 1))
    }
}

/// Counts section: one line holding `num_atoms` and `num_frags`, each a
/// width-5 column.
pub open spec fn counts_spec(lines: Seq<Seq<u8>>, pos: int) -> Result<
    ((usize, usize), int),
    ErrorModel,
> {
    if pos >= lines.len() {
        Err(ErrorModel::UnexpectedEnd)
    } else {
        let l = lines[pos];
        match uint_of(trim_spec(slice_at(l, 0, 5))) {
            None => Err(ErrorModel::ParseInt),
            Some(na) => match uint_of(trim_spec(slice_at(l, 5, 5))) {
                None => Err(ErrorModel::ParseInt),
                Some(nf) => Ok(((na, nf), pos + 1)),
            },
        }
    }
}

/// What the first `k` values of a packed width-5 integer line decode to.
pub open spec fn packed_prefix(line: Seq<u8>, k: int) -> Result<Seq<i32>, ErrorModel>
    decreases k,
{
    if k <= 0 {
        Ok(Seq::empty())
    } else {
        match packed_prefix(line, k - 1) {
            Err(e) => Err(e),
            Ok(vs) => match int32_of(trim_spec(slice_at(line, 5 * (k - 1), 5))) {
                None => Err(ErrorModel::ParseInt),
                Some(v) => Ok(vs.push(v)),
            },
        }
    }
}

pub proof fn lemma_packed_prefix_err(line: Seq<u8>, k: int, n: int)
    requires
        0 <= k <= n,
        packed_prefix(line, k) is Err,
    ensures
        packed_prefix(line, n) == packed_prefix(line, k),
    decreases n - k,
{
    if k < n {
        lemma_packed_prefix_err(line, k + 1, n);
    }
}

pub proof fn lemma_packed_prefix_len(line: Seq<u8>, k: int)
    requires
        0 <= k,
        packed_prefix(line, k) is Ok,
    ensures
        packed_prefix(line, k)->Ok_0.len() == k,
    decreases k,
{
    if k > 0 {
        lemma_packed_prefix_err_helper(line, k);
        lemma_packed_prefix_len(line, k - 1);
    }
}

proof fn lemma_packed_prefix_err_helper(line: Seq<u8>, k: int)
    requires
        0 < k,
        packed_prefix(line, k) is Ok,
    ensures
        packed_prefix(line, k - 1) is Ok,
{
}

/// One generic repeated-line section: the first `k` rows decoded by
/// `row`, starting at `pos`; the first failing row aborts it.
pub open spec fn rows_prefix<T>(
    lines: Seq<Seq<u8>>,
    pos: int,
    k: int,
    row: spec_fn(Seq<u8>) -> Result<T, ErrorModel>,
) -> Result<Seq<T>, ErrorModel>
    decreases k,
{
    if k <= 0 {
        Ok(Seq::empty())
    } else {
        match rows_prefix(lines, pos, k - 1, row) {
            Err(e) => Err(e),
            Ok(vs) => if pos + k - 1 >= lines.len() {
                Err(ErrorModel::UnexpectedEnd)
            } else {
                match row(lines[pos + k - 1]) {
                    Err(e) => Err(e),
                    Ok(v) => Ok(vs.push(v)),
                }
            },
        }
    }
}

pub proof fn lemma_rows_prefix_err<T>(
    lines: Seq<Seq<u8>>,
    pos: int,
    k: int,
    n: int,
    row: spec_fn(Seq<u8>) -> Result<T, ErrorModel>,
)
    requires
        0 <= k <= n,
        rows_prefix(lines, pos, k, row) is Err,
    ensures
        rows_prefix(lines, pos, n, row) == rows_prefix(lines, pos, k, row),
    decreases n - k,
{
    if k < n {
        lemma_rows_prefix_err(lines, pos, k + 1, n, row);
    }
}

/// The integer produced by field `i`, or zero where the field is not an
/// integer column; decoding a layout always yields matching kinds.
pub open spec fn fv_int(fs: Seq<FieldValueModel>, i: int) -> i32 {
    if 0 <= i < fs.len() {
        match fs[i] {
            FieldValueModel::Int(v) => v,
            _ => 0,
        }
    } else {
        0
    }
}

/// The text produced by field `i`, or empty where it is not a text column.
pub open spec fn fv_str(fs: Seq<FieldValueModel>, i: int) -> Seq<u8> {
    if 0 <= i < fs.len() {
        match fs[i] {
            FieldValueModel::Str(s) => s,
            _ => Seq::empty(),
        }
    } else {
        Seq::empty()
    }
}

/// The float token produced by field `i`, or empty where it is not a
/// float column.
pub open spec fn fv_tok(fs: Seq<FieldValueModel>, i: int) -> Seq<u8> {
    if 0 <= i < fs.len() {
        match fs[i] {
            FieldValueModel::Float(s) => s,
            _ => Seq::empty(),
        }
    } else {
        Seq::empty()
    }
}

fn get_int(fs: &Vec<FieldValue>, i: usize) -> (r: i32)
    ensures
        r == fv_int(fs@.map_values(|f: FieldValue| f@), i as int),
{
    if i < fs.len() {
        match &fs[i] {
            FieldValue::Int(v) => *v,
            _ => 0,
        }
    } else {
        0
    }
}

fn get_str(fs: &Vec<FieldValue>, i: usize) -> (r: Vec<u8>)
    ensures
        r@ == fv_str(fs@.map_values(|f: FieldValue| f@), i as int),
{
    if i < fs.len() {
        match &fs[i] {
            FieldValue::Str(s) => subrange_vec(s.as_slice(), 0, s.len()),
            _ => Vec::new(),
        }
    } else {
        Vec::new()
    }
}

fn get_tok(fs: &Vec<FieldValue>, i: usize) -> (r: Vec<u8>)
    ensures
        r@ == fv_tok(fs@.map_values(|f: FieldValue| f@), i as int),
{
    if i < fs.len() {
        match &fs[i] {
            FieldValue::Float(s) => subrange_vec(s.as_slice(), 0, s.len()),
            _ => Vec::new(),
        }
    } else {
        Vec::new()
    }
}

/// The 21-column Atom layout: index, element, type, residue name and
/// index, fragment index, then nine width-12 floats.
pub open spec fn atom_cols() -> Seq<ColSpec> {
    seq![
        ColSpec::Int32(5),
        ColSpec::Skip(1),
        ColSpec::RawString(2),
        ColSpec::Skip(1),
        ColSpec::RawString(4),
        ColSpec::Skip(1),
        ColSpec::RawString(3),
        ColSpec::Skip(1),
        ColSpec::Int32(4),
        ColSpec::Skip(1),
        ColSpec::Int32(4),
        ColSpec::Skip(1),
        ColSpec::Float64(12),
        ColSpec::Float64(12),
        ColSpec::Float64(12),
        ColSpec::Float64(12),
        ColSpec::Float64(12),
        ColSpec::Float64(12),
        ColSpec::Float64(12),
        ColSpec::Float64(12),
        ColSpec::Float64(12),
    ]
}

fn atom_cols_vec() -> (r: Vec<ColSpec>)
    ensures
        r@ == atom_cols(),
{
    let mut v: Vec<ColSpec> = Vec::new();
    v.push(ColSpec::Int32(5));
    v.push(ColSpec::Skip(1));
    v.push(ColSpec::RawString(2));
    v.push(ColSpec::Skip(1));
    v.push(ColSpec::RawString(4));
    v.push(ColSpec::Skip(1));
    v.push(ColSpec::RawString(3));
    v.push(ColSpec::Skip(1));
    v.push(ColSpec::Int32(4));
    v.push(ColSpec::Skip(1));
    v.push(ColSpec::Int32(4));
    v.push(ColSpec::Skip(1));
    let mut i: usize = 0;
    while i < 9
        invariant
            i <= 9,
            v@.len() == 12 + i,
            forall|k: int| 0 <= k < 12 ==> v@[k] == atom_cols()[k],
            forall|k: int| 12 <= k < v@.len() ==> v@[k] == ColSpec::Float64(12),
        decreases 9 - i,
    {
        v.push(ColSpec::Float64(12));
        i = i + 1;
    }
    proof {
        assert(v@ =~= atom_cols());
    }
    v
}

/// The two-integer bond layout.
pub open spec fn bond_cols() -> Seq<ColSpec> {
    seq![ColSpec::Int32(5), ColSpec::Int32(5)]
}

fn bond_cols_vec() -> (r: Vec<ColSpec>)
    ensures
        r@ == bond_cols(),
{
    let mut v: Vec<ColSpec> = Vec::new();
    v.push(ColSpec::Int32(5));
    v.push(ColSpec::Int32(5));
    proof {
        assert(v@ =~= bond_cols());
    }
    v
}

/// The monomer energy layout: four width-24 floats, two width-12 ints.
pub open spec fn monomer_cols() -> Seq<ColSpec> {
    seq![
        ColSpec::Float64(24),
        ColSpec::Float64(24),
        ColSpec::Float64(24),
        ColSpec::Float64(24),
        ColSpec::Int32(12),
        ColSpec::Int32(12),
    ]
}

fn monomer_cols_vec() -> (r: Vec<ColSpec>)
    ensures
        r@ == monomer_cols(),
{
    let mut v: Vec<ColSpec> = Vec::new();
    v.push(ColSpec::Float64(24));
    v.push(ColSpec::Float64(24));
    v.push(ColSpec::Float64(24));
    v.push(ColSpec::Float64(24));
    v.push(ColSpec::Int32(12));
    v.push(ColSpec::Int32(12));
    proof {
        assert(v@ =~= monomer_cols());
    }
    v
}

/// The dimer energy layout: fifteen width-24 floats.
pub open spec fn dimer_cols() -> Seq<ColSpec> {
    Seq::new(15, |j: int| ColSpec::Float64(24))
}

fn dimer_cols_vec() -> (r: Vec<ColSpec>)
    ensures
        r@ == dimer_cols(),
{
    let mut v: Vec<ColSpec> = Vec::new();
    let mut i: usize = 0;
    while i < 15
        invariant
            i <= 15,
            v@.len() == i,
            forall|k: int| 0 <= k < v@.len() ==> v@[k] == ColSpec::Float64(24),
        decreases 15 - i,
    {
        v.push(ColSpec::Float64(24));
        i = i + 1;
    }
    proof {
        assert(v@ =~= dimer_cols());
    }
    v
}

/// What one atom line yields.
pub open spec fn atom_of_line(line: Seq<u8>) -> Result<AtomModel<Seq<u8>>, ErrorModel> {
    match decode_cols_spec(line, atom_cols()) {
        Err(e) => Err(e),
        Ok(fs) => Ok(
            AtomModel {
                index: fv_int(fs, 0),
                element: fv_str(fs, 1),
                atom_type: fv_str(fs, 2),
                res_name: fv_str(fs, 3),
                res_index: fv_int(fs, 4),
                frag_index: fv_int(fs, 5),
                x: fv_tok(fs, 6),
                y: fv_tok(fs, 7),
                z: fv_tok(fs, 8),
                hf_mulliken: fv_tok(fs, 9),
                mp2_mulliken: fv_tok(fs, 10),
                hf_nbo: fv_tok(fs, 11),
                mp2_nbo: fv_tok(fs, 12),
                hf_esp: fv_tok(fs, 13),
                mp2_esp: fv_tok(fs, 14),
            },
        ),
    }
}

/// What one splitted-bond line yields.
pub open spec fn bond_of_line(line: Seq<u8>) -> Result<SplittedBond, ErrorModel> {
    match decode_cols_spec(line, bond_cols()) {
        Err(e) => Err(e),
        Ok(fs) => Ok(SplittedBond { bda: fv_int(fs, 0), baa: fv_int(fs, 1) }),
    }
}

/// What one distance line yields: the third whitespace token, a float.
pub open spec fn dist_of_line(line: Seq<u8>) -> Result<Seq<u8>, ErrorModel> {
    let toks = tokens_from(line, 0);
    if toks.len() < 3 {
        Err(ErrorModel::InvalidFormat("distance"@))
    } else if float_ok(toks[2]) {
        Ok(toks[2])
    } else {
        Err(ErrorModel::ParseFloat)
    }
}

/// What one dipole line yields: six floats, the HF then the MP2 vector.
pub open spec fn dipole_of_line(line: Seq<u8>) -> Result<
    (Vec3Model<Seq<u8>>, Vec3Model<Seq<u8>>),
    ErrorModel,
> {
    let toks = tokens_from(line, 0);
    if toks.len() == 6 && (forall|j: int| 0 <= j < 6 ==> float_ok(toks[j])) {
        Ok(
            (
                Vec3Model { x: toks[0], y: toks[1], z: toks[2] },
                Vec3Model { x: toks[3], y: toks[4], z: toks[5] },
            ),
        )
    } else {
        Err(ErrorModel::InvalidFormat("dipole"@))
    }
}

/// What one monomer energy line yields.
pub open spec fn monomer_of_line(line: Seq<u8>) -> Result<
    (Seq<u8>, Seq<u8>, Seq<u8>, Seq<u8>, i32, i32),
    ErrorModel,
> {
    match decode_cols_spec(line, monomer_cols()) {
        Err(e) => Err(e),
        Ok(fs) => Ok(
            (fv_tok(fs, 0), fv_tok(fs, 1), fv_tok(fs, 2), fv_tok(fs, 3), fv_int(fs, 4), fv_int(
                fs,
                5,
            )),
        ),
    }
}

/// What one dimer energy line yields: its fifteen channel tokens.
pub open spec fn dimer_of_line(line: Seq<u8>) -> Result<Seq<Seq<u8>>, ErrorModel> {
    match decode_cols_spec(line, dimer_cols()) {
        Err(e) => Err(e),
        Ok(fs) => Ok(Seq::new(15, |j: int| fv_tok(fs, j))),
    }
}

pub open spec fn atom_row() -> spec_fn(Seq<u8>) -> Result<AtomModel<Seq<u8>>, ErrorModel> {
    |l: Seq<u8>| atom_of_line(l)
}

pub open spec fn bond_row() -> spec_fn(Seq<u8>) -> Result<SplittedBond, ErrorModel> {
    |l: Seq<u8>| bond_of_line(l)
}

pub open spec fn dist_row() -> spec_fn(Seq<u8>) -> Result<Seq<u8>, ErrorModel> {
    |l: Seq<u8>| dist_of_line(l)
}

pub open spec fn dipole_row() -> spec_fn(Seq<u8>) -> Result<
    (Vec3Model<Seq<u8>>, Vec3Model<Seq<u8>>),
    ErrorModel,
> {
    |l: Seq<u8>| dipole_of_line(l)
}

pub open spec fn monomer_row() -> spec_fn(Seq<u8>) -> Result<
    (Seq<u8>, Seq<u8>, Seq<u8>, Seq<u8>, i32, i32),
    ErrorModel,
> {
    |l: Seq<u8>| monomer_of_line(l)
}

pub open spec fn dimer_row() -> spec_fn(Seq<u8>) -> Result<Seq<Seq<u8>>, ErrorModel> {
    |l: Seq<u8>| dimer_of_line(l)
}

pub open spec fn packed16_row() -> spec_fn(Seq<u8>) -> Result<Seq<i32>, ErrorModel> {
    |l: Seq<u8>| packed_prefix(l, 16)
}

/// Concatenation of all blocks of a packed-list section.
pub open spec fn concat_all(bs: Seq<Seq<i32>>) -> Seq<i32>
    decreases bs.len(),
{
    if bs.len() == 0 {
        Seq::empty()
    } else {
        concat_all(bs.drop_last()) + bs.last()
    }
}

/// Packed integer list over `nf` values, 16 width-5 values per line; the
/// last line holds the remainder and is consumed even when it is empty.
pub open spec fn size16_spec(lines: Seq<Seq<u8>>, pos: int, nf: int) -> Result<
    (Seq<i32>, int),
    ErrorModel,
> {
    match rows_prefix(lines, pos, nf / 16, packed16_row()) {
        Err(e) => Err(e),
        Ok(blocks) => {
            let p2 = pos + nf / 16;
            if p2 >= lines.len() {
                Err(ErrorModel::UnexpectedEnd)
            } else {
                match packed_prefix(lines[p2], nf % 16) {
                    Err(e) => Err(e),
                    Ok(w) => Ok((concat_all(blocks) + w, p2 + 1)),
                }
            }
        },
    }
}

pub proof fn lemma_rows_prefix_len<T>(
    lines: Seq<Seq<u8>>,
    pos: int,
    k: int,
    row: spec_fn(Seq<u8>) -> Result<T, ErrorModel>,
)
    requires
        0 <= k,
        rows_prefix(lines, pos, k, row) is Ok,
    ensures
        rows_prefix(lines, pos, k, row)->Ok_0.len() == k,
    decreases k,
{
    if k > 0 {
        assert(rows_prefix(lines, pos, k - 1, row) is Ok) by {
            if rows_prefix(lines, pos, k - 1, row) is Err {
            }
        }
        lemma_rows_prefix_len(lines, pos, k - 1, row);
    }
}

/// Every row of a successful section decodes its own line.
pub proof fn lemma_rows_prefix_index<T>(
    lines: Seq<Seq<u8>>,
    pos: int,
    k: int,
    row: spec_fn(Seq<u8>) -> Result<T, ErrorModel>,
)
    requires
        0 <= k,
        rows_prefix(lines, pos, k, row) is Ok,
    ensures
        rows_prefix(lines, pos, k, row)->Ok_0.len() == k,
        pos + k <= lines.len() || k == 0,
        forall|i: int|
            0 <= i < k ==> (#[trigger] row(lines[pos + i])) is Ok && rows_prefix(
                lines,
                pos,
                k,
                row,
            )->Ok_0[i] == row(lines[pos + i])->Ok_0,
    decreases k,
{
    if k > 0 {
        lemma_rows_prefix_index(lines, pos, k - 1, row);
        let vs = rows_prefix(lines, pos, k, row)->Ok_0;
        let pre = rows_prefix(lines, pos, k - 1, row)->Ok_0;
        assert(vs == pre.push(row(lines[pos + k - 1])->Ok_0));
        assert forall|i: int|
            0 <= i < k implies (#[trigger] row(lines[pos + i])) is Ok && vs[i] == row(
                lines[pos + i],
            )->Ok_0 by {
            if i < k - 1 {
                assert(vs[i] == pre[i]);
            }
        }
    }
}

/// A trimmed free-text line.
pub open spec fn trimline_spec(lines: Seq<Seq<u8>>, pos: int) -> Result<(Seq<u8>, int), ErrorModel> {
    if pos >= lines.len() {
        Err(ErrorModel::UnexpectedEnd)
    } else {
        Ok((trim_spec(lines[pos]), pos + 1))
    }
}

/// A line holding a single trimmed float.
pub open spec fn floatline_spec(lines: Seq<Seq<u8>>, pos: int) -> Result<
    (Seq<u8>, int),
    ErrorModel,
> {
    if pos >= lines.len() {
        Err(ErrorModel::UnexpectedEnd)
    } else if float_ok(trim_spec(lines[pos])) {
        Ok((trim_spec(lines[pos]), pos + 1))
    } else {
        Err(ErrorModel::ParseFloat)
    }
}

/// The approximation-parameter line: exactly three whitespace-delimited
/// floats.
pub open spec fn approx_spec(lines: Seq<Seq<u8>>, pos: int) -> Result<
    ((Seq<u8>, Seq<u8>, Seq<u8>), int),
    ErrorModel,
> {
    if pos >= lines.len() {
        Err(ErrorModel::UnexpectedEnd)
    } else {
        let toks = tokens_from(lines[pos], 0);
        if toks.len() == 3 && (forall|j: int| 0 <= j < 3 ==> float_ok(toks[j])) {
            Ok(((toks[0], toks[1], toks[2]), pos + 1))
        } else {
            Err(ErrorModel::InvalidFormat("approx"@))
        }
    }
}

/// Fragment membership built from the first `k` atoms: bucket `f` holds
/// the 0-based positions of the atoms with `frag_index == f + 1`, in
/// ascending order; an out-of-range fragment index is a grammar error.
pub open spec fn buckets_prefix(atoms: Seq<AtomModel<Seq<u8>>>, nf: int, k: int) -> Result<
    Seq<Seq<i32>>,
    ErrorModel,
>
    decreases k,
{
    if k <= 0 {
        Ok(
            Seq::new(
                if nf >= 0 {
                    nf as nat
                } else {
                    0
                },
                |i: int| Seq::<i32>::empty(),
            ),
        )
    } else {
        match buckets_prefix(atoms, nf, k - 1) {
            Err(e) => Err(e),
            Ok(bs) => {
                let f = atoms[k - 1].frag_index as int;
                if 1 <= f <= nf {
                    Ok(bs.update(f - 1, bs[f - 1].push((k - 1) as i32)))
                } else {
                    Err(ErrorModel::InvalidFormat("fragment"@))
                }
            },
        }
    }
}

pub proof fn lemma_buckets_prefix_err(atoms: Seq<AtomModel<Seq<u8>>>, nf: int, k: int, n: int)
    requires
        0 <= k <= n,
        buckets_prefix(atoms, nf, k) is Err,
    ensures
        buckets_prefix(atoms, nf, n) == buckets_prefix(atoms, nf, k),
    decreases n - k,
{
    if k < n {
        lemma_buckets_prefix_err(atoms, nf, k + 1, n);
    }
}

/// Sum of the attached-bond counts.
pub open spec fn sum_i32(s: Seq<i32>) -> int
    decreases s.len(),
{
    if s.len() == 0 {
        0
    } else {
        sum_i32(s.drop_last()) + s.last()
    }
}

/// Number of splitted-bond lines that follow: the sum, read as zero
/// when negative.
pub open spec fn bonds_count(s: Seq<i32>) -> int {
    if sum_i32(s) < 0 {
        0
    } else {
        sum_i32(s)
    }
}

pub proof fn lemma_concat_all_len(bs: Seq<Seq<i32>>, m: int)
    requires
        forall|i: int| 0 <= i < bs.len() ==> #[trigger] bs[i].len() == m,
        m >= 0,
    ensures
        concat_all(bs).len() == m * bs.len(),
    decreases bs.len(),
{
    if bs.len() > 0 {
        assert(bs.drop_last() =~= bs.subrange(0, bs.len() - 1));
        lemma_concat_all_len(bs.drop_last(), m);
        assert(m * bs.len() == m * (bs.len() - 1) + m) by (nonlinear_arith);
    }
}

/// A successful packed-list section yields exactly `nf` values.
pub proof fn lemma_size16_len(lines: Seq<Seq<u8>>, pos: int, nf: int)
    requires
        0 <= nf,
        size16_spec(lines, pos, nf) is Ok,
    ensures
        size16_spec(lines, pos, nf)->Ok_0.0.len() == nf,
{
    let blocks = rows_prefix(lines, pos, nf / 16, packed16_row())->Ok_0;
    lemma_rows_prefix_index(lines, pos, nf / 16, packed16_row());
    assert forall|i: int| 0 <= i < blocks.len() implies #[trigger] blocks[i].len() == 16 by {
        assert(blocks[i] == packed16_row()(lines[pos + i])->Ok_0);
        lemma_packed_prefix_len(lines[pos + i], 16);
    }
    lemma_concat_all_len(blocks, 16);
    let p2 = pos + nf / 16;
    lemma_packed_prefix_len(lines[p2], nf % 16);
    assert(16 * (nf / 16) + nf % 16 == nf);
}

/// Number of unordered fragment pairs among `nf` fragments.
pub open spec fn n_dimers(nf: int) -> int {
    if nf <= 0 {
        0
    } else {
        nf * (nf - 1) / 2
    }
}

/// First plain-space position at or after `from`.
fn find_blank(s: &[u8], from: usize) -> (r: usize)
    requires
        from <= s@.len(),
    ensures
        r == scan(s@, from as int, blank_p()),
    decreases s@.len() - from,
{
    if from == s.len() {
        from
    } else if s[from] == 32 {
        from
    } else {
        find_blank(s, from + 1)
    }
}

/// First carriage-return or line-feed position at or after `from`.
fn find_crlf(s: &[u8], from: usize) -> (r: usize)
    requires
        from <= s@.len(),
    ensures
        r == scan(s@, from as int, crlf_p()),
    decreases s@.len() - from,
{
    if from == s.len() {
        from
    } else if s[from] == 13 || s[from] == 10 {
        from
    } else {
        find_crlf(s, from + 1)
    }
}

/// Parse up to `cnt` width-5 integers packed on one line.
fn parse_packed_line(line: &[u8], cnt: usize) -> (r: Result<Vec<i32>, Error>)
    requires
        cnt <= 16,
    ensures
        match r {
            Ok(v) => packed_prefix(line@, cnt as int) == Ok::<_, ErrorModel>(v@),
            Err(e) => packed_prefix(line@, cnt as int) == Err::<Seq<i32>, _>(e@),
        },
{
    let mut out: Vec<i32> = Vec::new();
    let mut j: usize = 0;
    while j < cnt
        invariant
            j <= cnt <= 16,
            packed_prefix(line@, j as int) == Ok::<_, ErrorModel>(out@),
        decreases cnt - j,
    {
        let piece = slice_vec(line, 5 * j, 5);
        let t = trim_bytes(piece.as_slice());
        match parse_i32(t.as_slice()) {
            Some(v) => {
                out.push(v);
            },
            None => {
                proof {
                    lemma_packed_prefix_err(line@, j + 1, cnt as int);
                }
                return Err(Error::ParseInt);
            },
        }
        j = j + 1;
    }
    Ok(out)
}

/// Line-by-line driver through the CPF grammar. `lines` is the whole
/// input split into lines; `pos` the next line to read.
pub struct CPFParser {
    pub lines: Vec<Vec<u8>>,
    pub pos: usize,
    pub num_frags: usize,
}

impl CPFParser {
    /// The input as a sequence of line contents.
    pub open spec fn lv(&self) -> Seq<Seq<u8>> {
        self.lines@.map_values(|l: Vec<u8>| l@)
    }

    pub fn new(lines: Vec<Vec<u8>>) -> (r: Self)
        ensures
            r.lines == lines,
            r.pos == 0,
            r.num_frags == 0,
    {
        CPFParser { lines, pos: 0, num_frags: 0 }
    }

    /// Hand out the next line, or fail once the input is exhausted.
    pub fn next_line(&mut self) -> (r: Result<Vec<u8>, Error>)
        ensures
            final(self).lines == old(self).lines,
            final(self).num_frags == old(self).num_frags,
            match r {
                Ok(l) => old(self).pos < old(self).lv().len() && final(self).pos == old(self).pos
                    + 1 && l@ == old(self).lv()[old(self).pos as int],
                Err(e) => old(self).pos >= old(self).lv().len() && e@ == ErrorModel::UnexpectedEnd
                    && final(self).pos == old(self).pos,
            },
    {
        if self.pos < self.lines.len() {
            let l = &self.lines[self.pos];
            let r = subrange_vec(l.as_slice(), 0, l.len());
            self.pos = self.pos + 1;
            Ok(r)
        } else {
            Err(Error::UnexpectedEnd)
        }
    }

    /// Header line: 8 filler characters, the version token, the comment.
    pub fn parse_version(&mut self) -> (r: Result<(Vec<u8>, Vec<u8>), Error>)
        ensures
            final(self).lines == old(self).lines,
            final(self).num_frags == old(self).num_frags,
            match r {
                Ok(vc) => header_spec(old(self).lv(), old(self).pos as int) == Ok::<_, ErrorModel>(
                    ((vc.0@, vc.1@), final(self).pos as int),
                ),
                Err(e) => header_spec(old(self).lv(), old(self).pos as int) == Err::<
                    ((Seq<u8>, Seq<u8>), int),
                    _,
                >(e@),
            },
    {
        let line = match self.next_line() {
            Ok(l) => l,
            Err(e) => {
                return Err(e);
            },
        };
        let ls = line.as_slice();
        let vs: usize = if 8 <= ls.len() {
            8
        } else {
            ls.len()
        };
        let ve = find_blank(ls, vs);
        proof {
            lemma_scan(line@, vs as int, blank_p());
        }
        let version = subrange_vec(ls, vs, ve);
        let cs: usize = if ve < ls.len() {
            ve + 1
        } else {
            ve
        };
        let ce = find_crlf(ls, cs);
        proof {
            lemma_scan(line@, cs as int, crlf_p());
        }
        let comments = subrange_vec(ls, cs, ce);
        Ok((version, comments))
    }

    /// Packed list of `num_frags` integers, 16 per line; the trailing
    /// remainder line is consumed even when `num_frags` is a multiple
    /// of 16.
    pub fn parse_size16(&mut self, num_frags: usize) -> (r: Result<Vec<i32>, Error>)
        ensures
            final(self).lines == old(self).lines,
            final(self).num_frags == old(self).num_frags,
            match r {
                Ok(v) => size16_spec(old(self).lv(), old(self).pos as int, num_frags as int)
                    == Ok::<_, ErrorModel>((v@, final(self).pos as int)),
                Err(e) => size16_spec(old(self).lv(), old(self).pos as int, num_frags as int)
                    == Err::<(Seq<i32>, int), _>(e@),
            },
    {
        let ghost lines = old(self).lv();
        let ghost pos0 = old(self).pos as int;
        let blocks_n: usize = num_frags / 16;
        let mut vals: Vec<i32> = Vec::new();
        let ghost mut blocks: Seq<Seq<i32>> = Seq::empty();
        let mut b: usize = 0;
        while b < blocks_n
            invariant
                b <= blocks_n,
                blocks_n == num_frags as int / 16,
                self.lines == old(self).lines,
                self.num_frags == old(self).num_frags,
                self.pos as int == pos0 + b,
                lines == old(self).lv(),
                pos0 == old(self).pos as int,
                rows_prefix(lines, pos0, b as int, packed16_row()) == Ok::<_, ErrorModel>(blocks),
                vals@ == concat_all(blocks),
            decreases blocks_n - b,
        {
            let line = match self.next_line() {
                Ok(l) => l,
                Err(e) => {
                    proof {
                        lemma_rows_prefix_err(lines, pos0, b + 1, blocks_n as int, packed16_row());
                    }
                    return Err(e);
                },
            };
            let mut w = match parse_packed_line(line.as_slice(), 16) {
                Ok(w) => w,
                Err(e) => {
                    proof {
                        lemma_rows_prefix_err(lines, pos0, b + 1, blocks_n as int, packed16_row());
                    }
                    return Err(e);
                },
            };
            proof {
                blocks = blocks.push(w@);
                assert(blocks.drop_last() =~= rows_prefix(
                    lines,
                    pos0,
                    b as int,
                    packed16_row(),
                )->Ok_0);
            }
            vals.append(&mut w);
            b = b + 1;
        }
        let rem: usize = num_frags % 16;
        let line = match self.next_line() {
            Ok(l) => l,
            Err(e) => {
                return Err(e);
            },
        };
        let mut w = match parse_packed_line(line.as_slice(), rem) {
            Ok(w) => w,
            Err(e) => {
                return Err(e);
            },
        };
        vals.append(&mut w);
        Ok(vals)
    }

    /// Number of dimer records that follow from the fragment count.
    pub fn len_dimers(&self) -> (r: usize)
        requires
            (self.num_frags as int) * (self.num_frags as int - 1) <= usize::MAX as int,
        ensures
            r as int == n_dimers(self.num_frags as int),
    {
        if self.num_frags == 0 {
            0
        } else {
            self.num_frags * (self.num_frags - 1) / 2
        }
    }
}

impl CheckPointFile<Vec<u8>> {
    /// Parse a whole CPF input: split it into lines, then drive the
    /// grammar over them.
    pub fn parse(input: &[u8]) -> (r: Result<Self, Error>)
        ensures
            match r {
                Ok(c) => parse_input_spec(input@) == Ok::<_, ErrorModel>(c@),
                Err(e) => parse_input_spec(input@) == Err::<CheckPointFileModel<Seq<u8>>, _>(e@),
            },
    {
        let lines = split_lines(input);
        let parser = CPFParser::new(lines);
        parser.parse()
    }
}

impl SplittedBond {
    /// Parse one splitted-bond line: two width-5 integers.
    pub fn parse(line: &[u8]) -> (r: Result<Self, Error>)
        ensures
            match r {
                Ok(b) => bond_of_line(line@) == Ok::<_, ErrorModel>(b),
                Err(e) => bond_of_line(line@) == Err::<SplittedBond, _>(e@),
            },
    {
        let cols = bond_cols_vec();
        match decode_cols(line, cols.as_slice()) {
            Err(e) => Err(e),
            Ok(fs) => Ok(SplittedBond { bda: get_int(&fs, 0), baa: get_int(&fs, 1) }),
        }
    }
}

impl Atom<Vec<u8>> {
    /// Parse one atom line against the 21-column layout.
    pub fn parse(line: &[u8]) -> (r: Result<Self, Error>)
        ensures
            match r {
                Ok(a) => atom_of_line(line@) == Ok::<_, ErrorModel>(a@),
                Err(e) => atom_of_line(line@) == Err::<AtomModel<Seq<u8>>, _>(e@),
            },
    {
        let cols = atom_cols_vec();
        match decode_cols(line, cols.as_slice()) {
            Err(e) => Err(e),
            Ok(fs) => Ok(
                Atom {
                    index: get_int(&fs, 0),
                    element: get_str(&fs, 1),
                    atom_type: get_str(&fs, 2),
                    res_name: get_str(&fs, 3),
                    res_index: get_int(&fs, 4),
                    frag_index: get_int(&fs, 5),
                    x: get_tok(&fs, 6),
                    y: get_tok(&fs, 7),
                    z: get_tok(&fs, 8),
                    hf_mulliken: get_tok(&fs, 9),
                    mp2_mulliken: get_tok(&fs, 10),
                    hf_nbo: get_tok(&fs, 11),
                    mp2_nbo: get_tok(&fs, 12),
                    hf_esp: get_tok(&fs, 13),
                    mp2_esp: get_tok(&fs, 14),
                },
            ),
        }
    }
}

/// A successful decode means every shorter column prefix succeeded.
pub proof fn lemma_dec_prefix_ok_at(line: Seq<u8>, cols: Seq<ColSpec>, k: int, n: int)
    requires
        0 <= k <= n,
        dec_prefix(line, cols, n) is Ok,
    ensures
        dec_prefix(line, cols, k) is Ok,
{
    if dec_prefix(line, cols, k) is Err {
        lemma_dec_prefix_err(line, cols, k, n);
    }
}

/// Every coordinate and charge of a successfully parsed atom is a
/// validated float literal.
#[verifier::rlimit(100)]
pub proof fn lemma_atom_floats(line: Seq<u8>)
    requires
        atom_of_line(line) is Ok,
    ensures
        float_ok(atom_of_line(line)->Ok_0.x),
        float_ok(atom_of_line(line)->Ok_0.y),
        float_ok(atom_of_line(line)->Ok_0.z),
        float_ok(atom_of_line(line)->Ok_0.hf_mulliken),
        float_ok(atom_of_line(line)->Ok_0.mp2_mulliken),
        float_ok(atom_of_line(line)->Ok_0.hf_nbo),
        float_ok(atom_of_line(line)->Ok_0.mp2_nbo),
        float_ok(atom_of_line(line)->Ok_0.hf_esp),
        float_ok(atom_of_line(line)->Ok_0.mp2_esp),
{
    let cols = atom_cols();
    let n = cols.len() as int;
    assert forall|k: int| 0 <= k <= n implies #[trigger] dec_prefix(line, cols, k) is Ok by {
        lemma_dec_prefix_ok_at(line, cols, k, n);
    }
    assert(dec_prefix(line, cols, 0)->Ok_0.0.len() == 0);
    assert(dec_prefix(line, cols, 1)->Ok_0.0.len() == 1);
    assert(dec_prefix(line, cols, 2)->Ok_0.0.len() == 1);
    assert(dec_prefix(line, cols, 3)->Ok_0.0.len() == 2);
    assert(dec_prefix(line, cols, 4)->Ok_0.0.len() == 2);
    assert(dec_prefix(line, cols, 5)->Ok_0.0.len() == 3);
    assert(dec_prefix(line, cols, 6)->Ok_0.0.len() == 3);
    assert(dec_prefix(line, cols, 7)->Ok_0.0.len() == 4);
    assert(dec_prefix(line, cols, 8)->Ok_0.0.len() == 4);
    assert(dec_prefix(line, cols, 9)->Ok_0.0.len() == 5);
    assert(dec_prefix(line, cols, 10)->Ok_0.0.len() == 5);
    assert(dec_prefix(line, cols, 11)->Ok_0.0.len() == 6);
    assert(dec_prefix(line, cols, 12)->Ok_0.0.len() == 6);
    assert(dec_prefix(line, cols, 13)->Ok_0.0.len() == 7);
    assert(dec_prefix(line, cols, 14)->Ok_0.0.len() == 8);
    assert(dec_prefix(line, cols, 15)->Ok_0.0.len() == 9);
    assert(dec_prefix(line, cols, 16)->Ok_0.0.len() == 10);
    assert(dec_prefix(line, cols, 17)->Ok_0.0.len() == 11);
    assert(dec_prefix(line, cols, 18)->Ok_0.0.len() == 12);
    assert(dec_prefix(line, cols, 19)->Ok_0.0.len() == 13);
    assert(dec_prefix(line, cols, 20)->Ok_0.0.len() == 14);
    assert(dec_prefix(line, cols, 21)->Ok_0.0.len() == 15);
    let fs = dec_prefix(line, cols, 21)->Ok_0.0;
    assert forall|j: int| 13 <= j <= 21 implies (#[trigger] dec_prefix(line, cols, j)->Ok_0.0[j
        - 7]) is Float && float_ok(crate::columns::fv_float(
        dec_prefix(line, cols, j)->Ok_0.0[j - 7],
    )) by {
        assert(cols[j - 1] matches ColSpec::Float64(w));
    }
    assert forall|j: int| 13 <= j <= 21 implies fs[j - 7] == dec_prefix(line, cols, j)->Ok_0.0[j
        - 7] by {
        lemma_dec_prefix_tail_stable(line, cols, j, 21, j - 7);
    }
}

/// Once produced, a field is never changed by later columns.
pub proof fn lemma_dec_prefix_tail_stable(
    line: Seq<u8>,
    cols: Seq<ColSpec>,
    k: int,
    n: int,
    idx: int,
)
    requires
        0 <= k <= n,
        dec_prefix(line, cols, n) is Ok,
        0 <= idx < dec_prefix(line, cols, k)->Ok_0.0.len(),
    ensures
        dec_prefix(line, cols, n)->Ok_0.0[idx] == dec_prefix(line, cols, k)->Ok_0.0[idx],
    decreases n - k,
{
    lemma_dec_prefix_ok_at(line, cols, k, n);
    if k < n {
        lemma_dec_prefix_ok_at(line, cols, n - 1, n);
        lemma_dec_prefix_tail_stable(line, cols, k, n - 1, idx);
        lemma_dec_prefix_len_grows(line, cols, k, n - 1);
    }
}

/// Field counts never shrink as more columns decode.
pub proof fn lemma_dec_prefix_len_grows(line: Seq<u8>, cols: Seq<ColSpec>, k: int, n: int)
    requires
        0 <= k <= n,
        dec_prefix(line, cols, n) is Ok,
    ensures
        dec_prefix(line, cols, k)->Ok_0.0.len() <= dec_prefix(line, cols, n)->Ok_0.0.len(),
    decreases n - k,
{
    lemma_dec_prefix_ok_at(line, cols, k, n);
    if k < n {
        lemma_dec_prefix_ok_at(line, cols, n - 1, n);
        lemma_dec_prefix_len_grows(line, cols, k, n - 1);
    }
}

/// The four energies of a successfully parsed monomer row are
/// validated float literals.
pub proof fn lemma_monomer_floats(line: Seq<u8>)
    requires
        monomer_of_line(line) is Ok,
    ensures
        float_ok(monomer_of_line(line)->Ok_0.0),
        float_ok(monomer_of_line(line)->Ok_0.1),
        float_ok(monomer_of_line(line)->Ok_0.2),
        float_ok(monomer_of_line(line)->Ok_0.3),
{
    let cols = monomer_cols();
    let n = cols.len() as int;
    assert forall|k: int| 0 <= k <= n implies #[trigger] dec_prefix(line, cols, k) is Ok by {
        lemma_dec_prefix_ok_at(line, cols, k, n);
    }
    assert(dec_prefix(line, cols, 0)->Ok_0.0.len() == 0);
    assert(dec_prefix(line, cols, 1)->Ok_0.0.len() == 1);
    assert(dec_prefix(line, cols, 2)->Ok_0.0.len() == 2);
    assert(dec_prefix(line, cols, 3)->Ok_0.0.len() == 3);
    assert(dec_prefix(line, cols, 4)->Ok_0.0.len() == 4);
    assert(dec_prefix(line, cols, 5)->Ok_0.0.len() == 5);
    assert(dec_prefix(line, cols, 6)->Ok_0.0.len() == 6);
    let fs = dec_prefix(line, cols, 6)->Ok_0.0;
    assert forall|j: int| 1 <= j <= 4 implies (#[trigger] dec_prefix(line, cols, j)->Ok_0.0[j
        - 1]) is Float && float_ok(crate::columns::fv_float(
        dec_prefix(line, cols, j)->Ok_0.0[j - 1],
    )) by {
        assert(cols[j - 1] matches ColSpec::Float64(w));
    }
    assert forall|j: int| 1 <= j <= 4 implies fs[j - 1] == dec_prefix(line, cols, j)->Ok_0.0[j
        - 1] by {
        lemma_dec_prefix_tail_stable(line, cols, j, 6, j - 1);
    }
}

/// Every channel of a successfully parsed dimer row is a validated
/// float literal.
pub proof fn lemma_dimer_floats(line: Seq<u8>)
    requires
        dimer_of_line(line) is Ok,
    ensures
        forall|j: int| 0 <= j < 15 ==> float_ok(#[trigger] dimer_of_line(line)->Ok_0[j]),
{
    let cols = dimer_cols();
    crate::columns::lemma_dec_prefix_all_float(line, cols, 15);
}

/// What parsing the whole line sequence yields: the complete model, or
/// the first failure, section by section in the grammar's fixed order.
pub open spec fn parse_lines_spec(lines: Seq<Seq<u8>>) -> Result<
    CheckPointFileModel<Seq<u8>>,
    ErrorModel,
> {
    match header_spec(lines, 0) {
        Err(e) => Err(e),
        Ok(((version, comments), p1)) => match counts_spec(lines, p1) {
            Err(e) => Err(e),
            Ok(((na, nf), p2)) => match rows_prefix(lines, p2, na as int, atom_row()) {
                Err(e) => Err(e),
                Ok(atoms) => match buckets_prefix(atoms, nf as int, na as int) {
                    Err(e) => Err(e),
                    Ok(atom_indices) => match size16_spec(lines, p2 + na, nf as int) {
                        Err(e) => Err(e),
                        Ok((num_electrons, p4)) => match size16_spec(lines, p4, nf as int) {
                            Err(e) => Err(e),
                            Ok((num_attached, p5)) => match rows_prefix(
                                lines,
                                p5,
                                bonds_count(num_attached),
                                bond_row(),
                            ) {
                                Err(e) => Err(e),
                                Ok(bonds) => match rows_prefix(
                                    lines,
                                    p5 + bonds_count(num_attached),
                                    n_dimers(nf as int),
                                    dist_row(),
                                ) {
                                    Err(e) => Err(e),
                                    Ok(dists) => parse_tail_spec(
                                        lines,
                                        p5 + bonds_count(num_attached) + n_dimers(nf as int),
                                        na,
                                        nf,
                                        version,
                                        comments,
                                        atoms,
                                        atom_indices,
                                        num_electrons,
                                        num_attached,
                                        bonds,
                                        dists,
                                    ),
                                },
                            },
                        },
                    },
                },
            },
        },
    }
}

/// The sections after the distances: dipoles, the free-text lines, the
/// approximation parameters, the system energies, and the two energy
/// blocks, assembled into the model.
pub open spec fn parse_tail_spec(
    lines: Seq<Seq<u8>>,
    pos: int,
    na: usize,
    nf: usize,
    version: Seq<u8>,
    comments: Seq<u8>,
    atoms: Seq<AtomModel<Seq<u8>>>,
    atom_indices: Seq<Seq<i32>>,
    num_electrons: Seq<i32>,
    num_attached: Seq<i32>,
    bonds: Seq<SplittedBond>,
    dists: Seq<Seq<u8>>,
) -> Result<CheckPointFileModel<Seq<u8>>, ErrorModel> {
    match rows_prefix(lines, pos, nf as int, dipole_row()) {
        Err(e) => Err(e),
        Ok(dips) => match trimline_spec(lines, pos + nf) {
            Err(e) => Err(e),
            Ok((level, p9)) => match trimline_spec(lines, p9) {
                Err(e) => Err(e),
                Ok((electronic_state, p10)) => match trimline_spec(lines, p10) {
                    Err(e) => Err(e),
                    Ok((basisset, p11)) => match approx_spec(lines, p11) {
                        Err(e) => Err(e),
                        Ok(((ap0, ap1, ap2), p12)) => match floatline_spec(lines, p12) {
                            Err(e) => Err(e),
                            Ok((se_rep, p13)) => match floatline_spec(lines, p13) {
                                Err(e) => Err(e),
                                Ok((se_ele, p14)) => match floatline_spec(lines, p14) {
                                    Err(e) => Err(e),
                                    Ok((se_tot, p15)) => match rows_prefix(
                                        lines,
                                        p15,
                                        nf as int,
                                        monomer_row(),
                                    ) {
                                        Err(e) => Err(e),
                                        Ok(mrows) => match rows_prefix(
                                            lines,
                                            p15 + nf,
                                            n_dimers(nf as int),
                                            dimer_row(),
                                        ) {
                                            Err(e) => Err(e),
                                            Ok(drows) => Ok(
                                                CheckPointFileModel {
                                                    version,
                                                    comments,
                                                    num_atoms: na as i32,
                                                    num_frags: nf as i32,
                                                    atoms,
                                                    monomers: MonomersModel {
                                                        atom_indices,
                                                        num_electrons,
                                                        num_attached,
                                                        hf_dipoles: dips.map_values(
                                                            |p: (
                                                                Vec3Model<Seq<u8>>,
                                                                Vec3Model<Seq<u8>>,
                                                            )| p.0,
                                                        ),
                                                        mp2_dipoles: dips.map_values(
                                                            |p: (
                                                                Vec3Model<Seq<u8>>,
                                                                Vec3Model<Seq<u8>>,
                                                            )| p.1,
                                                        ),
                                                        nuclear_repulsion: mrows.map_values(
                                                            |t: (
                                                                Seq<u8>,
                                                                Seq<u8>,
                                                                Seq<u8>,
                                                                Seq<u8>,
                                                                i32,
                                                                i32,
                                                            )| t.0,
                                                        ),
                                                        electronic: mrows.map_values(
                                                            |t: (
                                                                Seq<u8>,
                                                                Seq<u8>,
                                                                Seq<u8>,
                                                                Seq<u8>,
                                                                i32,
                                                                i32,
                                                            )| t.1,
                                                        ),
                                                        mp2: mrows.map_values(
                                                            |t: (
                                                                Seq<u8>,
                                                                Seq<u8>,
                                                                Seq<u8>,
                                                                Seq<u8>,
                                                                i32,
                                                                i32,
                                                            )| t.2,
                                                        ),
                                                        mp3: mrows.map_values(
                                                            |t: (
                                                                Seq<u8>,
                                                                Seq<u8>,
                                                                Seq<u8>,
                                                                Seq<u8>,
                                                                i32,
                                                                i32,
                                                            )| t.3,
                                                        ),
                                                        ao: mrows.map_values(
                                                            |t: (
                                                                Seq<u8>,
                                                                Seq<u8>,
                                                                Seq<u8>,
                                                                Seq<u8>,
                                                                i32,
                                                                i32,
                                                            )| t.4,
                                                        ),
                                                        mo: mrows.map_values(
                                                            |t: (
                                                                Seq<u8>,
                                                                Seq<u8>,
                                                                Seq<u8>,
                                                                Seq<u8>,
                                                                i32,
                                                                i32,
                                                            )| t.5,
                                                        ),
                                                    },
                                                    splitted_bonds: bonds,
                                                    dimers: DimersModel {
                                                        distances: dists,
                                                        nuclear_repulsion: drows.map_values(
                                                            |t: Seq<Seq<u8>>| t[0],
                                                        ),
                                                        electronic: drows.map_values(
                                                            |t: Seq<Seq<u8>>| t[1],
                                                        ),
                                                        electrostatic: drows.map_values(
                                                            |t: Seq<Seq<u8>>| t[2],
                                                        ),
                                                        mp2: drows.map_values(
                                                            |t: Seq<Seq<u8>>| t[3],
                                                        ),
                                                        scs_mp2: drows.map_values(
                                                            |t: Seq<Seq<u8>>| t[4],
                                                        ),
                                                        mp3: drows.map_values(
                                                            |t: Seq<Seq<u8>>| t[5],
                                                        ),
                                                        scs_mp3: drows.map_values(
                                                            |t: Seq<Seq<u8>>| t[6],
                                                        ),
                                                        hf_bsse: drows.map_values(
                                                            |t: Seq<Seq<u8>>| t[7],
                                                        ),
                                                        mp2_bsse: drows.map_values(
                                                            |t: Seq<Seq<u8>>| t[8],
                                                        ),
                                                        scs_mp2_bsse: drows.map_values(
                                                            |t: Seq<Seq<u8>>| t[9],
                                                        ),
                                                        mp3_bsse: drows.map_values(
                                                            |t: Seq<Seq<u8>>| t[10],
                                                        ),
                                                        scs_mp3_bsse: drows.map_values(
                                                            |t: Seq<Seq<u8>>| t[11],
                                                        ),
                                                        exchange_repulsion: drows.map_values(
                                                            |t: Seq<Seq<u8>>| t[12],
                                                        ),
                                                        charge_transfer: drows.map_values(
                                                            |t: Seq<Seq<u8>>| t[13],
                                                        ),
                                                        qij: drows.map_values(
                                                            |t: Seq<Seq<u8>>| t[14],
                                                        ),
                                                    },
                                                    level,
                                                    electronic_state,
                                                    basisset,
                                                    approx_params: ApproxParamsModel {
                                                        ao_population: ap0,
                                                        point_charge: ap1,
                                                        dimer_es: ap2,
                                                    },
                                                    system_energy: SystemEnergyModel {
                                                        nuclear_repulsion: se_rep,
                                                        electronic: se_ele,
                                                        total: se_tot,
                                                    },
                                                },
                                            ),
                                        },
                                    },
                                },
                            },
                        },
                    },
                },
            },
        },
    }
}

/// What parsing a whole input byte stream yields.
pub open spec fn parse_input_spec(input: Seq<u8>) -> Result<
    CheckPointFileModel<Seq<u8>>,
    ErrorModel,
> {
    parse_lines_spec(crate::text::lines_from(input, 0))
}

/// Owned copy of a byte vector.
fn copy_bytes(v: &Vec<u8>) -> (r: Vec<u8>)
    ensures
        r@ == v@,
{
    let r = subrange_vec(v.as_slice(), 0, v.len());
    proof {
        assert(v@.subrange(0, v@.len() as int) =~= v@);
    }
    r
}

/// The four monomer energy channels and the two orbital counts, one
/// entry per fragment.
pub struct MonomerChannels {
    pub nuclear_repulsion: Vec<Vec<u8>>,
    pub electronic: Vec<Vec<u8>>,
    pub mp2: Vec<Vec<u8>>,
    pub mp3: Vec<Vec<u8>>,
    pub ao: Vec<i32>,
    pub mo: Vec<i32>,
}

/// The fifteen dimer energy channels, one entry per fragment pair.
pub struct EnergyChannels {
    pub nuclear_repulsion: Vec<Vec<u8>>,
    pub electronic: Vec<Vec<u8>>,
    pub electrostatic: Vec<Vec<u8>>,
    pub mp2: Vec<Vec<u8>>,
    pub scs_mp2: Vec<Vec<u8>>,
    pub mp3: Vec<Vec<u8>>,
    pub scs_mp3: Vec<Vec<u8>>,
    pub hf_bsse: Vec<Vec<u8>>,
    pub mp2_bsse: Vec<Vec<u8>>,
    pub scs_mp2_bsse: Vec<Vec<u8>>,
    pub mp3_bsse: Vec<Vec<u8>>,
    pub scs_mp3_bsse: Vec<Vec<u8>>,
    pub exchange_repulsion: Vec<Vec<u8>>,
    pub charge_transfer: Vec<Vec<u8>>,
    pub qij: Vec<Vec<u8>>,
}

/// Fragment membership lists, built from the atoms' fragment indices.
pub fn build_atom_indices(atoms: &Vec<Atom<Vec<u8>>>, num_frags: usize) -> (r: Result<
    Vec<Vec<i32>>,
    Error,
>)
    requires
        atoms@.len() < 0x8000_0000,
    ensures
        match r {
            Ok(b) => buckets_prefix(
                atoms@.map_values(|a: Atom<Vec<u8>>| a@),
                num_frags as int,
                atoms@.len() as int,
            ) == Ok::<_, ErrorModel>(b@.map_values(|v: Vec<i32>| v@)),
            Err(e) => buckets_prefix(
                atoms@.map_values(|a: Atom<Vec<u8>>| a@),
                num_frags as int,
                atoms@.len() as int,
            ) == Err::<Seq<Seq<i32>>, _>(e@),
        },
{
    let ghost ams = atoms@.map_values(|a: Atom<Vec<u8>>| a@);
    let mut buckets: Vec<Vec<i32>> = Vec::new();
    let mut f: usize = 0;
    while f < num_frags
        invariant
            f <= num_frags,
            buckets@.len() == f,
            forall|k: int| 0 <= k < f ==> #[trigger] buckets@[k]@ == Seq::<i32>::empty(),
        decreases num_frags - f,
    {
        buckets.push(Vec::new());
        f = f + 1;
    }
    proof {
        assert(buckets@.map_values(|v: Vec<i32>| v@) =~= Seq::new(
            num_frags as nat,
            |i: int| Seq::<i32>::empty(),
        ));
    }
    let mut i: usize = 0;
    while i < atoms.len()
        invariant
            i <= atoms@.len() < 0x8000_0000,
            ams == atoms@.map_values(|a: Atom<Vec<u8>>| a@),
            buckets@.len() == num_frags,
            buckets_prefix(ams, num_frags as int, i as int) == Ok::<_, ErrorModel>(
                buckets@.map_values(|v: Vec<i32>| v@),
            ),
        decreases atoms@.len() - i,
    {
        let fi = atoms[i].frag_index;
        if 1 <= fi && fi as usize <= num_frags {
            let b: usize = (fi as usize) - 1;
            let ghost pre = buckets@.map_values(|v: Vec<i32>| v@);
            let mut row = buckets.remove(b);
            row.push(i as i32);
            buckets.insert(b, row);
            proof {
                assert(buckets@.map_values(|v: Vec<i32>| v@) =~= pre.update(
                    b as int,
                    pre[b as int].push(i as i32),
                ));
            }
        } else {
            proof {
                lemma_buckets_prefix_err(ams, num_frags as int, i + 1, ams.len() as int);
            }
            return Err(Error::InvalidFormat("fragment"));
        }
        i = i + 1;
    }
    proof {
        assert(ams.len() == atoms@.len());
    }
    Ok(buckets)
}

/// Sum of the attached-bond counts, wide enough never to overflow.
pub fn sum_attached(s: &Vec<i32>) -> (r: i64)
    requires
        s@.len() <= 100000,
    ensures
        r as int == sum_i32(s@),
{
    let mut acc: i64 = 0;
    let mut i: usize = 0;
    while i < s.len()
        invariant
            i <= s@.len() <= 100000,
            acc as int == sum_i32(s@.take(i as int)),
            -(i as int) * 0x8000_0000 <= acc as int <= (i as int) * 0x8000_0000,
        decreases s@.len() - i,
    {
        proof {
            assert(s@.take(i + 1).drop_last() =~= s@.take(i as int));
            assert((i as int + 1) * 0x8000_0000 == (i as int) * 0x8000_0000 + 0x8000_0000)
                by (nonlinear_arith);
            assert(-(i as int + 1) * 0x8000_0000 == -(i as int) * 0x8000_0000 - 0x8000_0000)
                by (nonlinear_arith);
        }
        acc = acc + (s[i] as i64);
        i = i + 1;
    }
    proof {
        assert(s@.take(s@.len() as int) =~= s@);
    }
    acc
}

impl CPFParser {
    /// Counts line: `num_atoms` and `num_frags`, two width-5 columns.
    pub fn parse_counts(&mut self) -> (r: Result<(usize, usize), Error>)
        ensures
            final(self).lines == old(self).lines,
            final(self).num_frags == old(self).num_frags,
            match r {
                Ok(c) => counts_spec(old(self).lv(), old(self).pos as int) == Ok::<_, ErrorModel>(
                    ((c.0, c.1), final(self).pos as int),
                ) && c.0 < 100000 && c.1 < 100000,
                Err(e) => counts_spec(old(self).lv(), old(self).pos as int) == Err::<
                    ((usize, usize), int),
                    _,
                >(e@),
            },
    {
        let line = match self.next_line() {
            Ok(l) => l,
            Err(e) => {
                return Err(e);
            },
        };
        let t1 = trim_bytes(slice_vec(line.as_slice(), 0, 5).as_slice());
        let na = match parse_usize(t1.as_slice()) {
            Some(v) => v,
            None => {
                return Err(Error::ParseInt);
            },
        };
        let t2 = trim_bytes(slice_vec(line.as_slice(), 5, 5).as_slice());
        let nf = match parse_usize(t2.as_slice()) {
            Some(v) => v,
            None => {
                return Err(Error::ParseInt);
            },
        };
        proof {
            crate::text::lemma_trim_len(slice_at(line@, 0, 5));
            crate::text::lemma_trim_len(slice_at(line@, 5, 5));
            crate::text::lemma_uint_of_width5(trim_spec(slice_at(line@, 0, 5)));
            crate::text::lemma_uint_of_width5(trim_spec(slice_at(line@, 5, 5)));
        }
        Ok((na, nf))
    }

    /// Atom section: exactly `num_atoms` lines in the 21-column layout.
    pub fn parse_atoms(&mut self, num_atoms: usize) -> (r: Result<Vec<Atom<Vec<u8>>>, Error>)
        ensures
            final(self).lines == old(self).lines,
            final(self).num_frags == old(self).num_frags,
            match r {
                Ok(v) => rows_prefix(old(self).lv(), old(self).pos as int, num_atoms as int, atom_row())
                    == Ok::<_, ErrorModel>(v@.map_values(|a: Atom<Vec<u8>>| a@)) && final(self).pos
                    as int == old(self).pos + num_atoms && v@.len() == num_atoms,
                Err(e) => rows_prefix(old(self).lv(), old(self).pos as int, num_atoms as int, atom_row())
                    == Err::<Seq<AtomModel<Seq<u8>>>, _>(e@),
            },
    {
        let ghost lines = old(self).lv();
        let ghost pos0 = old(self).pos as int;
        let mut out: Vec<Atom<Vec<u8>>> = Vec::new();
        proof {
            assert(out@.map_values(|a: Atom<Vec<u8>>| a@) =~= Seq::<AtomModel<Seq<u8>>>::empty());
        }
        let mut i: usize = 0;
        while i < num_atoms
            invariant
                i <= num_atoms,
                self.lines == old(self).lines,
                self.num_frags == old(self).num_frags,
                self.pos as int == pos0 + i,
                lines == old(self).lv(),
                pos0 == old(self).pos as int,
                out@.len() == i,
                rows_prefix(lines, pos0, i as int, atom_row()) == Ok::<_, ErrorModel>(
                    out@.map_values(|a: Atom<Vec<u8>>| a@),
                ),
            decreases num_atoms - i,
        {
            let line = match self.next_line() {
                Ok(l) => l,
                Err(e) => {
                    proof {
                        lemma_rows_prefix_err(lines, pos0, i + 1, num_atoms as int, atom_row());
                    }
                    return Err(e);
                },
            };
            let ghost pre = out@.map_values(|a: Atom<Vec<u8>>| a@);
            match Atom::parse(line.as_slice()) {
                Ok(a) => {
                    let ghost av = a@;
                    out.push(a);
                    proof {
                        assert(out@.map_values(|a: Atom<Vec<u8>>| a@) =~= pre.push(av));
                    }
                },
                Err(e) => {
                    proof {
                        lemma_rows_prefix_err(lines, pos0, i + 1, num_atoms as int, atom_row());
                    }
                    return Err(e);
                },
            }
            i = i + 1;
        }
        Ok(out)
    }

    /// Splitted-bond section: `count` two-integer lines.
    pub fn parse_bonds(&mut self, count: u64) -> (r: Result<Vec<SplittedBond>, Error>)
        ensures
            final(self).lines == old(self).lines,
            final(self).num_frags == old(self).num_frags,
            match r {
                Ok(v) => rows_prefix(old(self).lv(), old(self).pos as int, count as int, bond_row())
                    == Ok::<_, ErrorModel>(v@) && final(self).pos as int == old(self).pos + count,
                Err(e) => rows_prefix(old(self).lv(), old(self).pos as int, count as int, bond_row())
                    == Err::<Seq<SplittedBond>, _>(e@),
            },
    {
        let ghost lines = old(self).lv();
        let ghost pos0 = old(self).pos as int;
        let mut out: Vec<SplittedBond> = Vec::new();
        let mut i: u64 = 0;
        while i < count
            invariant
                i <= count,
                self.lines == old(self).lines,
                self.num_frags == old(self).num_frags,
                self.pos as int == pos0 + i,
                lines == old(self).lv(),
                pos0 == old(self).pos as int,
                rows_prefix(lines, pos0, i as int, bond_row()) == Ok::<_, ErrorModel>(out@),
            decreases count - i,
        {
            let line = match self.next_line() {
                Ok(l) => l,
                Err(e) => {
                    proof {
                        lemma_rows_prefix_err(lines, pos0, i + 1, count as int, bond_row());
                    }
                    return Err(e);
                },
            };
            match SplittedBond::parse(line.as_slice()) {
                Ok(b) => {
                    out.push(b);
                },
                Err(e) => {
                    proof {
                        lemma_rows_prefix_err(lines, pos0, i + 1, count as int, bond_row());
                    }
                    return Err(e);
                },
            }
            i = i + 1;
        }
        Ok(out)
    }

    /// Distance section: `count` whitespace-delimited lines, the third
    /// token of each being the pair's distance.
    pub fn parse_distances(&mut self, count: u64) -> (r: Result<Vec<Vec<u8>>, Error>)
        ensures
            final(self).lines == old(self).lines,
            final(self).num_frags == old(self).num_frags,
            match r {
                Ok(v) => rows_prefix(old(self).lv(), old(self).pos as int, count as int, dist_row())
                    == Ok::<_, ErrorModel>(v@.map_values(|t: Vec<u8>| t@)) && final(self).pos as int
                    == old(self).pos + count,
                Err(e) => rows_prefix(old(self).lv(), old(self).pos as int, count as int, dist_row())
                    == Err::<Seq<Seq<u8>>, _>(e@),
            },
    {
        let ghost lines = old(self).lv();
        let ghost pos0 = old(self).pos as int;
        let mut out: Vec<Vec<u8>> = Vec::new();
        proof {
            assert(out@.map_values(|t: Vec<u8>| t@) =~= Seq::<Seq<u8>>::empty());
        }
        let mut i: u64 = 0;
        while i < count
            invariant
                i <= count,
                self.lines == old(self).lines,
                self.num_frags == old(self).num_frags,
                self.pos as int == pos0 + i,
                lines == old(self).lv(),
                pos0 == old(self).pos as int,
                rows_prefix(lines, pos0, i as int, dist_row()) == Ok::<_, ErrorModel>(
                    out@.map_values(|t: Vec<u8>| t@),
                ),
            decreases count - i,
        {
            let line = match self.next_line() {
                Ok(l) => l,
                Err(e) => {
                    proof {
                        lemma_rows_prefix_err(lines, pos0, i + 1, count as int, dist_row());
                    }
                    return Err(e);
                },
            };
            let toks = split_ws(line.as_slice());
            if toks.len() < 3 {
                proof {
                    lemma_rows_prefix_err(lines, pos0, i + 1, count as int, dist_row());
                }
                return Err(Error::InvalidFormat("distance"));
            }
            let t = copy_bytes(&toks[2]);
            if !is_float_text(t.as_slice()) {
                proof {
                    lemma_rows_prefix_err(lines, pos0, i + 1, count as int, dist_row());
                }
                return Err(Error::ParseFloat);
            }
            let ghost pre = out@.map_values(|t: Vec<u8>| t@);
            let ghost tv = t@;
            out.push(t);
            proof {
                assert(out@.map_values(|t: Vec<u8>| t@) =~= pre.push(tv));
            }
            i = i + 1;
        }
        Ok(out)
    }

    /// Dipole section: `num_frags` lines of exactly six floats, the HF
    /// vector then the MP2 vector.
    pub fn parse_dipoles(&mut self, num_frags: usize) -> (r: Result<
        (Vec<Vec3<Vec<u8>>>, Vec<Vec3<Vec<u8>>>),
        Error,
    >)
        ensures
            final(self).lines == old(self).lines,
            final(self).num_frags == old(self).num_frags,
            match r {
                Ok(v) => {
                    let rows = rows_prefix(
                        old(self).lv(),
                        old(self).pos as int,
                        num_frags as int,
                        dipole_row(),
                    );
                    &&& rows is Ok
                    &&& v.0@.map_values(|d: Vec3<Vec<u8>>| d@) == rows->Ok_0.map_values(
                        |p: (Vec3Model<Seq<u8>>, Vec3Model<Seq<u8>>)| p.0,
                    )
                    &&& v.1@.map_values(|d: Vec3<Vec<u8>>| d@) == rows->Ok_0.map_values(
                        |p: (Vec3Model<Seq<u8>>, Vec3Model<Seq<u8>>)| p.1,
                    )
                    &&& final(self).pos as int == old(self).pos + num_frags
                },
                Err(e) => rows_prefix(
                    old(self).lv(),
                    old(self).pos as int,
                    num_frags as int,
                    dipole_row(),
                ) == Err::<Seq<(Vec3Model<Seq<u8>>, Vec3Model<Seq<u8>>)>, _>(e@),
            },
    {
        let ghost lines = old(self).lv();
        let ghost pos0 = old(self).pos as int;
        let mut hfs: Vec<Vec3<Vec<u8>>> = Vec::new();
        let mut mp2s: Vec<Vec3<Vec<u8>>> = Vec::new();
        let ghost mut rows: Seq<(Vec3Model<Seq<u8>>, Vec3Model<Seq<u8>>)> = Seq::empty();
        proof {
            assert(hfs@.map_values(|d: Vec3<Vec<u8>>| d@) =~= rows.map_values(
                |p: (Vec3Model<Seq<u8>>, Vec3Model<Seq<u8>>)| p.0,
            ));
            assert(mp2s@.map_values(|d: Vec3<Vec<u8>>| d@) =~= rows.map_values(
                |p: (Vec3Model<Seq<u8>>, Vec3Model<Seq<u8>>)| p.1,
            ));
        }
        let mut i: usize = 0;
        while i < num_frags
            invariant
                i <= num_frags,
                self.lines == old(self).lines,
                self.num_frags == old(self).num_frags,
                self.pos as int == pos0 + i,
                lines == old(self).lv(),
                pos0 == old(self).pos as int,
                rows_prefix(lines, pos0, i as int, dipole_row()) == Ok::<_, ErrorModel>(rows),
                hfs@.map_values(|d: Vec3<Vec<u8>>| d@) == rows.map_values(
                    |p: (Vec3Model<Seq<u8>>, Vec3Model<Seq<u8>>)| p.0,
                ),
                mp2s@.map_values(|d: Vec3<Vec<u8>>| d@) == rows.map_values(
                    |p: (Vec3Model<Seq<u8>>, Vec3Model<Seq<u8>>)| p.1,
                ),
            decreases num_frags - i,
        {
            let line = match self.next_line() {
                Ok(l) => l,
                Err(e) => {
                    proof {
                        lemma_rows_prefix_err(lines, pos0, i + 1, num_frags as int, dipole_row());
                    }
                    return Err(e);
                },
            };
            let toks = split_ws(line.as_slice());
            let ghost tv = toks@.map_values(|t: Vec<u8>| t@);
            let mut ok = toks.len() == 6;
            let mut j: usize = 0;
            while j < toks.len() && ok
                invariant
                    j <= toks@.len(),
                    tv == toks@.map_values(|t: Vec<u8>| t@),
                    ok ==> forall|k: int| 0 <= k < j ==> #[trigger] float_ok(tv[k]),
                    ok ==> toks@.len() == 6,
                    !ok ==> tv.len() != 6 || exists|k: int|
                        0 <= k < tv.len() && !(#[trigger] float_ok(tv[k])),
                decreases toks@.len() - j,
            {
                if !is_float_text(toks[j].as_slice()) {
                    proof {
                        assert(0 <= j < tv.len() && !float_ok(tv[j as int]));
                    }
                    ok = false;
                }
                j = j + 1;
            }
            if !ok {
                proof {
                    lemma_rows_prefix_err(lines, pos0, i + 1, num_frags as int, dipole_row());
                }
                return Err(Error::InvalidFormat("dipole"));
            }
            let hf = Vec3::new(copy_bytes(&toks[0]), copy_bytes(&toks[1]), copy_bytes(&toks[2]));
            let mp2 = Vec3::new(copy_bytes(&toks[3]), copy_bytes(&toks[4]), copy_bytes(&toks[5]));
            let ghost prehf = hfs@.map_values(|d: Vec3<Vec<u8>>| d@);
            let ghost premp2 = mp2s@.map_values(|d: Vec3<Vec<u8>>| d@);
            let ghost hfv = hf@;
            let ghost mp2v = mp2@;
            hfs.push(hf);
            mp2s.push(mp2);
            proof {
                rows = rows.push((hfv, mp2v));
                assert(hfs@.map_values(|d: Vec3<Vec<u8>>| d@) =~= prehf.push(hfv));
                assert(mp2s@.map_values(|d: Vec3<Vec<u8>>| d@) =~= premp2.push(mp2v));
                assert(rows.map_values(|p: (Vec3Model<Seq<u8>>, Vec3Model<Seq<u8>>)| p.0)
                    =~= rows.drop_last().map_values(
                    |p: (Vec3Model<Seq<u8>>, Vec3Model<Seq<u8>>)| p.0,
                ).push(hfv));
                assert(rows.map_values(|p: (Vec3Model<Seq<u8>>, Vec3Model<Seq<u8>>)| p.1)
                    =~= rows.drop_last().map_values(
                    |p: (Vec3Model<Seq<u8>>, Vec3Model<Seq<u8>>)| p.1,
                ).push(mp2v));
                assert(rows.drop_last() =~= rows_prefix(
                    lines,
                    pos0,
                    i as int,
                    dipole_row(),
                )->Ok_0);
            }
            i = i + 1;
        }
        Ok((hfs, mp2s))
    }

    /// Monomer energy block: `num_frags` fixed-width lines of four
    /// floats and two integers.
    pub fn parse_monomer_rows(&mut self, num_frags: usize) -> (r: Result<MonomerChannels, Error>)
        ensures
            final(self).lines == old(self).lines,
            final(self).num_frags == old(self).num_frags,
            match r {
                Ok(c) => {
                    let rows = rows_prefix(
                        old(self).lv(),
                        old(self).pos as int,
                        num_frags as int,
                        monomer_row(),
                    );
                    &&& rows is Ok
                    &&& c.nuclear_repulsion@.map_values(|t: Vec<u8>| t@) == rows->Ok_0.map_values(
                        |t: (Seq<u8>, Seq<u8>, Seq<u8>, Seq<u8>, i32, i32)| t.0,
                    )
                    &&& c.electronic@.map_values(|t: Vec<u8>| t@) == rows->Ok_0.map_values(
                        |t: (Seq<u8>, Seq<u8>, Seq<u8>, Seq<u8>, i32, i32)| t.1,
                    )
                    &&& c.mp2@.map_values(|t: Vec<u8>| t@) == rows->Ok_0.map_values(
                        |t: (Seq<u8>, Seq<u8>, Seq<u8>, Seq<u8>, i32, i32)| t.2,
                    )
                    &&& c.mp3@.map_values(|t: Vec<u8>| t@) == rows->Ok_0.map_values(
                        |t: (Seq<u8>, Seq<u8>, Seq<u8>, Seq<u8>, i32, i32)| t.3,
                    )
                    &&& c.ao@ == rows->Ok_0.map_values(
                        |t: (Seq<u8>, Seq<u8>, Seq<u8>, Seq<u8>, i32, i32)| t.4,
                    )
                    &&& c.mo@ == rows->Ok_0.map_values(
                        |t: (Seq<u8>, Seq<u8>, Seq<u8>, Seq<u8>, i32, i32)| t.5,
                    )
                    &&& final(self).pos as int == old(self).pos + num_frags
                },
                Err(e) => rows_prefix(
                    old(self).lv(),
                    old(self).pos as int,
                    num_frags as int,
                    monomer_row(),
                ) == Err::<Seq<(Seq<u8>, Seq<u8>, Seq<u8>, Seq<u8>, i32, i32)>, _>(e@),
            },
    {
        let ghost lines = old(self).lv();
        let ghost pos0 = old(self).pos as int;
        let cols = monomer_cols_vec();
        let mut repls: Vec<Vec<u8>> = Vec::new();
        let mut eles: Vec<Vec<u8>> = Vec::new();
        let mut mp2s: Vec<Vec<u8>> = Vec::new();
        let mut mp3s: Vec<Vec<u8>> = Vec::new();
        let mut aos: Vec<i32> = Vec::new();
        let mut mos: Vec<i32> = Vec::new();
        let ghost mut rows: Seq<(Seq<u8>, Seq<u8>, Seq<u8>, Seq<u8>, i32, i32)> = Seq::empty();
        proof {
            assert(repls@.map_values(|t: Vec<u8>| t@) =~= Seq::<Seq<u8>>::empty());
            assert(eles@.map_values(|t: Vec<u8>| t@) =~= Seq::<Seq<u8>>::empty());
            assert(mp2s@.map_values(|t: Vec<u8>| t@) =~= Seq::<Seq<u8>>::empty());
            assert(mp3s@.map_values(|t: Vec<u8>| t@) =~= Seq::<Seq<u8>>::empty());
        }
        let mut i: usize = 0;
        while i < num_frags
            invariant
                i <= num_frags,
                self.lines == old(self).lines,
                self.num_frags == old(self).num_frags,
                self.pos as int == pos0 + i,
                lines == old(self).lv(),
                pos0 == old(self).pos as int,
                cols@ == monomer_cols(),
                rows_prefix(lines, pos0, i as int, monomer_row()) == Ok::<_, ErrorModel>(rows),
                repls@.map_values(|t: Vec<u8>| t@) == rows.map_values(
                    |t: (Seq<u8>, Seq<u8>, Seq<u8>, Seq<u8>, i32, i32)| t.0,
                ),
                eles@.map_values(|t: Vec<u8>| t@) == rows.map_values(
                    |t: (Seq<u8>, Seq<u8>, Seq<u8>, Seq<u8>, i32, i32)| t.1,
                ),
                mp2s@.map_values(|t: Vec<u8>| t@) == rows.map_values(
                    |t: (Seq<u8>, Seq<u8>, Seq<u8>, Seq<u8>, i32, i32)| t.2,
                ),
                mp3s@.map_values(|t: Vec<u8>| t@) == rows.map_values(
                    |t: (Seq<u8>, Seq<u8>, Seq<u8>, Seq<u8>, i32, i32)| t.3,
                ),
                aos@ == rows.map_values(|t: (Seq<u8>, Seq<u8>, Seq<u8>, Seq<u8>, i32, i32)| t.4),
                mos@ == rows.map_values(|t: (Seq<u8>, Seq<u8>, Seq<u8>, Seq<u8>, i32, i32)| t.5),
            decreases num_frags - i,
        {
            let line = match self.next_line() {
                Ok(l) => l,
                Err(e) => {
                    proof {
                        lemma_rows_prefix_err(lines, pos0, i + 1, num_frags as int, monomer_row());
                    }
                    return Err(e);
                },
            };
            let fs = match decode_cols(line.as_slice(), cols.as_slice()) {
                Ok(fs) => fs,
                Err(e) => {
                    proof {
                        lemma_rows_prefix_err(lines, pos0, i + 1, num_frags as int, monomer_row());
                    }
                    return Err(e);
                },
            };
            let ghost pre0 = repls@.map_values(|t: Vec<u8>| t@);
            let ghost pre1 = eles@.map_values(|t: Vec<u8>| t@);
            let ghost pre2 = mp2s@.map_values(|t: Vec<u8>| t@);
            let ghost pre3 = mp3s@.map_values(|t: Vec<u8>| t@);
            let t0 = get_tok(&fs, 0);
            let t1 = get_tok(&fs, 1);
            let t2 = get_tok(&fs, 2);
            let t3 = get_tok(&fs, 3);
            let v4 = get_int(&fs, 4);
            let v5 = get_int(&fs, 5);
            let ghost row = (t0@, t1@, t2@, t3@, v4, v5);
            repls.push(t0);
            eles.push(t1);
            mp2s.push(t2);
            mp3s.push(t3);
            aos.push(v4);
            mos.push(v5);
            proof {
                rows = rows.push(row);
                assert(rows.drop_last() =~= rows_prefix(
                    lines,
                    pos0,
                    i as int,
                    monomer_row(),
                )->Ok_0);
                assert(repls@.map_values(|t: Vec<u8>| t@) =~= pre0.push(row.0));
                assert(eles@.map_values(|t: Vec<u8>| t@) =~= pre1.push(row.1));
                assert(mp2s@.map_values(|t: Vec<u8>| t@) =~= pre2.push(row.2));
                assert(mp3s@.map_values(|t: Vec<u8>| t@) =~= pre3.push(row.3));
                assert(rows.map_values(|t: (Seq<u8>, Seq<u8>, Seq<u8>, Seq<u8>, i32, i32)| t.0)
                    =~= rows.drop_last().map_values(
                    |t: (Seq<u8>, Seq<u8>, Seq<u8>, Seq<u8>, i32, i32)| t.0,
                ).push(row.0));
                assert(rows.map_values(|t: (Seq<u8>, Seq<u8>, Seq<u8>, Seq<u8>, i32, i32)| t.1)
                    =~= rows.drop_last().map_values(
                    |t: (Seq<u8>, Seq<u8>, Seq<u8>, Seq<u8>, i32, i32)| t.1,
                ).push(row.1));
                assert(rows.map_values(|t: (Seq<u8>, Seq<u8>, Seq<u8>, Seq<u8>, i32, i32)| t.2)
                    =~= rows.drop_last().map_values(
                    |t: (Seq<u8>, Seq<u8>, Seq<u8>, Seq<u8>, i32, i32)| t.2,
                ).push(row.2));
                assert(rows.map_values(|t: (Seq<u8>, Seq<u8>, Seq<u8>, Seq<u8>, i32, i32)| t.3)
                    =~= rows.drop_last().map_values(
                    |t: (Seq<u8>, Seq<u8>, Seq<u8>, Seq<u8>, i32, i32)| t.3,
                ).push(row.3));
                assert(rows.map_values(|t: (Seq<u8>, Seq<u8>, Seq<u8>, Seq<u8>, i32, i32)| t.4)
                    =~= rows.drop_last().map_values(
                    |t: (Seq<u8>, Seq<u8>, Seq<u8>, Seq<u8>, i32, i32)| t.4,
                ).push(row.4));
                assert(rows.map_values(|t: (Seq<u8>, Seq<u8>, Seq<u8>, Seq<u8>, i32, i32)| t.5)
                    =~= rows.drop_last().map_values(
                    |t: (Seq<u8>, Seq<u8>, Seq<u8>, Seq<u8>, i32, i32)| t.5,
                ).push(row.5));
            }
            i = i + 1;
        }
        Ok(
            MonomerChannels {
                nuclear_repulsion: repls,
                electronic: eles,
                mp2: mp2s,
                mp3: mp3s,
                ao: aos,
                mo: mos,
            },
        )
    }

    /// Dimer energy block: one line per fragment pair, fifteen
    /// width-24 floats in channel order.
    pub fn parse_dimer_rows(&mut self, count: u64) -> (r: Result<EnergyChannels, Error>)
        ensures
            final(self).lines == old(self).lines,
            final(self).num_frags == old(self).num_frags,
            match r {
                Ok(c) => {
                    let rows = rows_prefix(
                        old(self).lv(),
                        old(self).pos as int,
                        count as int,
                        dimer_row(),
                    );
                    &&& rows is Ok
                    &&& c.nuclear_repulsion@.map_values(|t: Vec<u8>| t@) == rows->Ok_0.map_values(
                        |t: Seq<Seq<u8>>| t[0],
                    )
                    &&& c.electronic@.map_values(|t: Vec<u8>| t@) == rows->Ok_0.map_values(
                        |t: Seq<Seq<u8>>| t[1],
                    )
                    &&& c.electrostatic@.map_values(|t: Vec<u8>| t@) == rows->Ok_0.map_values(
                        |t: Seq<Seq<u8>>| t[2],
                    )
                    &&& c.mp2@.map_values(|t: Vec<u8>| t@) == rows->Ok_0.map_values(
                        |t: Seq<Seq<u8>>| t[3],
                    )
                    &&& c.scs_mp2@.map_values(|t: Vec<u8>| t@) == rows->Ok_0.map_values(
                        |t: Seq<Seq<u8>>| t[4],
                    )
                    &&& c.mp3@.map_values(|t: Vec<u8>| t@) == rows->Ok_0.map_values(
                        |t: Seq<Seq<u8>>| t[5],
                    )
                    &&& c.scs_mp3@.map_values(|t: Vec<u8>| t@) == rows->Ok_0.map_values(
                        |t: Seq<Seq<u8>>| t[6],
                    )
                    &&& c.hf_bsse@.map_values(|t: Vec<u8>| t@) == rows->Ok_0.map_values(
                        |t: Seq<Seq<u8>>| t[7],
                    )
                    &&& c.mp2_bsse@.map_values(|t: Vec<u8>| t@) == rows->Ok_0.map_values(
                        |t: Seq<Seq<u8>>| t[8],
                    )
                    &&& c.scs_mp2_bsse@.map_values(|t: Vec<u8>| t@) == rows->Ok_0.map_values(
                        |t: Seq<Seq<u8>>| t[9],
                    )
                    &&& c.mp3_bsse@.map_values(|t: Vec<u8>| t@) == rows->Ok_0.map_values(
                        |t: Seq<Seq<u8>>| t[10],
                    )
                    &&& c.scs_mp3_bsse@.map_values(|t: Vec<u8>| t@) == rows->Ok_0.map_values(
                        |t: Seq<Seq<u8>>| t[11],
                    )
                    &&& c.exchange_repulsion@.map_values(|t: Vec<u8>| t@) == rows->Ok_0.map_values(
                        |t: Seq<Seq<u8>>| t[12],
                    )
                    &&& c.charge_transfer@.map_values(|t: Vec<u8>| t@) == rows->Ok_0.map_values(
                        |t: Seq<Seq<u8>>| t[13],
                    )
                    &&& c.qij@.map_values(|t: Vec<u8>| t@) == rows->Ok_0.map_values(
                        |t: Seq<Seq<u8>>| t[14],
                    )
                    &&& final(self).pos as int == old(self).pos + count
                },
                Err(e) => rows_prefix(old(self).lv(), old(self).pos as int, count as int, dimer_row())
                    == Err::<Seq<Seq<Seq<u8>>>, _>(e@),
            },
    {
        let ghost lines = old(self).lv();
        let ghost pos0 = old(self).pos as int;
        let cols = dimer_cols_vec();
        let mut chans: Vec<Vec<Vec<u8>>> = Vec::new();
        let mut ci: usize = 0;
        while ci < 15
            invariant
                ci <= 15,
                chans@.len() == ci,
                forall|k: int| 0 <= k < ci ==> (#[trigger] chans@[k])@.len() == 0,
            decreases 15 - ci,
        {
            chans.push(Vec::new());
            ci = ci + 1;
        }
        let ghost mut rows: Seq<Seq<Seq<u8>>> = Seq::empty();
        proof {
            assert forall|k: int| 0 <= k < 15 implies (#[trigger] chans@[k])@.map_values(
                |t: Vec<u8>| t@,
            ) =~= rows.map_values(|t: Seq<Seq<u8>>| t[k]) by {
                assert(chans@[k]@.map_values(|t: Vec<u8>| t@).len() == 0);
            }
        }
        let mut i: u64 = 0;
        while i < count
            invariant
                i <= count,
                self.lines == old(self).lines,
                self.num_frags == old(self).num_frags,
                self.pos as int == pos0 + i,
                lines == old(self).lv(),
                pos0 == old(self).pos as int,
                cols@ == dimer_cols(),
                chans@.len() == 15,
                rows_prefix(lines, pos0, i as int, dimer_row()) == Ok::<_, ErrorModel>(rows),
                forall|k: int|
                    0 <= k < 15 ==> (#[trigger] chans@[k])@.map_values(|t: Vec<u8>| t@)
                        == rows.map_values(|t: Seq<Seq<u8>>| t[k]),
            decreases count - i,
        {
            let line = match self.next_line() {
                Ok(l) => l,
                Err(e) => {
                    proof {
                        lemma_rows_prefix_err(lines, pos0, i + 1, count as int, dimer_row());
                    }
                    return Err(e);
                },
            };
            let fs = match decode_cols(line.as_slice(), cols.as_slice()) {
                Ok(fs) => fs,
                Err(e) => {
                    proof {
                        lemma_rows_prefix_err(lines, pos0, i + 1, count as int, dimer_row());
                    }
                    return Err(e);
                },
            };
            let ghost fsm = fs@.map_values(|f: FieldValue| f@);
            let ghost row = Seq::new(15, |j: int| fv_tok(fsm, j));
            let mut j: usize = 0;
            while j < 15
                invariant
                    j <= 15,
                    chans@.len() == 15,
                    fsm == fs@.map_values(|f: FieldValue| f@),
                    row == Seq::new(15, |jj: int| fv_tok(fsm, jj)),
                    forall|k: int|
                        j <= k < 15 ==> (#[trigger] chans@[k])@.map_values(|t: Vec<u8>| t@)
                            == rows.map_values(|t: Seq<Seq<u8>>| t[k]),
                    forall|k: int|
                        0 <= k < j ==> (#[trigger] chans@[k])@.map_values(|t: Vec<u8>| t@)
                            == rows.map_values(|t: Seq<Seq<u8>>| t[k]).push(row[k]),
                decreases 15 - j,
            {
                let t = get_tok(&fs, j);
                let ghost pre_chans = chans@;
                let ghost pre = chans@[j as int]@.map_values(|t: Vec<u8>| t@);
                let ghost tv = t@;
                let mut col = chans.remove(j);
                col.push(t);
                chans.insert(j, col);
                proof {
                    assert(chans@ =~= pre_chans.update(j as int, chans@[j as int]));
                    assert(chans@[j as int]@.map_values(|t: Vec<u8>| t@) =~= pre.push(tv));
                }
                j = j + 1;
            }
            proof {
                rows = rows.push(row);
                assert(rows.drop_last() =~= rows_prefix(lines, pos0, i as int, dimer_row())->Ok_0);
                assert forall|k: int| 0 <= k < 15 implies (#[trigger] chans@[k])@.map_values(
                    |t: Vec<u8>| t@,
                ) =~= rows.map_values(|t: Seq<Seq<u8>>| t[k]) by {
                    assert(rows.map_values(|t: Seq<Seq<u8>>| t[k]) =~= rows.drop_last().map_values(
                        |t: Seq<Seq<u8>>| t[k],
                    ).push(row[k]));
                }
            }
            i = i + 1;
        }
        let qij = chans.pop().unwrap();
        let charge_transfer = chans.pop().unwrap();
        let exchange_repulsion = chans.pop().unwrap();
        let scs_mp3_bsse = chans.pop().unwrap();
        let mp3_bsse = chans.pop().unwrap();
        let scs_mp2_bsse = chans.pop().unwrap();
        let mp2_bsse = chans.pop().unwrap();
        let hf_bsse = chans.pop().unwrap();
        let scs_mp3 = chans.pop().unwrap();
        let mp3 = chans.pop().unwrap();
        let scs_mp2 = chans.pop().unwrap();
        let mp2 = chans.pop().unwrap();
        let electrostatic = chans.pop().unwrap();
        let electronic = chans.pop().unwrap();
        let nuclear_repulsion = chans.pop().unwrap();
        Ok(
            EnergyChannels {
                nuclear_repulsion,
                electronic,
                electrostatic,
                mp2,
                scs_mp2,
                mp3,
                scs_mp3,
                hf_bsse,
                mp2_bsse,
                scs_mp2_bsse,
                mp3_bsse,
                scs_mp3_bsse,
                exchange_repulsion,
                charge_transfer,
                qij,
            },
        )
    }

    /// Drive through the whole grammar and build the model. Returns
    /// exactly what `parse_lines_spec` says of the input, error for
    /// error.
    pub fn parse(self) -> (r: Result<CheckPointFile<Vec<u8>>, Error>)
        requires
            self.pos == 0,
        ensures
            match r {
                Ok(c) => parse_lines_spec(self.lv()) == Ok::<_, ErrorModel>(c@),
                Err(e) => parse_lines_spec(self.lv()) == Err::<CheckPointFileModel<Seq<u8>>, _>(
                    e@,
                ),
            },
    {
        let ghost lines = self.lv();
        let mut p = self;
        let (version, comments) = match p.parse_version() {
            Ok(v) => v,
            Err(e) => {
                return Err(e);
            },
        };
        let (num_atoms, num_frags) = match p.parse_counts() {
            Ok(v) => v,
            Err(e) => {
                return Err(e);
            },
        };
        p.num_frags = num_frags;
        let atoms = match p.parse_atoms(num_atoms) {
            Ok(v) => v,
            Err(e) => {
                return Err(e);
            },
        };
        let atom_indices = match build_atom_indices(&atoms, num_frags) {
            Ok(v) => v,
            Err(e) => {
                return Err(e);
            },
        };
        let ghost pe = p.pos as int;
        let num_electrons = match p.parse_size16(num_frags) {
            Ok(v) => v,
            Err(e) => {
                return Err(e);
            },
        };
        let ghost pa = p.pos as int;
        let num_attached = match p.parse_size16(num_frags) {
            Ok(v) => v,
            Err(e) => {
                return Err(e);
            },
        };
        proof {
            lemma_size16_len(lines, pa, num_frags as int);
        }
        let sum = sum_attached(&num_attached);
        let nb: u64 = if sum < 0 {
            0
        } else {
            sum as u64
        };
        let bonds = match p.parse_bonds(nb) {
            Ok(v) => v,
            Err(e) => {
                return Err(e);
            },
        };
        let nd: u64 = if num_frags == 0 {
            0
        } else {
            proof {
                assert((num_frags as int) * (num_frags as int - 1) < 100000 * 100000)
                    by (nonlinear_arith)
                    requires
                        1 <= (num_frags as int) < 100000,
                ;
            }
            (num_frags as u64) * ((num_frags as u64) - 1) / 2
        };
        let dists = match p.parse_distances(nd) {
            Ok(v) => v,
            Err(e) => {
                return Err(e);
            },
        };
        let (hf_dipoles, mp2_dipoles) = match p.parse_dipoles(num_frags) {
            Ok(v) => v,
            Err(e) => {
                return Err(e);
            },
        };
        let level = match p.parse_trimmed_line() {
            Ok(v) => v,
            Err(e) => {
                return Err(e);
            },
        };
        let electronic_state = match p.parse_trimmed_line() {
            Ok(v) => v,
            Err(e) => {
                return Err(e);
            },
        };
        let basisset = match p.parse_trimmed_line() {
            Ok(v) => v,
            Err(e) => {
                return Err(e);
            },
        };
        let approx = match p.parse_approx() {
            Ok(v) => v,
            Err(e) => {
                return Err(e);
            },
        };
        let se_rep = match p.parse_float_line() {
            Ok(v) => v,
            Err(e) => {
                return Err(e);
            },
        };
        let se_ele = match p.parse_float_line() {
            Ok(v) => v,
            Err(e) => {
                return Err(e);
            },
        };
        let se_tot = match p.parse_float_line() {
            Ok(v) => v,
            Err(e) => {
                return Err(e);
            },
        };
        let mono = match p.parse_monomer_rows(num_frags) {
            Ok(v) => v,
            Err(e) => {
                return Err(e);
            },
        };
        let dch = match p.parse_dimer_rows(nd) {
            Ok(v) => v,
            Err(e) => {
                return Err(e);
            },
        };
        let cpf = CheckPointFile {
            version,
            comments,
            num_atoms: num_atoms as i32,
            num_frags: num_frags as i32,
            atoms,
            monomers: Monomers {
                atom_indices,
                num_electrons,
                num_attached,
                hf_dipoles,
                mp2_dipoles,
                nuclear_repulsion: mono.nuclear_repulsion,
                electronic: mono.electronic,
                mp2: mono.mp2,
                mp3: mono.mp3,
                ao: mono.ao,
                mo: mono.mo,
            },
            splitted_bonds: bonds,
            dimers: Dimers {
                distances: DimerData::new(dists),
                nuclear_repulsion: DimerData::new(dch.nuclear_repulsion),
                electronic: DimerData::new(dch.electronic),
                electrostatic: DimerData::new(dch.electrostatic),
                mp2: DimerData::new(dch.mp2),
                scs_mp2: DimerData::new(dch.scs_mp2),
                mp3: DimerData::new(dch.mp3),
                scs_mp3: DimerData::new(dch.scs_mp3),
                hf_bsse: DimerData::new(dch.hf_bsse),
                mp2_bsse: DimerData::new(dch.mp2_bsse),
                scs_mp2_bsse: DimerData::new(dch.scs_mp2_bsse),
                mp3_bsse: DimerData::new(dch.mp3_bsse),
                scs_mp3_bsse: DimerData::new(dch.scs_mp3_bsse),
                exchange_repulsion: DimerData::new(dch.exchange_repulsion),
                charge_transfer: DimerData::new(dch.charge_transfer),
                qij: DimerData::new(dch.qij),
            },
            level,
            electronic_state,
            basisset,
            approx_params: ApproxParams {
                ao_population: approx.0,
                point_charge: approx.1,
                dimer_es: approx.2,
            },
            system_energy: SystemEnergy {
                nuclear_repulsion: se_rep,
                electronic: se_ele,
                total: se_tot,
            },
        };
        proof {
            let m = parse_lines_spec(lines)->Ok_0;
            assert(cpf@.atoms =~= m.atoms);
            assert(cpf@.monomers.atom_indices =~= m.monomers.atom_indices);
            assert(cpf@.monomers.hf_dipoles =~= m.monomers.hf_dipoles);
            assert(cpf@.monomers.mp2_dipoles =~= m.monomers.mp2_dipoles);
            assert(cpf@.monomers.nuclear_repulsion =~= m.monomers.nuclear_repulsion);
            assert(cpf@.monomers.electronic =~= m.monomers.electronic);
            assert(cpf@.monomers.mp2 =~= m.monomers.mp2);
            assert(cpf@.monomers.mp3 =~= m.monomers.mp3);
            assert(cpf@.monomers == m.monomers);
            assert(cpf@.dimers.distances =~= m.dimers.distances);
            assert(cpf@.dimers.nuclear_repulsion =~= m.dimers.nuclear_repulsion);
            assert(cpf@.dimers.electronic =~= m.dimers.electronic);
            assert(cpf@.dimers.electrostatic =~= m.dimers.electrostatic);
            assert(cpf@.dimers.mp2 =~= m.dimers.mp2);
            assert(cpf@.dimers.scs_mp2 =~= m.dimers.scs_mp2);
            assert(cpf@.dimers.mp3 =~= m.dimers.mp3);
            assert(cpf@.dimers.scs_mp3 =~= m.dimers.scs_mp3);
            assert(cpf@.dimers.hf_bsse =~= m.dimers.hf_bsse);
            assert(cpf@.dimers.mp2_bsse =~= m.dimers.mp2_bsse);
            assert(cpf@.dimers.scs_mp2_bsse =~= m.dimers.scs_mp2_bsse);
            assert(cpf@.dimers.mp3_bsse =~= m.dimers.mp3_bsse);
            assert(cpf@.dimers.scs_mp3_bsse =~= m.dimers.scs_mp3_bsse);
            assert(cpf@.dimers.exchange_repulsion =~= m.dimers.exchange_repulsion);
            assert(cpf@.dimers.charge_transfer =~= m.dimers.charge_transfer);
            assert(cpf@.dimers.qij =~= m.dimers.qij);
            assert(cpf@.dimers == m.dimers);
            assert(cpf@ == m);
        }
        Ok(cpf)
    }

    /// One free-text line, trimmed.
    pub fn parse_trimmed_line(&mut self) -> (r: Result<Vec<u8>, Error>)
        ensures
            final(self).lines == old(self).lines,
            final(self).num_frags == old(self).num_frags,
            match r {
                Ok(v) => trimline_spec(old(self).lv(), old(self).pos as int) == Ok::<_, ErrorModel>(
                    (v@, final(self).pos as int),
                ),
                Err(e) => trimline_spec(old(self).lv(), old(self).pos as int) == Err::<
                    (Seq<u8>, int),
                    _,
                >(e@),
            },
    {
        let line = match self.next_line() {
            Ok(l) => l,
            Err(e) => {
                return Err(e);
            },
        };
        Ok(trim_bytes(line.as_slice()))
    }

    /// One line holding a single float.
    pub fn parse_float_line(&mut self) -> (r: Result<Vec<u8>, Error>)
        ensures
            final(self).lines == old(self).lines,
            final(self).num_frags == old(self).num_frags,
            match r {
                Ok(v) => floatline_spec(old(self).lv(), old(self).pos as int) == Ok::<_, ErrorModel>(
                    (v@, final(self).pos as int),
                ),
                Err(e) => floatline_spec(old(self).lv(), old(self).pos as int) == Err::<
                    (Seq<u8>, int),
                    _,
                >(e@),
            },
    {
        let line = match self.next_line() {
            Ok(l) => l,
            Err(e) => {
                return Err(e);
            },
        };
        let t = trim_bytes(line.as_slice());
        if is_float_text(t.as_slice()) {
            Ok(t)
        } else {
            Err(Error::ParseFloat)
        }
    }

    /// The approximation-parameter line: exactly three floats.
    pub fn parse_approx(&mut self) -> (r: Result<(Vec<u8>, Vec<u8>, Vec<u8>), Error>)
        ensures
            final(self).lines == old(self).lines,
            final(self).num_frags == old(self).num_frags,
            match r {
                Ok(v) => approx_spec(old(self).lv(), old(self).pos as int) == Ok::<_, ErrorModel>(
                    ((v.0@, v.1@, v.2@), final(self).pos as int),
                ),
                Err(e) => approx_spec(old(self).lv(), old(self).pos as int) == Err::<
                    ((Seq<u8>, Seq<u8>, Seq<u8>), int),
                    _,
                >(e@),
            },
    {
        let ghost lines = old(self).lv();
        let ghost pos0 = old(self).pos as int;
        let line = match self.next_line() {
            Ok(l) => l,
            Err(e) => {
                return Err(e);
            },
        };
        let toks = split_ws(line.as_slice());
        if toks.len() != 3 {
            return Err(Error::InvalidFormat("approx"));
        }
        if !is_float_text(toks[0].as_slice()) || !is_float_text(toks[1].as_slice())
            || !is_float_text(toks[2].as_slice()) {
            return Err(Error::InvalidFormat("approx"));
        }
        Ok((copy_bytes(&toks[0]), copy_bytes(&toks[1]), copy_bytes(&toks[2])))
    }
}

} // verus!
