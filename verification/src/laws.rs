//! The library's global guarantees, stated and proved once over the
//! parser's and encoder's specifications: determinism of the whole
//! conversion, the shape invariants of every parsed model, and the
//! fragment-membership characterization.

use vstd::prelude::*;
use crate::error::ErrorModel;
use crate::floatlit::float_ok;
use crate::parser::{
    atom_of_line, atom_row, bond_row, bonds_count, buckets_prefix, counts_spec, dimer_of_line,
    dimer_row, dipole_of_line, dipole_row, dist_of_line, dist_row, header_spec, lemma_atom_floats,
    lemma_dimer_floats, lemma_monomer_floats, lemma_rows_prefix_index, lemma_size16_len,
    monomer_of_line, monomer_row, n_dimers, parse_input_spec, parse_lines_spec, rows_prefix,
    size16_spec, sum_i32,
};
use crate::parser::slice_at;
use crate::serialize::enc_cpf;
use crate::text::{lemma_trim_len, lemma_uint_of_width5, trim_spec};
use crate::types::{
    ApproxParamsModel, AtomModel, CheckPointFileModel, DimersModel, MonomersModel,
    SystemEnergyModel, Vec3Model,
};

verus! {

/// An atom with every float token replaced through `conv`.
pub open spec fn atom_bits(a: AtomModel<Seq<u8>>, conv: spec_fn(Seq<u8>) -> u64) -> AtomModel<
    u64,
> {
    AtomModel {
        index: a.index,
        element: a.element,
        atom_type: a.atom_type,
        res_name: a.res_name,
        res_index: a.res_index,
        frag_index: a.frag_index,
        x: conv(a.x),
        y: conv(a.y),
        z: conv(a.z),
        hf_mulliken: conv(a.hf_mulliken),
        mp2_mulliken: conv(a.mp2_mulliken),
        hf_nbo: conv(a.hf_nbo),
        mp2_nbo: conv(a.mp2_nbo),
        hf_esp: conv(a.hf_esp),
        mp2_esp: conv(a.mp2_esp),
    }
}

pub open spec fn vec3_bits(v: Vec3Model<Seq<u8>>, conv: spec_fn(Seq<u8>) -> u64) -> Vec3Model<
    u64,
> {
    Vec3Model { x: conv(v.x), y: conv(v.y), z: conv(v.z) }
}

/// The parsed model with every float token replaced by its bit pattern
/// under a fixed token-to-bits conversion. This is the shape of the
/// value handed to the encoder once the decimal tokens have been read
/// as doubles.
pub open spec fn model_bits(
    m: CheckPointFileModel<Seq<u8>>,
    conv: spec_fn(Seq<u8>) -> u64,
) -> CheckPointFileModel<u64> {
    CheckPointFileModel {
        version: m.version,
        comments: m.comments,
        num_atoms: m.num_atoms,
        num_frags: m.num_frags,
        atoms: m.atoms.map_values(|a: AtomModel<Seq<u8>>| atom_bits(a, conv)),
        monomers: MonomersModel {
            atom_indices: m.monomers.atom_indices,
            num_electrons: m.monomers.num_electrons,
            num_attached: m.monomers.num_attached,
            hf_dipoles: m.monomers.hf_dipoles.map_values(
                |v: Vec3Model<Seq<u8>>| vec3_bits(v, conv),
            ),
            mp2_dipoles: m.monomers.mp2_dipoles.map_values(
                |v: Vec3Model<Seq<u8>>| vec3_bits(v, conv),
            ),
            nuclear_repulsion: m.monomers.nuclear_repulsion.map_values(conv),
            electronic: m.monomers.electronic.map_values(conv),
            mp2: m.monomers.mp2.map_values(conv),
            mp3: m.monomers.mp3.map_values(conv),
            ao: m.monomers.ao,
            mo: m.monomers.mo,
        },
        splitted_bonds: m.splitted_bonds,
        dimers: DimersModel {
            distances: m.dimers.distances.map_values(conv),
            nuclear_repulsion: m.dimers.nuclear_repulsion.map_values(conv),
            electronic: m.dimers.electronic.map_values(conv),
            electrostatic: m.dimers.electrostatic.map_values(conv),
            mp2: m.dimers.mp2.map_values(conv),
            scs_mp2: m.dimers.scs_mp2.map_values(conv),
            mp3: m.dimers.mp3.map_values(conv),
            scs_mp3: m.dimers.scs_mp3.map_values(conv),
            hf_bsse: m.dimers.hf_bsse.map_values(conv),
            mp2_bsse: m.dimers.mp2_bsse.map_values(conv),
            scs_mp2_bsse: m.dimers.scs_mp2_bsse.map_values(conv),
            mp3_bsse: m.dimers.mp3_bsse.map_values(conv),
            scs_mp3_bsse: m.dimers.scs_mp3_bsse.map_values(conv),
            exchange_repulsion: m.dimers.exchange_repulsion.map_values(conv),
            charge_transfer: m.dimers.charge_transfer.map_values(conv),
            qij: m.dimers.qij.map_values(conv),
        },
        level: m.level,
        electronic_state: m.electronic_state,
        basisset: m.basisset,
        approx_params: ApproxParamsModel {
            ao_population: conv(m.approx_params.ao_population),
            point_charge: conv(m.approx_params.point_charge),
            dimer_es: conv(m.approx_params.dimer_es),
        },
        system_energy: SystemEnergyModel {
            nuclear_repulsion: conv(m.system_energy.nuclear_repulsion),
            electronic: conv(m.system_energy.electronic),
            total: conv(m.system_energy.total),
        },
    }
}

/// Converting a valid CPF input twice yields byte-identical output.
///
/// `CheckPointFile::parse` returns exactly `parse_input_spec` of the
/// input bytes, the decimal float tokens are read by a fixed pointwise
/// conversion `conv` (decimal-to-double conversion depends on the token
/// characters alone), and `serialize` appends exactly `enc_cpf` of the
/// resulting model — so two runs over the same bytes produce the same
/// stream.
pub proof fn lemma_convert_deterministic(
    input: Seq<u8>,
    conv: spec_fn(Seq<u8>) -> u64,
    out1: Seq<u8>,
    out2: Seq<u8>,
)
    requires
        parse_input_spec(input) is Ok,
        out1 == enc_cpf(model_bits(parse_input_spec(input)->Ok_0, conv)),
        out2 == enc_cpf(model_bits(parse_input_spec(input)->Ok_0, conv)),
    ensures
        out1 == out2,
{
}

/// Positions (0-based) of the atoms that belong to fragment `frag`
/// (1-based), in ascending order.
pub open spec fn frag_positions(atoms: Seq<AtomModel<Seq<u8>>>, frag: int) -> Seq<i32>
    decreases atoms.len(),
{
    if atoms.len() == 0 {
        Seq::empty()
    } else if atoms.last().frag_index == frag {
        frag_positions(atoms.drop_last(), frag).push((atoms.len() - 1) as i32)
    } else {
        frag_positions(atoms.drop_last(), frag)
    }
}

proof fn lemma_buckets_are_frag_positions(atoms: Seq<AtomModel<Seq<u8>>>, nf: int, k: int)
    requires
        0 <= nf,
        0 <= k <= atoms.len(),
        buckets_prefix(atoms, nf, k) is Ok,
    ensures
        buckets_prefix(atoms, nf, k)->Ok_0.len() == nf,
        forall|f: int|
            0 <= f < nf ==> buckets_prefix(atoms, nf, k)->Ok_0[f] == #[trigger] frag_positions(
                atoms.take(k),
                f + 1,
            ),
    decreases k,
{
    if k == 0 {
        assert forall|f: int| 0 <= f < nf implies buckets_prefix(atoms, nf, k)->Ok_0[f]
            == #[trigger] frag_positions(atoms.take(k), f + 1) by {
            assert(atoms.take(0) =~= Seq::<AtomModel<Seq<u8>>>::empty());
        }
    } else {
        lemma_buckets_are_frag_positions(atoms, nf, k - 1);
        let bs = buckets_prefix(atoms, nf, k - 1)->Ok_0;
        let fr = atoms[k - 1].frag_index as int;
        assert forall|f: int| 0 <= f < nf implies buckets_prefix(atoms, nf, k)->Ok_0[f]
            == #[trigger] frag_positions(atoms.take(k), f + 1) by {
            assert(atoms.take(k).drop_last() =~= atoms.take(k - 1));
            assert(atoms.take(k).last() == atoms[k - 1]);
            if f + 1 == fr {
                assert(frag_positions(atoms.take(k), f + 1) == frag_positions(
                    atoms.take(k - 1),
                    f + 1,
                ).push((k - 1) as i32));
            } else {
                assert(frag_positions(atoms.take(k), f + 1) == frag_positions(
                    atoms.take(k - 1),
                    f + 1,
                ));
            }
        }
    }
}

/// A successful bucket pass means every atom's fragment index is in
/// range.
proof fn lemma_buckets_ok_range(atoms: Seq<AtomModel<Seq<u8>>>, nf: int, k: int)
    requires
        0 <= k,
        buckets_prefix(atoms, nf, k) is Ok,
    ensures
        forall|i: int| 0 <= i < k ==> 1 <= #[trigger] atoms[i].frag_index as int <= nf,
    decreases k,
{
    if k > 0 {
        lemma_buckets_ok_range(atoms, nf, k - 1);
    }
}

/// The shape of every parsed model: the declared counts govern every
/// sequence. The atom count equals the atom sequence's length; every
/// per-fragment array has length `num_frags`; every dimer channel has
/// length `num_frags * (num_frags - 1) / 2`; the splitted-bond list has
/// the length the attached counts dictate; and every atom's fragment
/// index lies in `1 ..= num_frags`.
#[verifier::rlimit(100)]
pub proof fn lemma_model_invariants(lines: Seq<Seq<u8>>, m: CheckPointFileModel<Seq<u8>>)
    requires
        parse_lines_spec(lines) == Ok::<_, ErrorModel>(m),
    ensures
        m.atoms.len() == m.num_atoms as int,
        m.monomers.atom_indices.len() == m.num_frags as int,
        m.monomers.num_electrons.len() == m.num_frags as int,
        m.monomers.num_attached.len() == m.num_frags as int,
        m.monomers.hf_dipoles.len() == m.num_frags as int,
        m.monomers.mp2_dipoles.len() == m.num_frags as int,
        m.monomers.nuclear_repulsion.len() == m.num_frags as int,
        m.monomers.electronic.len() == m.num_frags as int,
        m.monomers.mp2.len() == m.num_frags as int,
        m.monomers.mp3.len() == m.num_frags as int,
        m.monomers.ao.len() == m.num_frags as int,
        m.monomers.mo.len() == m.num_frags as int,
        m.splitted_bonds.len() == bonds_count(m.monomers.num_attached),
        m.dimers.distances.len() == n_dimers(m.num_frags as int),
        m.dimers.nuclear_repulsion.len() == n_dimers(m.num_frags as int),
        m.dimers.electronic.len() == n_dimers(m.num_frags as int),
        m.dimers.electrostatic.len() == n_dimers(m.num_frags as int),
        m.dimers.mp2.len() == n_dimers(m.num_frags as int),
        m.dimers.scs_mp2.len() == n_dimers(m.num_frags as int),
        m.dimers.mp3.len() == n_dimers(m.num_frags as int),
        m.dimers.scs_mp3.len() == n_dimers(m.num_frags as int),
        m.dimers.hf_bsse.len() == n_dimers(m.num_frags as int),
        m.dimers.mp2_bsse.len() == n_dimers(m.num_frags as int),
        m.dimers.scs_mp2_bsse.len() == n_dimers(m.num_frags as int),
        m.dimers.mp3_bsse.len() == n_dimers(m.num_frags as int),
        m.dimers.scs_mp3_bsse.len() == n_dimers(m.num_frags as int),
        m.dimers.exchange_repulsion.len() == n_dimers(m.num_frags as int),
        m.dimers.charge_transfer.len() == n_dimers(m.num_frags as int),
        m.dimers.qij.len() == n_dimers(m.num_frags as int),
        forall|i: int|
            0 <= i < m.atoms.len() ==> 1 <= #[trigger] m.atoms[i].frag_index as int
                <= m.num_frags as int,
{
    let p1 = header_spec(lines, 0)->Ok_0.1;
    let l = lines[p1];
    lemma_trim_len(slice_at(l, 0, 5));
    lemma_trim_len(slice_at(l, 5, 5));
    lemma_uint_of_width5(trim_spec(slice_at(l, 0, 5)));
    lemma_uint_of_width5(trim_spec(slice_at(l, 5, 5)));
    let ((na, nf), p2) = counts_spec(lines, p1)->Ok_0;
    let atoms = rows_prefix(lines, p2, na as int, atom_row())->Ok_0;
    lemma_rows_prefix_index(lines, p2, na as int, atom_row());
    lemma_buckets_are_frag_positions(atoms, nf as int, na as int);
    lemma_buckets_ok_range(atoms, nf as int, na as int);
    let p3 = p2 + na;
    lemma_size16_len(lines, p3, nf as int);
    let p4 = size16_spec(lines, p3, nf as int)->Ok_0.1;
    lemma_size16_len(lines, p4, nf as int);
    let num_attached = size16_spec(lines, p4, nf as int)->Ok_0.0;
    let p5 = size16_spec(lines, p4, nf as int)->Ok_0.1;
    lemma_rows_prefix_index(lines, p5, bonds_count(num_attached), bond_row());
    let p6 = p5 + bonds_count(num_attached);
    lemma_rows_prefix_index(lines, p6, n_dimers(nf as int), dist_row());
    let p7 = p6 + n_dimers(nf as int);
    lemma_rows_prefix_index(lines, p7, nf as int, dipole_row());
    let p8 = p7 + nf;
    let p11 = p8 + 3;
    let p15 = p11 + 4;
    lemma_rows_prefix_index(lines, p15, nf as int, monomer_row());
    lemma_rows_prefix_index(lines, p15 + nf, n_dimers(nf as int), dimer_row());
}

/// For every fragment `f`, the model's `atom_indices[f]` is exactly the
/// ascending list of 0-based positions `i` with
/// `atoms[i].frag_index == f + 1`.
#[verifier::rlimit(100)]
pub proof fn lemma_atom_indices_characterization(
    lines: Seq<Seq<u8>>,
    m: CheckPointFileModel<Seq<u8>>,
)
    requires
        parse_lines_spec(lines) == Ok::<_, ErrorModel>(m),
    ensures
        m.monomers.atom_indices.len() == m.num_frags as int,
        forall|f: int|
            0 <= f < m.num_frags as int ==> m.monomers.atom_indices[f]
                == #[trigger] frag_positions(m.atoms, f + 1),
{
    let p1 = header_spec(lines, 0)->Ok_0.1;
    let l = lines[p1];
    lemma_trim_len(slice_at(l, 0, 5));
    lemma_trim_len(slice_at(l, 5, 5));
    lemma_uint_of_width5(trim_spec(slice_at(l, 0, 5)));
    lemma_uint_of_width5(trim_spec(slice_at(l, 5, 5)));
    let ((na, nf), p2) = counts_spec(lines, p1)->Ok_0;
    let atoms = rows_prefix(lines, p2, na as int, atom_row())->Ok_0;
    lemma_rows_prefix_index(lines, p2, na as int, atom_row());
    lemma_buckets_are_frag_positions(atoms, nf as int, na as int);
    assert(atoms.take(na as int) =~= atoms);
}

/// Membership and order of `frag_positions`: it lists exactly the
/// matching positions, in strictly ascending order.
pub proof fn lemma_frag_positions_props(atoms: Seq<AtomModel<Seq<u8>>>, frag: int)
    requires
        atoms.len() < 0x8000_0000,
    ensures
        forall|j: int|
            0 <= j < frag_positions(atoms, frag).len() ==> {
                let p = #[trigger] frag_positions(atoms, frag)[j] as int;
                0 <= p < atoms.len() && atoms[p].frag_index == frag
            },
        forall|j: int|
            0 < j < frag_positions(atoms, frag).len() ==> #[trigger] frag_positions(atoms, frag)[j]
                > frag_positions(atoms, frag)[j - 1],
    decreases atoms.len(),
{
    if atoms.len() > 0 {
        lemma_frag_positions_props(atoms.drop_last(), frag);
        let fp = frag_positions(atoms, frag);
        let pre = frag_positions(atoms.drop_last(), frag);
        assert forall|j: int|
            0 <= j < fp.len() implies {
            let p = #[trigger] fp[j] as int;
            0 <= p < atoms.len() && atoms[p].frag_index == frag
        } by {
            if j < pre.len() {
                assert(fp[j] == pre[j]);
                assert(atoms.drop_last()[pre[j] as int] == atoms[pre[j] as int]);
            }
        }
        assert forall|j: int|
            0 < j < fp.len() implies #[trigger] fp[j] > fp[j - 1] by {
            if j < pre.len() {
                assert(fp[j] == pre[j] && fp[j - 1] == pre[j - 1]);
            } else if j == pre.len() && atoms.last().frag_index == frag {
                assert(fp[j - 1] == pre[j - 1]);
                assert(0 <= pre[j - 1] as int);
                assert(pre[j - 1] as int <= atoms.len() - 2);
            }
        }
    }
}

/// Every float token of a successfully parsed model is a validated
/// float literal: reading the tokens as doubles afterwards cannot fail.
#[verifier::rlimit(100)]
pub proof fn lemma_float_tokens_valid(lines: Seq<Seq<u8>>, m: CheckPointFileModel<Seq<u8>>)
    requires
        parse_lines_spec(lines) == Ok::<_, ErrorModel>(m),
    ensures
        forall|i: int|
            0 <= i < m.atoms.len() ==> {
                let a = #[trigger] m.atoms[i];
                float_ok(a.x) && float_ok(a.y) && float_ok(a.z) && float_ok(a.hf_mulliken)
                    && float_ok(a.mp2_mulliken) && float_ok(a.hf_nbo) && float_ok(a.mp2_nbo)
                    && float_ok(a.hf_esp) && float_ok(a.mp2_esp)
            },
        forall|i: int|
            0 <= i < m.monomers.hf_dipoles.len() ==> {
                let d = #[trigger] m.monomers.hf_dipoles[i];
                float_ok(d.x) && float_ok(d.y) && float_ok(d.z)
            },
        forall|i: int|
            0 <= i < m.monomers.mp2_dipoles.len() ==> {
                let d = #[trigger] m.monomers.mp2_dipoles[i];
                float_ok(d.x) && float_ok(d.y) && float_ok(d.z)
            },
        forall|i: int|
            0 <= i < m.monomers.nuclear_repulsion.len() ==> float_ok(
                #[trigger] m.monomers.nuclear_repulsion[i],
            ) && float_ok(m.monomers.electronic[i]) && float_ok(m.monomers.mp2[i]) && float_ok(
                m.monomers.mp3[i],
            ),
        forall|i: int| 0 <= i < m.dimers.distances.len() ==> float_ok(#[trigger] m.dimers.distances[i]),
        forall|i: int|
            0 <= i < m.dimers.nuclear_repulsion.len() ==> float_ok(
                #[trigger] m.dimers.nuclear_repulsion[i],
            ) && float_ok(m.dimers.electronic[i]) && float_ok(m.dimers.electrostatic[i])
                && float_ok(m.dimers.mp2[i]) && float_ok(m.dimers.scs_mp2[i]) && float_ok(
                m.dimers.mp3[i],
            ) && float_ok(m.dimers.scs_mp3[i]) && float_ok(m.dimers.hf_bsse[i]) && float_ok(
                m.dimers.mp2_bsse[i],
            ) && float_ok(m.dimers.scs_mp2_bsse[i]) && float_ok(m.dimers.mp3_bsse[i]) && float_ok(
                m.dimers.scs_mp3_bsse[i],
            ) && float_ok(m.dimers.exchange_repulsion[i]) && float_ok(m.dimers.charge_transfer[i])
                && float_ok(m.dimers.qij[i]),
        float_ok(m.approx_params.ao_population),
        float_ok(m.approx_params.point_charge),
        float_ok(m.approx_params.dimer_es),
        float_ok(m.system_energy.nuclear_repulsion),
        float_ok(m.system_energy.electronic),
        float_ok(m.system_energy.total),
{
    lemma_model_invariants(lines, m);
    let ((na, nf), p2) = counts_spec(lines, header_spec(lines, 0)->Ok_0.1)->Ok_0;
    let atoms = rows_prefix(lines, p2, na as int, atom_row())->Ok_0;
    lemma_rows_prefix_index(lines, p2, na as int, atom_row());
    assert(m.atoms == atoms);
    assert forall|i: int|
        0 <= i < m.atoms.len() implies {
        let a = #[trigger] m.atoms[i];
        float_ok(a.x) && float_ok(a.y) && float_ok(a.z) && float_ok(a.hf_mulliken) && float_ok(
            a.mp2_mulliken,
        ) && float_ok(a.hf_nbo) && float_ok(a.mp2_nbo) && float_ok(a.hf_esp) && float_ok(a.mp2_esp)
    } by {
        assert(atoms[i] == atom_row()(lines[p2 + i])->Ok_0);
        assert(atom_row()(lines[p2 + i]) == atom_of_line(lines[p2 + i]));
        lemma_atom_floats(lines[p2 + i]);
    }
    let p3 = p2 + na;
    let p4 = size16_spec(lines, p3, nf as int)->Ok_0.1;
    let num_attached = size16_spec(lines, p4, nf as int)->Ok_0.0;
    let p5 = size16_spec(lines, p4, nf as int)->Ok_0.1;
    let p6 = p5 + bonds_count(num_attached);
    let dists = rows_prefix(lines, p6, n_dimers(nf as int), dist_row())->Ok_0;
    lemma_rows_prefix_index(lines, p6, n_dimers(nf as int), dist_row());
    assert(m.dimers.distances == dists);
    assert forall|i: int|
        0 <= i < m.dimers.distances.len() implies float_ok(#[trigger] m.dimers.distances[i]) by {
        assert(dists[i] == dist_row()(lines[p6 + i])->Ok_0);
        assert(dist_row()(lines[p6 + i]) == dist_of_line(lines[p6 + i]));
    }
    let p7 = p6 + n_dimers(nf as int);
    let dips = rows_prefix(lines, p7, nf as int, dipole_row())->Ok_0;
    lemma_rows_prefix_index(lines, p7, nf as int, dipole_row());
    assert forall|i: int|
        0 <= i < m.monomers.hf_dipoles.len() implies {
        let d = #[trigger] m.monomers.hf_dipoles[i];
        float_ok(d.x) && float_ok(d.y) && float_ok(d.z)
    } by {
        assert(dips[i] == dipole_row()(lines[p7 + i])->Ok_0);
        assert(dipole_row()(lines[p7 + i]) == dipole_of_line(lines[p7 + i]));
        assert(m.monomers.hf_dipoles[i] == dips[i].0);
    }
    assert forall|i: int|
        0 <= i < m.monomers.mp2_dipoles.len() implies {
        let d = #[trigger] m.monomers.mp2_dipoles[i];
        float_ok(d.x) && float_ok(d.y) && float_ok(d.z)
    } by {
        assert(dips[i] == dipole_row()(lines[p7 + i])->Ok_0);
        assert(dipole_row()(lines[p7 + i]) == dipole_of_line(lines[p7 + i]));
        assert(m.monomers.mp2_dipoles[i] == dips[i].1);
    }
    let p8 = p7 + nf;
    let p11 = p8 + 3;
    let p15 = p11 + 4;
    let mrows = rows_prefix(lines, p15, nf as int, monomer_row())->Ok_0;
    lemma_rows_prefix_index(lines, p15, nf as int, monomer_row());
    assert forall|i: int|
        0 <= i < m.monomers.nuclear_repulsion.len() implies float_ok(
        #[trigger] m.monomers.nuclear_repulsion[i],
    ) && float_ok(m.monomers.electronic[i]) && float_ok(m.monomers.mp2[i]) && float_ok(
        m.monomers.mp3[i],
    ) by {
        assert(mrows[i] == monomer_row()(lines[p15 + i])->Ok_0);
        assert(monomer_row()(lines[p15 + i]) == monomer_of_line(lines[p15 + i]));
        assert(m.monomers.nuclear_repulsion[i] == mrows[i].0);
        assert(m.monomers.electronic[i] == mrows[i].1);
        assert(m.monomers.mp2[i] == mrows[i].2);
        assert(m.monomers.mp3[i] == mrows[i].3);
        lemma_monomer_floats(lines[p15 + i]);
    }
    let p16 = p15 + nf;
    let drows = rows_prefix(lines, p16, n_dimers(nf as int), dimer_row())->Ok_0;
    lemma_rows_prefix_index(lines, p16, n_dimers(nf as int), dimer_row());
    assert forall|i: int|
        0 <= i < m.dimers.nuclear_repulsion.len() implies float_ok(
        #[trigger] m.dimers.nuclear_repulsion[i],
    ) && float_ok(m.dimers.electronic[i]) && float_ok(m.dimers.electrostatic[i]) && float_ok(
        m.dimers.mp2[i],
    ) && float_ok(m.dimers.scs_mp2[i]) && float_ok(m.dimers.mp3[i]) && float_ok(
        m.dimers.scs_mp3[i],
    ) && float_ok(m.dimers.hf_bsse[i]) && float_ok(m.dimers.mp2_bsse[i]) && float_ok(
        m.dimers.scs_mp2_bsse[i],
    ) && float_ok(m.dimers.mp3_bsse[i]) && float_ok(m.dimers.scs_mp3_bsse[i]) && float_ok(
        m.dimers.exchange_repulsion[i],
    ) && float_ok(m.dimers.charge_transfer[i]) && float_ok(m.dimers.qij[i]) by {
        assert(drows[i] == dimer_row()(lines[p16 + i])->Ok_0);
        assert(dimer_row()(lines[p16 + i]) == dimer_of_line(lines[p16 + i]));
        assert(m.dimers.nuclear_repulsion[i] == drows[i][0]);
        assert(m.dimers.electronic[i] == drows[i][1]);
        assert(m.dimers.electrostatic[i] == drows[i][2]);
        assert(m.dimers.mp2[i] == drows[i][3]);
        assert(m.dimers.scs_mp2[i] == drows[i][4]);
        assert(m.dimers.mp3[i] == drows[i][5]);
        assert(m.dimers.scs_mp3[i] == drows[i][6]);
        assert(m.dimers.hf_bsse[i] == drows[i][7]);
        assert(m.dimers.mp2_bsse[i] == drows[i][8]);
        assert(m.dimers.scs_mp2_bsse[i] == drows[i][9]);
        assert(m.dimers.mp3_bsse[i] == drows[i][10]);
        assert(m.dimers.scs_mp3_bsse[i] == drows[i][11]);
        assert(m.dimers.exchange_repulsion[i] == drows[i][12]);
        assert(m.dimers.charge_transfer[i] == drows[i][13]);
        assert(m.dimers.qij[i] == drows[i][14]);
        lemma_dimer_floats(lines[p16 + i]);
    }
}

/// The splitted-bond list is as long as the attached counts say: their
/// sum, whenever that sum is not negative. (A file whose attached
/// counts sum to a negative number yields no bond records at all.)
pub proof fn lemma_bond_count_matches_attached(
    lines: Seq<Seq<u8>>,
    m: CheckPointFileModel<Seq<u8>>,
)
    requires
        parse_lines_spec(lines) == Ok::<_, ErrorModel>(m),
        sum_i32(m.monomers.num_attached) >= 0,
    ensures
        m.splitted_bonds.len() == sum_i32(m.monomers.num_attached),
{
    lemma_model_invariants(lines, m);
}

} // verus!
