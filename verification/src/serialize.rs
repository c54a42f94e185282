//! SVL encoder: serializes a completed `CheckPointFile` into the binary
//! tag stream. All multi-byte integers and floats are big-endian; floats
//! are taken as IEEE-754 binary64 bit patterns. Every writer states the
//! exact bytes it appends.

use vstd::prelude::*;
use crate::types::{
    Atom, AtomModel, CheckPointFile, CheckPointFileModel, SplittedBond, Vec3, Vec3Model,
};

verus! {

/// Big-endian bytes of a 32-bit value.
pub open spec fn be32(v: u32) -> Seq<u8> {
    seq![(v >> 24) as u8, (v >> 16) as u8, (v >> 8) as u8, v as u8]
}

/// Big-endian bytes of a 64-bit value.
pub open spec fn be64(v: u64) -> Seq<u8> {
    seq![
        (v >> 56) as u8,
        (v >> 48) as u8,
        (v >> 40) as u8,
        (v >> 32) as u8,
        (v >> 24) as u8,
        (v >> 16) as u8,
        (v >> 8) as u8,
        v as u8,
    ]
}

/// The two's-complement bit pattern of a 32-bit integer.
pub open spec fn u32_of_i32(v: i32) -> u32 {
    if v >= 0 {
        v as u32
    } else {
        (v + 0x1_0000_0000) as u32
    }
}

/// A 4-byte count field: the low 32 bits of the count.
pub open spec fn enc_size(n: int) -> Seq<u8> {
    be32((n % 0x1_0000_0000) as u32)
}

/// A group marker: tag 5 and the count of structured items that follow.
pub open spec fn enc_group(n: int) -> Seq<u8> {
    seq![5u8] + enc_size(n)
}

pub open spec fn enc_ints(v: Seq<i32>) -> Seq<u8>
    decreases v.len(),
{
    if v.len() == 0 {
        Seq::empty()
    } else {
        enc_ints(v.drop_last()) + be32(u32_of_i32(v.last()))
    }
}

/// An int32 array: tag 2, count, then each value as 4 bytes.
pub open spec fn enc_int_array(v: Seq<i32>) -> Seq<u8> {
    seq![2u8] + enc_size(v.len() as int) + enc_ints(v)
}

pub open spec fn enc_floats(v: Seq<u64>) -> Seq<u8>
    decreases v.len(),
{
    if v.len() == 0 {
        Seq::empty()
    } else {
        enc_floats(v.drop_last()) + be64(v.last())
    }
}

/// A float64 array: tag 3, count, then each bit pattern as 8 bytes.
pub open spec fn enc_float_array(v: Seq<u64>) -> Seq<u8> {
    seq![3u8] + enc_size(v.len() as int) + enc_floats(v)
}

pub open spec fn enc_tokens(v: Seq<Seq<u8>>) -> Seq<u8>
    decreases v.len(),
{
    if v.len() == 0 {
        Seq::empty()
    } else {
        enc_tokens(v.drop_last()) + enc_size(v.last().len() as int) + v.last()
    }
}

/// A token array: tag 4, count, then each string length-prefixed.
pub open spec fn enc_token_array(v: Seq<Seq<u8>>) -> Seq<u8> {
    seq![4u8] + enc_size(v.len() as int) + enc_tokens(v)
}

/// The byte contents of a sequence of slices.
pub open spec fn views_of(v: Seq<&[u8]>) -> Seq<Seq<u8>> {
    v.map_values(|t: &[u8]| t@)
}

/// The byte sink: an in-memory buffer the encoder appends to.
pub struct SvlWriter {
    pub buf: Vec<u8>,
}

impl SvlWriter {
    pub fn new() -> (r: Self)
        ensures
            r.buf@ == Seq::<u8>::empty(),
    {
        let r = SvlWriter { buf: Vec::new() };
        proof {
            assert(r.buf@ =~= Seq::<u8>::empty());
        }
        r
    }

    fn push_u32(&mut self, v: u32)
        ensures
            final(self).buf@ == old(self).buf@ + be32(v),
    {
        self.buf.push(#[verifier::truncate] ((v >> 24) as u8));
        self.buf.push(#[verifier::truncate] ((v >> 16) as u8));
        self.buf.push(#[verifier::truncate] ((v >> 8) as u8));
        self.buf.push(#[verifier::truncate] (v as u8));
        proof {
            assert(self.buf@ =~= old(self).buf@ + be32(v));
        }
    }

    fn push_u64(&mut self, v: u64)
        ensures
            final(self).buf@ == old(self).buf@ + be64(v),
    {
        self.buf.push(#[verifier::truncate] ((v >> 56) as u8));
        self.buf.push(#[verifier::truncate] ((v >> 48) as u8));
        self.buf.push(#[verifier::truncate] ((v >> 40) as u8));
        self.buf.push(#[verifier::truncate] ((v >> 32) as u8));
        self.buf.push(#[verifier::truncate] ((v >> 24) as u8));
        self.buf.push(#[verifier::truncate] ((v >> 16) as u8));
        self.buf.push(#[verifier::truncate] ((v >> 8) as u8));
        self.buf.push(#[verifier::truncate] (v as u8));
        proof {
            assert(self.buf@ =~= old(self).buf@ + be64(v));
        }
    }

    /// A 4-byte count: the low 32 bits of `size`.
    pub fn write_size(&mut self, size: usize)
        ensures
            final(self).buf@ == old(self).buf@ + enc_size(size as int),
    {
        let low: u64 = (size as u64) % 0x1_0000_0000;
        self.push_u32(low as u32);
    }

    /// A group marker for `count` structured items.
    pub fn write_group(&mut self, count: usize)
        ensures
            final(self).buf@ == old(self).buf@ + enc_group(count as int),
    {
        self.buf.push(5);
        self.write_size(count);
        proof {
            assert(self.buf@ =~= old(self).buf@ + enc_group(count as int));
        }
    }

    /// An int32 array.
    pub fn write_int(&mut self, v: &[i32])
        ensures
            final(self).buf@ == old(self).buf@ + enc_int_array(v@),
    {
        self.buf.push(2);
        self.write_size(v.len());
        let ghost head = self.buf@;
        let mut i: usize = 0;
        while i < v.len()
            invariant
                i <= v@.len(),
                head == old(self).buf@ + seq![2u8] + enc_size(v@.len() as int),
                self.buf@ == head + enc_ints(v@.take(i as int)),
            decreases v@.len() - i,
        {
            let x = v[i];
            let u: u32 = if x >= 0 {
                x as u32
            } else {
                ((x as i64) + 0x1_0000_0000) as u32
            };
            proof {
                assert(v@.take(i + 1).drop_last() =~= v@.take(i as int));
                assert(u == u32_of_i32(v@[i as int]));
            }
            self.push_u32(u);
            proof {
                assert(self.buf@ =~= head + enc_ints(v@.take(i + 1)));
            }
            i = i + 1;
        }
        proof {
            assert(v@.take(v@.len() as int) =~= v@);
            assert(self.buf@ =~= old(self).buf@ + enc_int_array(v@));
        }
    }

    /// A float64 array of bit patterns.
    pub fn write_float(&mut self, v: &[u64])
        ensures
            final(self).buf@ == old(self).buf@ + enc_float_array(v@),
    {
        self.buf.push(3);
        self.write_size(v.len());
        let ghost head = self.buf@;
        let mut i: usize = 0;
        while i < v.len()
            invariant
                i <= v@.len(),
                head == old(self).buf@ + seq![3u8] + enc_size(v@.len() as int),
                self.buf@ == head + enc_floats(v@.take(i as int)),
            decreases v@.len() - i,
        {
            proof {
                assert(v@.take(i + 1).drop_last() =~= v@.take(i as int));
            }
            self.push_u64(v[i]);
            proof {
                assert(self.buf@ =~= head + enc_floats(v@.take(i + 1)));
            }
            i = i + 1;
        }
        proof {
            assert(v@.take(v@.len() as int) =~= v@);
            assert(self.buf@ =~= old(self).buf@ + enc_float_array(v@));
        }
    }

    /// A token array: each string length-prefixed, no terminator.
    pub fn write_token(&mut self, v: &[&[u8]])
        ensures
            final(self).buf@ == old(self).buf@ + enc_token_array(views_of(v@)),
    {
        let ghost tv = views_of(v@);
        self.buf.push(4);
        self.write_size(v.len());
        let ghost head = self.buf@;
        let mut i: usize = 0;
        while i < v.len()
            invariant
                i <= v@.len(),
                tv == v@.map_values(|t: &[u8]| t@),
                head == old(self).buf@ + seq![4u8] + enc_size(v@.len() as int),
                self.buf@ == head + enc_tokens(tv.take(i as int)),
            decreases v@.len() - i,
        {
            proof {
                assert(tv.take(i + 1).drop_last() =~= tv.take(i as int));
            }
            let t = v[i];
            self.write_size(t.len());
            let mut j: usize = 0;
            let ghost mid = self.buf@;
            while j < t.len()
                invariant
                    j <= t@.len(),
                    self.buf@ == mid + t@.take(j as int),
                decreases t@.len() - j,
            {
                self.buf.push(t[j]);
                proof {
                    assert(t@.take(j + 1) =~= t@.take(j as int).push(t@[j as int]));
                }
                j = j + 1;
            }
            proof {
                assert(t@.take(t@.len() as int) =~= t@);
                assert(self.buf@ =~= head + enc_tokens(tv.take(i + 1)));
            }
            i = i + 1;
        }
        proof {
            assert(tv.take(tv.len() as int) =~= tv);
            assert(self.buf@ =~= old(self).buf@ + enc_token_array(tv));
        }
    }

    /// An int32 array holding one value.
    pub fn write_int_one(&mut self, x: i32)
        ensures
            final(self).buf@ == old(self).buf@ + enc_int_array(seq![x]),
    {
        let mut v: Vec<i32> = Vec::new();
        v.push(x);
        proof {
            assert(v@ =~= seq![x]);
        }
        self.write_int(v.as_slice());
    }

    /// A float64 array holding one bit pattern.
    pub fn write_float_one(&mut self, x: u64)
        ensures
            final(self).buf@ == old(self).buf@ + enc_float_array(seq![x]),
    {
        let mut v: Vec<u64> = Vec::new();
        v.push(x);
        proof {
            assert(v@ =~= seq![x]);
        }
        self.write_float(v.as_slice());
    }

    /// A token array holding one string.
    pub fn write_token_one(&mut self, t: &[u8])
        ensures
            final(self).buf@ == old(self).buf@ + enc_token_array(seq![t@]),
    {
        let mut v: Vec<&[u8]> = Vec::new();
        v.push(t);
        proof {
            assert(views_of(v@) =~= seq![t@]);
        }
        self.write_token(v.as_slice());
    }
}

/// One atom as a group of fifteen tagged items, in field order.
pub open spec fn enc_atom(a: AtomModel<u64>) -> Seq<u8> {
    enc_group(15) + enc_int_array(seq![a.index]) + enc_token_array(seq![a.element])
        + enc_token_array(seq![a.atom_type]) + enc_token_array(seq![a.res_name]) + enc_int_array(
        seq![a.res_index],
    ) + enc_int_array(seq![a.frag_index]) + enc_float_array(seq![a.x]) + enc_float_array(
        seq![a.y],
    ) + enc_float_array(seq![a.z]) + enc_float_array(seq![a.hf_mulliken]) + enc_float_array(
        seq![a.mp2_mulliken],
    ) + enc_float_array(seq![a.hf_nbo]) + enc_float_array(seq![a.mp2_nbo]) + enc_float_array(
        seq![a.hf_esp],
    ) + enc_float_array(seq![a.mp2_esp])
}

pub open spec fn enc_atoms(s: Seq<AtomModel<u64>>) -> Seq<u8>
    decreases s.len(),
{
    if s.len() == 0 {
        Seq::empty()
    } else {
        enc_atoms(s.drop_last()) + enc_atom(s.last())
    }
}

/// The successor in the 1-based convention, wrapping as 32-bit addition
/// does.
pub open spec fn plus1(v: i32) -> i32 {
    if v == i32::MAX {
        i32::MIN
    } else {
        (v + 1) as i32
    }
}

/// A fragment's atom list, re-offset from 0-based to 1-based.
pub open spec fn enc_index_list(l: Seq<i32>) -> Seq<u8> {
    enc_int_array(l.map_values(|v: i32| plus1(v)))
}

pub open spec fn enc_index_lists(s: Seq<Seq<i32>>) -> Seq<u8>
    decreases s.len(),
{
    if s.len() == 0 {
        Seq::empty()
    } else {
        enc_index_lists(s.drop_last()) + enc_index_list(s.last())
    }
}

/// A dipole vector as a three-float array.
pub open spec fn enc_vec3(v: Vec3Model<u64>) -> Seq<u8> {
    enc_float_array(seq![v.x, v.y, v.z])
}

pub open spec fn enc_dipoles(s: Seq<Vec3Model<u64>>) -> Seq<u8>
    decreases s.len(),
{
    if s.len() == 0 {
        Seq::empty()
    } else {
        enc_dipoles(s.drop_last()) + enc_vec3(s.last())
    }
}

/// A splitted bond as a two-integer array.
pub open spec fn enc_bond(b: SplittedBond) -> Seq<u8> {
    enc_int_array(seq![b.bda, b.baa])
}

pub open spec fn enc_bonds(s: Seq<SplittedBond>) -> Seq<u8>
    decreases s.len(),
{
    if s.len() == 0 {
        Seq::empty()
    } else {
        enc_bonds(s.drop_last()) + enc_bond(s.last())
    }
}

/// Version, comments and the two counts.
pub open spec fn enc_preamble(m: CheckPointFileModel<u64>) -> Seq<u8> {
    enc_token_array(seq![m.version]) + enc_token_array(seq![m.comments]) + enc_int_array(
        seq![m.num_atoms],
    ) + enc_int_array(seq![m.num_frags])
}

/// The atom group, the fragment atom lists, and the two packed lists.
pub open spec fn enc_atom_section(m: CheckPointFileModel<u64>) -> Seq<u8> {
    enc_group(m.atoms.len() as int) + enc_atoms(m.atoms) + enc_group(
        m.monomers.atom_indices.len() as int,
    ) + enc_index_lists(m.monomers.atom_indices) + enc_int_array(m.monomers.num_electrons)
        + enc_int_array(m.monomers.num_attached)
}

/// Both dipole groups, the monomer energy arrays, and the bond group.
pub open spec fn enc_monomer_section(m: CheckPointFileModel<u64>) -> Seq<u8> {
    enc_group(m.monomers.hf_dipoles.len() as int) + enc_dipoles(m.monomers.hf_dipoles) + enc_group(
        m.monomers.mp2_dipoles.len() as int,
    ) + enc_dipoles(m.monomers.mp2_dipoles) + enc_float_array(m.monomers.nuclear_repulsion)
        + enc_float_array(m.monomers.electronic) + enc_float_array(m.monomers.mp2)
        + enc_float_array(m.monomers.mp3) + enc_int_array(m.monomers.ao) + enc_int_array(
        m.monomers.mo,
    ) + enc_group(m.splitted_bonds.len() as int) + enc_bonds(m.splitted_bonds)
}

/// The sixteen dimer channels, in the fixed channel order.
pub open spec fn enc_dimer_section(m: CheckPointFileModel<u64>) -> Seq<u8> {
    enc_float_array(m.dimers.distances) + enc_float_array(m.dimers.nuclear_repulsion)
        + enc_float_array(m.dimers.electronic) + enc_float_array(m.dimers.electrostatic)
        + enc_float_array(m.dimers.mp2) + enc_float_array(m.dimers.scs_mp2) + enc_float_array(
        m.dimers.mp3,
    ) + enc_float_array(m.dimers.scs_mp3) + enc_float_array(m.dimers.hf_bsse) + enc_float_array(
        m.dimers.mp2_bsse,
    ) + enc_float_array(m.dimers.scs_mp2_bsse) + enc_float_array(m.dimers.mp3_bsse)
        + enc_float_array(m.dimers.scs_mp3_bsse) + enc_float_array(m.dimers.exchange_repulsion)
        + enc_float_array(m.dimers.charge_transfer) + enc_float_array(m.dimers.qij)
}

/// The free-text tokens, the approximation thresholds, and the system
/// energies.
pub open spec fn enc_tail(m: CheckPointFileModel<u64>) -> Seq<u8> {
    enc_token_array(seq![m.level]) + enc_token_array(seq![m.electronic_state]) + enc_token_array(
        seq![m.basisset],
    ) + enc_float_array(seq![m.approx_params.ao_population]) + enc_float_array(
        seq![m.approx_params.point_charge],
    ) + enc_float_array(seq![m.approx_params.dimer_es]) + enc_float_array(
        seq![m.system_energy.nuclear_repulsion],
    ) + enc_float_array(seq![m.system_energy.electronic]) + enc_float_array(
        seq![m.system_energy.total],
    )
}

/// The whole SVL byte stream of one model.
pub open spec fn enc_cpf(m: CheckPointFileModel<u64>) -> Seq<u8> {
    enc_preamble(m) + enc_atom_section(m) + enc_monomer_section(m) + enc_dimer_section(m)
        + enc_tail(m)
}

impl Atom<u64> {
    /// Emit one atom as a group of fifteen tagged items.
    #[verifier::rlimit(50)]
    pub fn serialize(&self, w: &mut SvlWriter)
        ensures
            final(w).buf@ == old(w).buf@ + enc_atom(self@),
    {
        w.write_group(15);
        w.write_int_one(self.index);
        w.write_token_one(self.element.as_slice());
        w.write_token_one(self.atom_type.as_slice());
        w.write_token_one(self.res_name.as_slice());
        w.write_int_one(self.res_index);
        w.write_int_one(self.frag_index);
        w.write_float_one(self.x);
        w.write_float_one(self.y);
        w.write_float_one(self.z);
        w.write_float_one(self.hf_mulliken);
        w.write_float_one(self.mp2_mulliken);
        w.write_float_one(self.hf_nbo);
        w.write_float_one(self.mp2_nbo);
        w.write_float_one(self.hf_esp);
        w.write_float_one(self.mp2_esp);
        proof {
            assert(w.buf@ =~= old(w).buf@ + enc_atom(self@));
        }
    }
}

impl Vec3<u64> {
    /// Emit a dipole vector as one three-float array.
    pub fn serialize(&self, w: &mut SvlWriter)
        ensures
            final(w).buf@ == old(w).buf@ + enc_vec3(self@),
    {
        let mut v: Vec<u64> = Vec::new();
        v.push(self.x);
        v.push(self.y);
        v.push(self.z);
        proof {
            assert(v@ =~= seq![self@.x, self@.y, self@.z]);
        }
        w.write_float(v.as_slice());
    }
}

impl SplittedBond {
    /// Emit a splitted bond as one two-integer array.
    pub fn serialize(&self, w: &mut SvlWriter)
        ensures
            final(w).buf@ == old(w).buf@ + enc_bond(*self),
    {
        let mut v: Vec<i32> = Vec::new();
        v.push(self.bda);
        v.push(self.baa);
        proof {
            assert(v@ =~= seq![self.bda, self.baa]);
        }
        w.write_int(v.as_slice());
    }
}

impl CheckPointFile<u64> {
    /// Version, comments and the two counts.
    fn write_preamble(&self, w: &mut SvlWriter)
        ensures
            final(w).buf@ == old(w).buf@ + enc_preamble(self@),
    {
        let ghost b0 = w.buf@;
        w.write_token_one(self.version.as_slice());
        w.write_token_one(self.comments.as_slice());
        w.write_int_one(self.num_atoms);
        w.write_int_one(self.num_frags);
        proof {
            assert(w.buf@ =~= b0 + enc_preamble(self@));
        }
    }

    /// The atom group, the fragment atom lists, and the two packed
    /// lists.
    fn write_atom_section(&self, w: &mut SvlWriter)
        ensures
            final(w).buf@ == old(w).buf@ + enc_atom_section(self@),
    {
        let ghost b1 = w.buf@;
        w.write_group(self.atoms.len());
        let ghost ams = self@.atoms;
        let ghost base = w.buf@;
        let mut i: usize = 0;
        while i < self.atoms.len()
            invariant
                i <= self.atoms@.len(),
                ams == self@.atoms,
                w.buf@ == base + enc_atoms(ams.take(i as int)),
            decreases self.atoms@.len() - i,
        {
            proof {
                assert(ams.take(i + 1).drop_last() =~= ams.take(i as int));
            }
            self.atoms[i].serialize(w);
            proof {
                assert(w.buf@ =~= base + enc_atoms(ams.take(i + 1)));
            }
            i = i + 1;
        }
        proof {
            assert(ams.take(ams.len() as int) =~= ams);
        }
        w.write_group(self.monomers.atom_indices.len());
        let ghost ails = self@.monomers.atom_indices;
        let ghost base2 = w.buf@;
        let mut i: usize = 0;
        while i < self.monomers.atom_indices.len()
            invariant
                i <= self.monomers.atom_indices@.len(),
                ails == self@.monomers.atom_indices,
                w.buf@ == base2 + enc_index_lists(ails.take(i as int)),
            decreases self.monomers.atom_indices@.len() - i,
        {
            proof {
                assert(ails.take(i + 1).drop_last() =~= ails.take(i as int));
            }
            let list = &self.monomers.atom_indices[i];
            let mut shifted: Vec<i32> = Vec::new();
            let mut j: usize = 0;
            while j < list.len()
                invariant
                    j <= list@.len(),
                    shifted@.len() == j,
                    forall|k: int| 0 <= k < j ==> #[trigger] shifted@[k] == plus1(list@[k]),
                decreases list@.len() - j,
            {
                let x = list[j];
                if x == i32::MAX {
                    shifted.push(i32::MIN);
                } else {
                    shifted.push(x + 1);
                }
                j = j + 1;
            }
            proof {
                assert(shifted@ =~= ails[i as int].map_values(|v: i32| plus1(v)));
            }
            w.write_int(shifted.as_slice());
            proof {
                assert(w.buf@ =~= base2 + enc_index_lists(ails.take(i + 1)));
            }
            i = i + 1;
        }
        proof {
            assert(ails.take(ails.len() as int) =~= ails);
        }
        w.write_int(self.monomers.num_electrons.as_slice());
        w.write_int(self.monomers.num_attached.as_slice());
        proof {
            assert(w.buf@ =~= b1 + enc_atom_section(self@));
        }
    }

    /// Both dipole groups, the monomer energy arrays, and the bond
    /// group.
    #[verifier::rlimit(100)]
    fn write_monomer_section(&self, w: &mut SvlWriter)
        ensures
            final(w).buf@ == old(w).buf@ + enc_monomer_section(self@),
    {
        let ghost b2 = w.buf@;
        w.write_group(self.monomers.hf_dipoles.len());
        let ghost hfd = self@.monomers.hf_dipoles;
        let ghost base3 = w.buf@;
        let mut i: usize = 0;
        while i < self.monomers.hf_dipoles.len()
            invariant
                i <= self.monomers.hf_dipoles@.len(),
                hfd == self@.monomers.hf_dipoles,
                w.buf@ == base3 + enc_dipoles(hfd.take(i as int)),
            decreases self.monomers.hf_dipoles@.len() - i,
        {
            proof {
                assert(hfd.take(i + 1).drop_last() =~= hfd.take(i as int));
            }
            self.monomers.hf_dipoles[i].serialize(w);
            proof {
                assert(w.buf@ =~= base3 + enc_dipoles(hfd.take(i + 1)));
            }
            i = i + 1;
        }
        proof {
            assert(hfd.take(hfd.len() as int) =~= hfd);
        }
        w.write_group(self.monomers.mp2_dipoles.len());
        let ghost mpd = self@.monomers.mp2_dipoles;
        let ghost base4 = w.buf@;
        let mut i: usize = 0;
        while i < self.monomers.mp2_dipoles.len()
            invariant
                i <= self.monomers.mp2_dipoles@.len(),
                mpd == self@.monomers.mp2_dipoles,
                w.buf@ == base4 + enc_dipoles(mpd.take(i as int)),
            decreases self.monomers.mp2_dipoles@.len() - i,
        {
            proof {
                assert(mpd.take(i + 1).drop_last() =~= mpd.take(i as int));
            }
            self.monomers.mp2_dipoles[i].serialize(w);
            proof {
                assert(w.buf@ =~= base4 + enc_dipoles(mpd.take(i + 1)));
            }
            i = i + 1;
        }
        proof {
            assert(mpd.take(mpd.len() as int) =~= mpd);
        }
        w.write_float(self.monomers.nuclear_repulsion.as_slice());
        w.write_float(self.monomers.electronic.as_slice());
        w.write_float(self.monomers.mp2.as_slice());
        w.write_float(self.monomers.mp3.as_slice());
        w.write_int(self.monomers.ao.as_slice());
        w.write_int(self.monomers.mo.as_slice());
        w.write_group(self.splitted_bonds.len());
        let ghost bnds = self@.splitted_bonds;
        let ghost base5 = w.buf@;
        let mut i: usize = 0;
        while i < self.splitted_bonds.len()
            invariant
                i <= self.splitted_bonds@.len(),
                bnds == self@.splitted_bonds,
                w.buf@ == base5 + enc_bonds(bnds.take(i as int)),
            decreases self.splitted_bonds@.len() - i,
        {
            proof {
                assert(bnds.take(i + 1).drop_last() =~= bnds.take(i as int));
            }
            self.splitted_bonds[i].serialize(w);
            proof {
                assert(w.buf@ =~= base5 + enc_bonds(bnds.take(i + 1)));
            }
            i = i + 1;
        }
        proof {
            assert(bnds.take(bnds.len() as int) =~= bnds);
            assert(self@.monomers.nuclear_repulsion =~= self.monomers.nuclear_repulsion@);
            assert(self@.monomers.electronic =~= self.monomers.electronic@);
            assert(self@.monomers.mp2 =~= self.monomers.mp2@);
            assert(self@.monomers.mp3 =~= self.monomers.mp3@);
            assert(w.buf@ =~= b2 + enc_monomer_section(self@));
        }
    }

    /// The sixteen dimer channel arrays.
    #[verifier::rlimit(100)]
    fn write_dimer_section(&self, w: &mut SvlWriter)
        ensures
            final(w).buf@ == old(w).buf@ + enc_dimer_section(self@),
    {
        let ghost b3 = w.buf@;
        w.write_float(self.dimers.distances.data.as_slice());
        w.write_float(self.dimers.nuclear_repulsion.data.as_slice());
        w.write_float(self.dimers.electronic.data.as_slice());
        w.write_float(self.dimers.electrostatic.data.as_slice());
        w.write_float(self.dimers.mp2.data.as_slice());
        w.write_float(self.dimers.scs_mp2.data.as_slice());
        w.write_float(self.dimers.mp3.data.as_slice());
        w.write_float(self.dimers.scs_mp3.data.as_slice());
        w.write_float(self.dimers.hf_bsse.data.as_slice());
        w.write_float(self.dimers.mp2_bsse.data.as_slice());
        w.write_float(self.dimers.scs_mp2_bsse.data.as_slice());
        w.write_float(self.dimers.mp3_bsse.data.as_slice());
        w.write_float(self.dimers.scs_mp3_bsse.data.as_slice());
        w.write_float(self.dimers.exchange_repulsion.data.as_slice());
        w.write_float(self.dimers.charge_transfer.data.as_slice());
        w.write_float(self.dimers.qij.data.as_slice());
        proof {
            assert(self@.dimers.distances =~= self.dimers.distances.data@);
            assert(self@.dimers.nuclear_repulsion =~= self.dimers.nuclear_repulsion.data@);
            assert(self@.dimers.electronic =~= self.dimers.electronic.data@);
            assert(self@.dimers.electrostatic =~= self.dimers.electrostatic.data@);
            assert(self@.dimers.mp2 =~= self.dimers.mp2.data@);
            assert(self@.dimers.scs_mp2 =~= self.dimers.scs_mp2.data@);
            assert(self@.dimers.mp3 =~= self.dimers.mp3.data@);
            assert(self@.dimers.scs_mp3 =~= self.dimers.scs_mp3.data@);
            assert(self@.dimers.hf_bsse =~= self.dimers.hf_bsse.data@);
            assert(self@.dimers.mp2_bsse =~= self.dimers.mp2_bsse.data@);
            assert(self@.dimers.scs_mp2_bsse =~= self.dimers.scs_mp2_bsse.data@);
            assert(self@.dimers.mp3_bsse =~= self.dimers.mp3_bsse.data@);
            assert(self@.dimers.scs_mp3_bsse =~= self.dimers.scs_mp3_bsse.data@);
            assert(self@.dimers.exchange_repulsion =~= self.dimers.exchange_repulsion.data@);
            assert(self@.dimers.charge_transfer =~= self.dimers.charge_transfer.data@);
            assert(self@.dimers.qij =~= self.dimers.qij.data@);
            assert(w.buf@ =~= b3 + enc_dimer_section(self@));
        }
    }

    /// The free-text tokens and the six single-value float arrays.
    fn write_tail(&self, w: &mut SvlWriter)
        ensures
            final(w).buf@ == old(w).buf@ + enc_tail(self@),
    {
        let ghost b4 = w.buf@;
        w.write_token_one(self.level.as_slice());
        w.write_token_one(self.electronic_state.as_slice());
        w.write_token_one(self.basisset.as_slice());
        w.write_float_one(self.approx_params.ao_population);
        w.write_float_one(self.approx_params.point_charge);
        w.write_float_one(self.approx_params.dimer_es);
        w.write_float_one(self.system_energy.nuclear_repulsion);
        w.write_float_one(self.system_energy.electronic);
        w.write_float_one(self.system_energy.total);
        proof {
            assert(w.buf@ =~= b4 + enc_tail(self@));
        }
    }

    /// Serialize the whole model into the SVL tag stream, field for
    /// field in the order the format fixes. The bytes appended are
    /// exactly `enc_cpf` of the model.
    #[verifier::rlimit(100)]
    pub fn serialize(&self, w: &mut SvlWriter)
        ensures
            final(w).buf@ == old(w).buf@ + enc_cpf(self@),
    {
        let ghost b0 = w.buf@;
        self.write_preamble(w);
        self.write_atom_section(w);
        self.write_monomer_section(w);
        self.write_dimer_section(w);
        self.write_tail(w);
        proof {
            assert(w.buf@ =~= b0 + enc_cpf(self@));
        }
    }
}

} // verus!
