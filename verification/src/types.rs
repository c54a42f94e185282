//! The record model: value types for a fully parsed CPF report.
//!
//! Every type is generic over the float representation `F`. The parser
//! builds the model with `F = Vec<u8>`, each float held as its validated
//! decimal token; the encoder consumes it with `F = u64`, each float held
//! as its IEEE-754 binary64 bit pattern. The ghost mirror types (`…Model`)
//! state the same structure over `Seq` for use in contracts.

use vstd::prelude::*;

verus! {

#[derive(Debug)]
pub struct Vec3<T> {
    pub x: T,
    pub y: T,
    pub z: T,
}

pub ghost struct Vec3Model<FV> {
    pub x: FV,
    pub y: FV,
    pub z: FV,
}

impl<T: View> View for Vec3<T> {
    type V = Vec3Model<T::V>;

    open spec fn view(&self) -> Vec3Model<T::V> {
        Vec3Model { x: self.x@, y: self.y@, z: self.z@ }
    }
}

impl<T> Vec3<T> {
    pub fn new(x: T, y: T, z: T) -> (r: Self)
        ensures
            r == (Vec3 { x, y, z }),
    {
        Vec3 { x, y, z }
    }
}

/// One value per unordered fragment pair, in the file's canonical pair
/// order.
#[derive(Debug)]
pub struct DimerData<T> {
    pub data: Vec<T>,
}

impl<T: View> View for DimerData<T> {
    type V = Seq<T::V>;

    open spec fn view(&self) -> Seq<T::V> {
        self.data@.map_values(|f: T| f@)
    }
}

impl<T> DimerData<T> {
    pub fn new(v: Vec<T>) -> (r: Self)
        ensures
            r == (DimerData { data: v }),
    {
        DimerData { data: v }
    }
}

/// A covalent bond cut at a fragment boundary: bond-donor atom and
/// bond-acceptor atom, both 1-based atom indices.
#[derive(Debug, Clone, Copy, PartialEq, Eq, Structural)]
pub struct SplittedBond {
    pub bda: i32,
    pub baa: i32,
}

#[derive(Debug, Clone)]
pub struct Atom<F> {
    pub index: i32,
    pub element: Vec<u8>,
    pub atom_type: Vec<u8>,
    pub res_name: Vec<u8>,
    pub res_index: i32,
    pub frag_index: i32,
    pub x: F,
    pub y: F,
    pub z: F,
    pub hf_mulliken: F,
    pub mp2_mulliken: F,
    pub hf_nbo: F,
    pub mp2_nbo: F,
    pub hf_esp: F,
    pub mp2_esp: F,
}

pub ghost struct AtomModel<FV> {
    pub index: i32,
    pub element: Seq<u8>,
    pub atom_type: Seq<u8>,
    pub res_name: Seq<u8>,
    pub res_index: i32,
    pub frag_index: i32,
    pub x: FV,
    pub y: FV,
    pub z: FV,
    pub hf_mulliken: FV,
    pub mp2_mulliken: FV,
    pub hf_nbo: FV,
    pub mp2_nbo: FV,
    pub hf_esp: FV,
    pub mp2_esp: FV,
}

impl<F: View> View for Atom<F> {
    type V = AtomModel<F::V>;

    open spec fn view(&self) -> AtomModel<F::V> {
        AtomModel {
            index: self.index,
            element: self.element@,
            atom_type: self.atom_type@,
            res_name: self.res_name@,
            res_index: self.res_index,
            frag_index: self.frag_index,
            x: self.x@,
            y: self.y@,
            z: self.z@,
            hf_mulliken: self.hf_mulliken@,
            mp2_mulliken: self.mp2_mulliken@,
            hf_nbo: self.hf_nbo@,
            mp2_nbo: self.mp2_nbo@,
            hf_esp: self.hf_esp@,
            mp2_esp: self.mp2_esp@,
        }
    }
}

/// Per-fragment data; every sequence has length `num_frags`.
#[derive(Debug)]
pub struct Monomers<F> {
    pub atom_indices: Vec<Vec<i32>>,
    pub num_electrons: Vec<i32>,
    pub num_attached: Vec<i32>,
    pub hf_dipoles: Vec<Vec3<F>>,
    pub mp2_dipoles: Vec<Vec3<F>>,
    pub nuclear_repulsion: Vec<F>,
    pub electronic: Vec<F>,
    pub mp2: Vec<F>,
    pub mp3: Vec<F>,
    pub ao: Vec<i32>,
    pub mo: Vec<i32>,
}

pub ghost struct MonomersModel<FV> {
    pub atom_indices: Seq<Seq<i32>>,
    pub num_electrons: Seq<i32>,
    pub num_attached: Seq<i32>,
    pub hf_dipoles: Seq<Vec3Model<FV>>,
    pub mp2_dipoles: Seq<Vec3Model<FV>>,
    pub nuclear_repulsion: Seq<FV>,
    pub electronic: Seq<FV>,
    pub mp2: Seq<FV>,
    pub mp3: Seq<FV>,
    pub ao: Seq<i32>,
    pub mo: Seq<i32>,
}

impl<F: View> View for Monomers<F> {
    type V = MonomersModel<F::V>;

    open spec fn view(&self) -> MonomersModel<F::V> {
        MonomersModel {
            atom_indices: self.atom_indices@.map_values(|v: Vec<i32>| v@),
            num_electrons: self.num_electrons@,
            num_attached: self.num_attached@,
            hf_dipoles: self.hf_dipoles@.map_values(|v: Vec3<F>| v@),
            mp2_dipoles: self.mp2_dipoles@.map_values(|v: Vec3<F>| v@),
            nuclear_repulsion: self.nuclear_repulsion@.map_values(|f: F| f@),
            electronic: self.electronic@.map_values(|f: F| f@),
            mp2: self.mp2@.map_values(|f: F| f@),
            mp3: self.mp3@.map_values(|f: F| f@),
            ao: self.ao@,
            mo: self.mo@,
        }
    }
}

#[derive(Debug)]
pub struct ApproxParams<F> {
    pub ao_population: F,
    pub point_charge: F,
    pub dimer_es: F,
}

pub ghost struct ApproxParamsModel<FV> {
    pub ao_population: FV,
    pub point_charge: FV,
    pub dimer_es: FV,
}

impl<F: View> View for ApproxParams<F> {
    type V = ApproxParamsModel<F::V>;

    open spec fn view(&self) -> ApproxParamsModel<F::V> {
        ApproxParamsModel {
            ao_population: self.ao_population@,
            point_charge: self.point_charge@,
            dimer_es: self.dimer_es@,
        }
    }
}

#[derive(Debug)]
pub struct SystemEnergy<F> {
    pub nuclear_repulsion: F,
    pub electronic: F,
    pub total: F,
}

pub ghost struct SystemEnergyModel<FV> {
    pub nuclear_repulsion: FV,
    pub electronic: FV,
    pub total: FV,
}

impl<F: View> View for SystemEnergy<F> {
    type V = SystemEnergyModel<F::V>;

    open spec fn view(&self) -> SystemEnergyModel<F::V> {
        SystemEnergyModel {
            nuclear_repulsion: self.nuclear_repulsion@,
            electronic: self.electronic@,
            total: self.total@,
        }
    }
}

/// The sixteen pairwise interaction channels, each one value per
/// unordered fragment pair.
#[derive(Debug)]
pub struct Dimers<F> {
    pub distances: DimerData<F>,
    pub nuclear_repulsion: DimerData<F>,
    pub electronic: DimerData<F>,
    pub electrostatic: DimerData<F>,
    pub mp2: DimerData<F>,
    pub scs_mp2: DimerData<F>,
    pub mp3: DimerData<F>,
    pub scs_mp3: DimerData<F>,
    pub hf_bsse: DimerData<F>,
    pub mp2_bsse: DimerData<F>,
    pub scs_mp2_bsse: DimerData<F>,
    pub mp3_bsse: DimerData<F>,
    pub scs_mp3_bsse: DimerData<F>,
    pub exchange_repulsion: DimerData<F>,
    pub charge_transfer: DimerData<F>,
    pub qij: DimerData<F>,
}

pub ghost struct DimersModel<FV> {
    pub distances: Seq<FV>,
    pub nuclear_repulsion: Seq<FV>,
    pub electronic: Seq<FV>,
    pub electrostatic: Seq<FV>,
    pub mp2: Seq<FV>,
    pub scs_mp2: Seq<FV>,
    pub mp3: Seq<FV>,
    pub scs_mp3: Seq<FV>,
    pub hf_bsse: Seq<FV>,
    pub mp2_bsse: Seq<FV>,
    pub scs_mp2_bsse: Seq<FV>,
    pub mp3_bsse: Seq<FV>,
    pub scs_mp3_bsse: Seq<FV>,
    pub exchange_repulsion: Seq<FV>,
    pub charge_transfer: Seq<FV>,
    pub qij: Seq<FV>,
}

impl<F: View> View for Dimers<F> {
    type V = DimersModel<F::V>;

    open spec fn view(&self) -> DimersModel<F::V> {
        DimersModel {
            distances: self.distances@,
            nuclear_repulsion: self.nuclear_repulsion@,
            electronic: self.electronic@,
            electrostatic: self.electrostatic@,
            mp2: self.mp2@,
            scs_mp2: self.scs_mp2@,
            mp3: self.mp3@,
            scs_mp3: self.scs_mp3@,
            hf_bsse: self.hf_bsse@,
            mp2_bsse: self.mp2_bsse@,
            scs_mp2_bsse: self.scs_mp2_bsse@,
            mp3_bsse: self.mp3_bsse@,
            scs_mp3_bsse: self.scs_mp3_bsse@,
            exchange_repulsion: self.exchange_repulsion@,
            charge_transfer: self.charge_transfer@,
            qij: self.qij@,
        }
    }
}

/// The root of the model: one fully parsed CPF report.
#[derive(Debug)]
pub struct CheckPointFile<F> {
    pub version: Vec<u8>,
    pub comments: Vec<u8>,
    pub num_atoms: i32,
    pub num_frags: i32,
    pub atoms: Vec<Atom<F>>,
    pub monomers: Monomers<F>,
    pub splitted_bonds: Vec<SplittedBond>,
    pub dimers: Dimers<F>,
    pub level: Vec<u8>,
    pub electronic_state: Vec<u8>,
    pub basisset: Vec<u8>,
    pub approx_params: ApproxParams<F>,
    pub system_energy: SystemEnergy<F>,
}

pub ghost struct CheckPointFileModel<FV> {
    pub version: Seq<u8>,
    pub comments: Seq<u8>,
    pub num_atoms: i32,
    pub num_frags: i32,
    pub atoms: Seq<AtomModel<FV>>,
    pub monomers: MonomersModel<FV>,
    pub splitted_bonds: Seq<SplittedBond>,
    pub dimers: DimersModel<FV>,
    pub level: Seq<u8>,
    pub electronic_state: Seq<u8>,
    pub basisset: Seq<u8>,
    pub approx_params: ApproxParamsModel<FV>,
    pub system_energy: SystemEnergyModel<FV>,
}

impl<F: View> View for CheckPointFile<F> {
    type V = CheckPointFileModel<F::V>;

    open spec fn view(&self) -> CheckPointFileModel<F::V> {
        CheckPointFileModel {
            version: self.version@,
            comments: self.comments@,
            num_atoms: self.num_atoms,
            num_frags: self.num_frags,
            atoms: self.atoms@.map_values(|a: Atom<F>| a@),
            monomers: self.monomers@,
            splitted_bonds: self.splitted_bonds@,
            dimers: self.dimers@,
            level: self.level@,
            electronic_state: self.electronic_state@,
            basisset: self.basisset@,
            approx_params: self.approx_params@,
            system_energy: self.system_energy@,
        }
    }
}

} // verus!
