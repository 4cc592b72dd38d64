use vstd::prelude::*;

verus! {

/// One decay transition entry.
///
/// Quantities are fixed-point integers so that the exact-equality clustering
/// and summation rules of the engine are meaningful: energies are in
/// micro-keV and intensities in micro-percent. An absent field means the
/// quantity was unobserved or unmeasured; such records are still valid and
/// are retained through state selection.
#[derive(Debug, Clone)]
pub struct DecayRecord {
    /// Excitation energy of the decaying parent state, in micro-keV.
    pub p_energy: Option<u64>,
    /// Energy of the emitted radiation, in micro-keV.
    pub energy: Option<u64>,
    /// Relative intensity, in micro-percent.
    pub intensity: Option<u64>,
    /// Name of the parent nuclide as given by the data source (provenance).
    pub parent_name: String,
}

/// Sort key for ordering by emitted energy: an unset energy is a sentinel
/// below every real value, so it sorts first in ascending order.
pub open spec fn energy_key(r: DecayRecord) -> int {
    match r.energy {
        None => -1,
        Some(e) => e as int,
    }
}

/// Sort key for ordering by intensity: an unset intensity is a sentinel
/// below every real value, so it sorts last in descending order.
pub open spec fn intensity_key(r: DecayRecord) -> int {
    match r.intensity {
        None => -1,
        Some(v) => v as int,
    }
}

} // verus!
