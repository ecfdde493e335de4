//! The material property tables the cellular pressure solver reads: one record per
//! static material, per dynamic material and per fluid, in registry order, each as
//! the bit patterns of its properties.

use vstd::prelude::*;
use crate::gpu_words::{encode_words_le, spec_words_le_bytes};

verus! {

/// The pressure properties of one registered material, as IEEE 754 bit patterns;
/// a static material's debris material is the null identifier when it has none
pub enum PressureMaterial {
    Static {
        ignore_threshold_bits: u32,
        transmission_bits: u32,
        debris_material: u32,
        debris_yield_rate_bits: u32,
        friction_bits: u32,
        restitution_bits: u32,
    },
    Dynamic { mass_bits: u32, transmission_bits: u32, friction_bits: u32, restitution_bits: u32 },
    Fluid { transmission_bits: u32, friction_bits: u32, restitution_bits: u32 },
    /// A material the pressure solver has no record for
    Other,
}

/// The eight words of a static material's record, or nothing for other materials
pub open spec fn static_record(material: PressureMaterial) -> Seq<u32> {
    match material {
        PressureMaterial::Static {
            ignore_threshold_bits,
            transmission_bits,
            debris_material,
            debris_yield_rate_bits,
            friction_bits,
            restitution_bits,
        } => seq![
            ignore_threshold_bits,
            transmission_bits,
            debris_material,
            debris_yield_rate_bits,
            friction_bits,
            restitution_bits,
            0u32,
            0u32,
        ],
        _ => Seq::empty(),
    }
}

/// The four words of a dynamic material's record, or nothing for other materials
pub open spec fn dynamic_record(material: PressureMaterial) -> Seq<u32> {
    match material {
        PressureMaterial::Dynamic { mass_bits, transmission_bits, friction_bits, restitution_bits } => seq![
            mass_bits,
            transmission_bits,
            friction_bits,
            restitution_bits,
        ],
        _ => Seq::empty(),
    }
}

/// The four words of a fluid's record (the last one zero), or nothing for other materials
pub open spec fn fluid_record(material: PressureMaterial) -> Seq<u32> {
    match material {
        PressureMaterial::Fluid { transmission_bits, friction_bits, restitution_bits } => seq![
            transmission_bits,
            friction_bits,
            restitution_bits,
            0u32,
        ],
        _ => Seq::empty(),
    }
}

/// The records of one kind for `materials`, one after another in registry order
pub open spec fn table_words(materials: Seq<PressureMaterial>, kind: int) -> Seq<u32>
    decreases materials.len(),
{
    if materials.len() == 0 {
        Seq::empty()
    } else {
        table_words(materials.drop_last(), kind) + if kind == 0 {
            static_record(materials.last())
        } else if kind == 1 {
            dynamic_record(materials.last())
        } else {
            fluid_record(materials.last())
        }
    }
}

/// The static, dynamic and fluid property tables, with the records allocated for
/// each (one per material of the kind, and at least one)
pub struct PressureMaterialTables {
    pub static_words: Vec<u32>,
    pub dynamic_words: Vec<u32>,
    pub fluid_words: Vec<u32>,
    pub static_slots: usize,
    pub dynamic_slots: usize,
    pub fluid_slots: usize,
}

/// The record count a table allocates for `words` of records `record_words` long
pub open spec fn table_slots(words: Seq<u32>, record_words: int) -> int {
    if words.len() == 0 { 1 } else { words.len() as int / record_words }
}

/// Appends `record` to `words`
fn append_record(words: &mut Vec<u32>, record: &[u32])
    ensures
        final(words)@ == old(words)@ + record@,
{
    let mut i: usize = 0;
    while i < record.len()
        invariant
            i <= record@.len(),
            words@ == old(words)@ + record@.take(i as int),
        decreases record@.len() - i,
    {
        words.push(record[i]);
        proof {
            assert(record@.take(i + 1) =~= record@.take(i as int).push(record@[i as int]));
        }
        i = i + 1;
    }
    proof {
        assert(record@.take(i as int) =~= record@);
    }
}

/// Builds the pressure solver's property tables from the registry's materials
pub fn pressure_material_tables(materials: &[PressureMaterial]) -> (tables: PressureMaterialTables)
    requires
        materials@.len() * 8 <= usize::MAX,
    ensures
        tables.static_words@ == table_words(materials@, 0),
        tables.dynamic_words@ == table_words(materials@, 1),
        tables.fluid_words@ == table_words(materials@, 2),
        tables.static_slots == table_slots(tables.static_words@, 8),
        tables.dynamic_slots == table_slots(tables.dynamic_words@, 4),
        tables.fluid_slots == table_slots(tables.fluid_words@, 4),
{
    let mut static_words: Vec<u32> = Vec::new();
    let mut dynamic_words: Vec<u32> = Vec::new();
    let mut fluid_words: Vec<u32> = Vec::new();
    let mut i: usize = 0;
    while i < materials.len()
        invariant
            i <= materials@.len(),
            materials@.len() * 8 <= usize::MAX,
            static_words@ == table_words(materials@.take(i as int), 0),
            dynamic_words@ == table_words(materials@.take(i as int), 1),
            fluid_words@ == table_words(materials@.take(i as int), 2),
            static_words@.len() <= 8 * i,
            dynamic_words@.len() <= 4 * i,
            fluid_words@.len() <= 4 * i,
        decreases materials@.len() - i,
    {
        proof {
            assert(materials@.take(i + 1).drop_last() =~= materials@.take(i as int));
            assert(materials@.take(i + 1).last() == materials@[i as int]);
        }
        match &materials[i] {
            PressureMaterial::Static {
                ignore_threshold_bits,
                transmission_bits,
                debris_material,
                debris_yield_rate_bits,
                friction_bits,
                restitution_bits,
            } => {
                let record: [u32; 8] = [
                    *ignore_threshold_bits,
                    *transmission_bits,
                    *debris_material,
                    *debris_yield_rate_bits,
                    *friction_bits,
                    *restitution_bits,
                    0,
                    0,
                ];
                append_record(&mut static_words, record.as_slice());
            },
            PressureMaterial::Dynamic { mass_bits, transmission_bits, friction_bits, restitution_bits } => {
                let record: [u32; 4] = [*mass_bits, *transmission_bits, *friction_bits, *restitution_bits];
                append_record(&mut dynamic_words, record.as_slice());
            },
            PressureMaterial::Fluid { transmission_bits, friction_bits, restitution_bits } => {
                let record: [u32; 4] = [*transmission_bits, *friction_bits, *restitution_bits, 0];
                append_record(&mut fluid_words, record.as_slice());
            },
            PressureMaterial::Other => {},
        }
        proof {
            assert(static_words@ =~= table_words(materials@.take(i + 1), 0));
            assert(dynamic_words@ =~= table_words(materials@.take(i + 1), 1));
            assert(fluid_words@ =~= table_words(materials@.take(i + 1), 2));
        }
        i = i + 1;
    }
    proof {
        assert(materials@.take(i as int) =~= materials@);
    }
    let static_slots: usize = if static_words.len() == 0 { 1 } else { static_words.len() / 8 };
    let dynamic_slots: usize = if dynamic_words.len() == 0 { 1 } else { dynamic_words.len() / 4 };
    let fluid_slots: usize = if fluid_words.len() == 0 { 1 } else { fluid_words.len() / 4 };
    PressureMaterialTables { static_words, dynamic_words, fluid_words, static_slots, dynamic_slots, fluid_slots }
}

/// The bytes written to a property table, or nothing when it holds no record
pub fn table_upload(words: &Vec<u32>) -> (upload: Option<Vec<u8>>)
    requires
        words@.len() * 4 <= usize::MAX,
    ensures
        words@.len() == 0 ==> upload is None,
        words@.len() > 0 ==> (upload matches Some(bytes) && bytes@ == spec_words_le_bytes(words@)),
{
    if words.len() == 0 {
        None
    } else {
        Some(encode_words_le(words.as_slice()))
    }
}

} // verus!
