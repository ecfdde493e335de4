//! Immutable reaction metadata uploaded once with the material registry. It is
//! kept apart from the mutable simulation buffers so that a chemistry tick always
//! discovers from one stable logical snapshot.

use vstd::prelude::*;
use crate::gpu_words::{encode_words_le, spec_words_le_bytes};

verus! {

/// The words of one encoded reaction record
pub const REACTION_RECORD_WORD_COUNT: usize = 27;

/// One reactant of a compiled reaction: the run of selector members it accepts,
/// the bit pattern of the amount it consumes, and whether it is present at all
pub struct ReactantSelector {
    pub member_offset: u32,
    pub member_count: u32,
    pub amount_bits: u32,
    pub present: u32,
}

/// One product of a compiled reaction: its material, the bit pattern of the
/// amount it produces, and whether it is present at all
pub struct ReactionProduct {
    pub material: u32,
    pub amount_bits: u32,
    pub present: u32,
}

/// A compiled reaction rule; every bound and output is the bit pattern of an
/// IEEE 754 single
pub struct ReactionRule {
    pub reactants: [ReactantSelector; 2],
    pub products: [ReactionProduct; 2],
    pub minimum_temperature_bits: u32,
    pub maximum_temperature_bits: u32,
    pub minimum_pressure_bits: u32,
    pub maximum_pressure_bits: u32,
    pub minimum_air_bits: u32,
    pub maximum_air_bits: u32,
    pub maximum_extent_per_tick_bits: u32,
    pub thermal_energy_bits: u32,
    pub pressure_output_bits: u32,
    pub priority: i32,
    pub authoring_order: u32,
}

/// The record of one rule as the discovery shader reads it: both reactants, both
/// products each padded to four words, the bounds, the outputs, the priority's
/// two's-complement bits and the authoring order
pub open spec fn spec_record_words(rule: ReactionRule) -> Seq<u32> {
    seq![
        rule.reactants[0].member_offset,
        rule.reactants[0].member_count,
        rule.reactants[0].amount_bits,
        rule.reactants[0].present,
        rule.reactants[1].member_offset,
        rule.reactants[1].member_count,
        rule.reactants[1].amount_bits,
        rule.reactants[1].present,
        rule.products[0].material,
        rule.products[0].amount_bits,
        rule.products[0].present,
        0u32,
        rule.products[1].material,
        rule.products[1].amount_bits,
        rule.products[1].present,
        0u32,
        rule.minimum_temperature_bits,
        rule.maximum_temperature_bits,
        rule.minimum_pressure_bits,
        rule.maximum_pressure_bits,
        rule.minimum_air_bits,
        rule.maximum_air_bits,
        rule.maximum_extent_per_tick_bits,
        rule.thermal_energy_bits,
        rule.pressure_output_bits,
        rule.priority as u32,
        rule.authoring_order,
    ]
}

/// The records of `rules`, one after another
pub open spec fn spec_table_words(rules: Seq<ReactionRule>) -> Seq<u32>
    decreases rules.len(),
{
    if rules.len() == 0 {
        Seq::empty()
    } else {
        spec_table_words(rules.drop_last()) + spec_record_words(rules.last())
    }
}

/// The reaction records and selector members of one material registry, with the
/// slots allocated for each (never fewer than one)
pub struct ReactionMaterialTable {
    pub record_slots: usize,
    pub member_slots: usize,
    pub record_words: Vec<u32>,
    pub member_words: Vec<u32>,
}

/// The encoded record of one rule
fn record_words(rule: &ReactionRule) -> (words: [u32; 27])
    ensures
        words@ == spec_record_words(*rule),
{
    let priority_bits: u32 = #[verifier::truncate] (rule.priority as u32);
    [
        rule.reactants[0].member_offset,
        rule.reactants[0].member_count,
        rule.reactants[0].amount_bits,
        rule.reactants[0].present,
        rule.reactants[1].member_offset,
        rule.reactants[1].member_count,
        rule.reactants[1].amount_bits,
        rule.reactants[1].present,
        rule.products[0].material,
        rule.products[0].amount_bits,
        rule.products[0].present,
        0,
        rule.products[1].material,
        rule.products[1].amount_bits,
        rule.products[1].present,
        0,
        rule.minimum_temperature_bits,
        rule.maximum_temperature_bits,
        rule.minimum_pressure_bits,
        rule.maximum_pressure_bits,
        rule.minimum_air_bits,
        rule.maximum_air_bits,
        rule.maximum_extent_per_tick_bits,
        rule.thermal_energy_bits,
        rule.pressure_output_bits,
        priority_bits,
        rule.authoring_order,
    ]
}

impl ReactionMaterialTable {
    /// Encodes every rule and selector member of a registry
    pub fn new(rules: &[ReactionRule], selector_members: &[u32]) -> (table: Self)
        ensures
            table.record_slots == if rules@.len() == 0 { 1 } else { rules@.len() },
            table.member_slots == if selector_members@.len() == 0 { 1 } else { selector_members@.len() },
            table.record_words@ == spec_table_words(rules@),
            table.record_words@.len() == 27 * rules@.len(),
            table.member_words@ == selector_members@,
    {
        let mut words: Vec<u32> = Vec::new();
        let mut r: usize = 0;
        while r < rules.len()
            invariant
                r <= rules@.len(),
                words@ == spec_table_words(rules@.take(r as int)),
                words@.len() == 27 * r,
            decreases rules@.len() - r,
        {
            let record: [u32; 27] = record_words(&rules[r]);
            let ghost before = words@;
            let mut w: usize = 0;
            while w < REACTION_RECORD_WORD_COUNT
                invariant
                    w <= 27,
                    record@ == spec_record_words(rules@[r as int]),
                    words@ == before + record@.take(w as int),
                decreases 27 - w,
            {
                words.push(record[w]);
                proof {
                    assert(record@.take(w + 1) =~= record@.take(w as int).push(record@[w as int]));
                }
                w = w + 1;
            }
            proof {
                assert(rules@.take(r + 1).drop_last() =~= rules@.take(r as int));
                assert(record@.take(27) =~= record@);
            }
            r = r + 1;
        }
        proof {
            assert(rules@.take(r as int) =~= rules@);
        }
        let mut members: Vec<u32> = Vec::new();
        let mut m: usize = 0;
        while m < selector_members.len()
            invariant
                m <= selector_members@.len(),
                members@ == selector_members@.take(m as int),
            decreases selector_members@.len() - m,
        {
            members.push(selector_members[m]);
            proof {
                assert(selector_members@.take(m + 1) =~= selector_members@.take(m as int).push(selector_members@[m as int]));
            }
            m = m + 1;
        }
        proof {
            assert(selector_members@.take(m as int) =~= selector_members@);
        }
        ReactionMaterialTable {
            record_slots: if rules.len() == 0 { 1 } else { rules.len() },
            member_slots: if selector_members.len() == 0 { 1 } else { selector_members.len() },
            record_words: words,
            member_words: members,
        }
    }

    /// The bytes written to the record buffer, or nothing when the registry has no rules
    pub fn record_upload(&self) -> (upload: Option<Vec<u8>>)
        requires
            self.record_words@.len() * 4 <= usize::MAX,
        ensures
            self.record_words@.len() == 0 ==> upload is None,
            self.record_words@.len() > 0 ==> (upload matches Some(bytes) && bytes@ == spec_words_le_bytes(
                self.record_words@,
            )),
    {
        if self.record_words.len() == 0 {
            None
        } else {
            Some(encode_words_le(self.record_words.as_slice()))
        }
    }

    /// The bytes written to the selector member buffer, or nothing when the
    /// registry has no selector members
    pub fn member_upload(&self) -> (upload: Option<Vec<u8>>)
        requires
            self.member_words@.len() * 4 <= usize::MAX,
        ensures
            self.member_words@.len() == 0 ==> upload is None,
            self.member_words@.len() > 0 ==> (upload matches Some(bytes) && bytes@ == spec_words_le_bytes(
                self.member_words@,
            )),
    {
        if self.member_words.len() == 0 {
            None
        } else {
            Some(encode_words_le(self.member_words.as_slice()))
        }
    }
}

} // verus!
