//! Host-side bookkeeping of material mutation resolution: the table of default
//! integrities of the static materials, the request queue's size, and the
//! parameter block of a resolve.

use vstd::prelude::*;
use crate::gpu_words::{encode_words_le, spec_words_le_bytes};

verus! {

/// The default integrity bits of every static material, in registry order: the
/// materials that are not static contribute nothing
pub open spec fn static_defaults(materials: Seq<Option<u32>>) -> Seq<u32>
    decreases materials.len(),
{
    if materials.len() == 0 {
        Seq::empty()
    } else {
        let rest = static_defaults(materials.drop_last());
        match materials.last() {
            Some(bits) => rest.push(bits),
            None => rest,
        }
    }
}

/// Resolves the material mutations requested by other systems
pub struct MaterialMutations {
    /// One request slot per buffered cell
    pub request_slots: usize,
    /// The default integrity bits of the static materials, in registry order
    pub static_defaults: Vec<u32>,
    /// Entries allocated for the defaults table: one per static material, and at least one
    pub static_default_count: usize,
}

impl MaterialMutations {
    /// Bookkeeping for a registry whose materials carry the bits of their default
    /// integrity when static (`None` otherwise), over `buffered_cell_count` cells
    pub fn new(materials: &[Option<u32>], buffered_cell_count: usize) -> (mutations: Self)
        ensures
            mutations.request_slots == buffered_cell_count,
            mutations.static_defaults@ == static_defaults(materials@),
            mutations.static_default_count == if static_defaults(materials@).len() == 0 {
                1
            } else {
                static_defaults(materials@).len()
            },
    {
        let mut defaults: Vec<u32> = Vec::new();
        let mut i: usize = 0;
        while i < materials.len()
            invariant
                i <= materials@.len(),
                defaults@ == static_defaults(materials@.take(i as int)),
                defaults@.len() <= i,
            decreases materials@.len() - i,
        {
            proof {
                assert(materials@.take(i + 1).drop_last() =~= materials@.take(i as int));
            }
            match materials[i] {
                Some(bits) => defaults.push(bits),
                None => {},
            }
            i = i + 1;
        }
        proof {
            assert(materials@.take(i as int) =~= materials@);
        }
        let count: usize = if defaults.len() == 0 { 1 } else { defaults.len() };
        MaterialMutations { request_slots: buffered_cell_count, static_defaults: defaults, static_default_count: count }
    }

    /// The bytes written to the defaults table, or nothing when no material is static
    pub fn defaults_upload(&self) -> (upload: Option<Vec<u8>>)
        requires
            self.static_defaults@.len() * 4 <= usize::MAX,
        ensures
            self.static_defaults@.len() == 0 ==> upload is None,
            self.static_defaults@.len() > 0 ==> (upload matches Some(bytes) && bytes@ == spec_words_le_bytes(
                self.static_defaults@,
            )),
    {
        if self.static_defaults.len() == 0 {
            None
        } else {
            Some(encode_words_le(self.static_defaults.as_slice()))
        }
    }

    /// The parameter block of one resolve
    pub fn resolve(&self, buffered_cell_count: u32, gas_count: u32) -> (parameters: [u32; 4])
        ensures
            parameters@ == seq![buffered_cell_count, gas_count, 0u32, 0u32],
    {
        [buffered_cell_count, gas_count, 0, 0]
    }
}

} // verus!
