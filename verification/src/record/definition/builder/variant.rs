//! Variant builders of [RecordDefinitionBuilder](super::RecordDefinitionBuilder).

use vstd::prelude::*;

pub use crate::record::definition::builder::generic::variant::RecordVariantBuilder;
pub use crate::record::definition::builder::native::variant::{
    append_data, append_data_reverse, simple, NativeDataUpdater as DataUpdater,
};

use crate::record::definition::builder::native::variant::{
    basic_with, first_room_layout, in_first_room, law_first_room_places_in_order, layout_post, layout_pre,
    placed_before, sorted_layout,
};
use crate::record::definition::{
    end_of, offset_of, DatumDefinition, DatumDefinitionCollection, DatumId, NativeDatumDetails,
};

verus! {

/// The default variant builder of [RecordDefinitionBuilder](super::RecordDefinitionBuilder):
/// removes the data to remove, then places each datum to add in the first room between the data
/// that leaves at least one free byte after it, or at the end.
pub fn basic(
    data: Vec<DatumId>,
    data_to_add: Vec<DatumId>,
    data_to_remove: Vec<DatumId>,
    datum_definitions: &mut DatumDefinitionCollection<NativeDatumDetails>,
) -> (r: Vec<DatumId>)
    requires
        layout_pre(old(datum_definitions)@, data@, data_to_add@, data_to_remove@),
        sorted_layout(old(datum_definitions)@, data@),
    ensures
        layout_post(old(datum_definitions)@, final(datum_definitions)@, data@, data_to_add@, data_to_remove@, r@),
        sorted_layout(final(datum_definitions)@, r@),
        forall|j: int|
            0 < j < data_to_add@.len() ==> offset_of(final(datum_definitions)@, #[trigger] data_to_add@[j]) >= end_of(
                final(datum_definitions)@,
                data_to_add@[j - 1],
            ),
        forall|j: int| 0 < j < data_to_add@.len() ==> #[trigger] placed_before(r@, data_to_add@[j - 1], data_to_add@[j]),
        forall|k: int|
            0 <= k < data_to_add@.len() ==> #[trigger] in_first_room(
                final(datum_definitions)@,
                r@,
                data_to_add@,
                k,
                true,
            ),
        (final(datum_definitions)@, r@) == first_room_layout(
            old(datum_definitions)@,
            data@,
            data_to_add@,
            data_to_remove@,
            true,
        ),
{
    let ghost defs0 = datum_definitions@;
    let ghost data0 = data@;
    let ghost add = data_to_add@;
    let ghost removed = data_to_remove@;
    let r = basic_with(data, data_to_add, data_to_remove, datum_definitions, true);
    proof {
        law_first_room_places_in_order(defs0, data0, add, removed, true);
        let layout = first_room_layout(defs0, data0, add, removed, true);
        assert(layout.0 == datum_definitions@ && layout.1 == r@);
    }
    r
}

/// The builder [basic] as a value.
pub struct Basic;

impl RecordVariantBuilder<NativeDatumDetails> for Basic {
    open spec fn admits(
        &self,
        defs: Seq<DatumDefinition<NativeDatumDetails>>,
        data: Seq<DatumId>,
        data_to_add: Seq<DatumId>,
        data_to_remove: Seq<DatumId>,
    ) -> bool {
        layout_pre(defs, data, data_to_add, data_to_remove) && sorted_layout(defs, data)
    }

    open spec fn builds(
        &self,
        old_defs: Seq<DatumDefinition<NativeDatumDetails>>,
        new_defs: Seq<DatumDefinition<NativeDatumDetails>>,
        data: Seq<DatumId>,
        data_to_add: Seq<DatumId>,
        data_to_remove: Seq<DatumId>,
        result: Seq<DatumId>,
    ) -> bool {
        layout_post(old_defs, new_defs, data, data_to_add, data_to_remove, result)
            && sorted_layout(new_defs, result)
            && (new_defs, result) == first_room_layout(old_defs, data, data_to_add, data_to_remove, true)
    }

    fn build(
        self,
        data: Vec<DatumId>,
        data_to_add: Vec<DatumId>,
        data_to_remove: Vec<DatumId>,
        datum_definitions: &mut DatumDefinitionCollection<NativeDatumDetails>,
    ) -> (r: Vec<DatumId>) {
        basic(data, data_to_add, data_to_remove, datum_definitions)
    }
}

} // verus!
