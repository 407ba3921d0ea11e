//! Record definition builders.

pub mod generic;
pub mod native;
pub mod variant;

use vstd::prelude::*;

pub use crate::record::definition::builder::native::DatumDefinitionOverride;

use crate::record::definition::builder::generic::variant::RecordVariantBuilder;
use crate::record::definition::builder::generic::{
    datum_pushed, datum_removed, first_named, removable, variant_closed, GenericRecordDefinitionBuilder,
};
use crate::record::definition::builder::native::variant::{first_room_layout, layout_post, layout_pre, sorted_layout};
use crate::record::definition::builder::native::{
    apply_override, lemma_closed_laid_out, lemma_pushed_laid_out, overridden_info, unplaced, variants_laid_out,
    variants_sorted,
};
use crate::record::definition::{
    no_datum_comes_back,
    DatumDefinition, DatumId, NativeDatumDetails, RecordDefinition, RecordVariant, RecordVariantId,
};
use crate::record::type_resolver::{DynamicTypeInfo, TypeInfo, TypeResolver};

verus! {

/// Main structure to start building record definitions.
///
/// Data are added and removed variant after variant; each variant is laid out in memory, by
/// increasing offsets, when it is closed.
pub struct RecordDefinitionBuilder<R> where R: TypeResolver {
    inner: GenericRecordDefinitionBuilder<NativeDatumDetails>,
    type_resolver: R,
}

impl<R> RecordDefinitionBuilder<R> where R: TypeResolver {
    /// The underlying generic builder.
    pub closed spec fn builder(&self) -> GenericRecordDefinitionBuilder<NativeDatumDetails> {
        self.inner
    }

    /// The type resolver.
    pub closed spec fn resolver(&self) -> R {
        self.type_resolver
    }

    /// The builder is consistent and every closed variant is laid out by increasing offsets.
    pub open spec fn wf(&self) -> bool {
        &&& self.builder().wf()
        &&& variants_laid_out(self.builder())
        &&& variants_sorted(self.builder())
    }

    /// The current variant can be laid out: the data to add have a non-zero alignment and fit
    /// in the address space.
    pub open spec fn closable(&self) -> bool {
        self.builder().pending() ==> layout_pre(
            self.builder().defs(),
            self.builder().last_data(),
            self.builder().to_add(),
            self.builder().to_remove(),
        )
    }

    /// `self` is `old` with a new datum `id` named `name`, not placed yet, of type `type_info`.
    pub open spec fn pushed(
        &self,
        old: Self,
        name: Seq<char>,
        type_info: (Seq<char>, usize, usize),
        allow_uninit: bool,
        id: DatumId,
    ) -> bool {
        &&& self.resolver() == old.resolver()
        &&& unplaced(type_info, allow_uninit, self.builder().defs().last().details)
        &&& datum_pushed(old.builder(), self.builder(), name, self.builder().defs().last().details, id)
    }

    /// Creates a new builder with a type resolver.
    pub fn new(type_resolver: R) -> (r: Self)
        ensures
            r.wf(),
            r.builder().is_empty(),
            r.resolver() == type_resolver,
    {
        RecordDefinitionBuilder { inner: GenericRecordDefinitionBuilder::new(), type_resolver }
    }

    fn push_details(&mut self, name: &str, details: NativeDatumDetails) -> (id: DatumId)
        requires
            old(self).wf(),
        ensures
            final(self).wf(),
            final(self).resolver() == old(self).resolver(),
            final(self).builder().defs().last().details == details,
            datum_pushed(old(self).builder(), final(self).builder(), name@, details, id),
    {
        let ghost old_inner = self.inner;
        let id = self.inner.add_datum_unchecked(name, details);
        proof {
            lemma_pushed_laid_out(old_inner, self.inner, name@, details, id);
        }
        id
    }

    /// Adds a new datum of the given type to the current variant.
    ///
    /// If the type is `Copy`, consider [add_datum_allow_uninit](Self::add_datum_allow_uninit)
    /// instead.
    pub fn add_datum(&mut self, name: &str, type_info: TypeInfo) -> (id: DatumId)
        requires
            old(self).wf(),
        ensures
            final(self).wf(),
            final(self).pushed(*old(self), name@, type_info@, false, id),
    {
        let details = NativeDatumDetails { offset: usize::MAX, type_info, allow_uninit: false };
        self.push_details(name, details)
    }

    /// Adds a new datum of a `Copy` type to the current variant: it may be left uninitialized.
    pub fn add_datum_allow_uninit(&mut self, name: &str, type_info: TypeInfo) -> (id: DatumId)
        requires
            old(self).wf(),
        ensures
            final(self).wf(),
            final(self).pushed(*old(self), name@, type_info@, true, id),
    {
        let details = NativeDatumDetails { offset: usize::MAX, type_info, allow_uninit: true };
        self.push_details(name, details)
    }

    /// Adds a new datum to the current variant when its type information needs to be overridden.
    pub fn add_datum_override(
        &mut self,
        name: &str,
        type_info: TypeInfo,
        datum_override: DatumDefinitionOverride,
    ) -> (id: DatumId)
        requires
            old(self).wf(),
        ensures
            final(self).wf(),
            final(self).pushed(
                *old(self),
                name@,
                overridden_info(type_info@, datum_override),
                match datum_override.allow_uninit {
                    Some(b) => b,
                    None => false,
                },
                id,
            ),
    {
        let (target_info, allow_uninit) = apply_override(type_info, datum_override);
        let details = NativeDatumDetails { offset: usize::MAX, type_info: target_info, allow_uninit };
        self.push_details(name, details)
    }

    /// Adds a new datum of dynamic type to the current variant, or gives `None`, leaving the
    /// builder as it was, when the type resolver refuses the type.
    pub fn add_dynamic_datum(&mut self, name: &str, type_path: &str) -> (r: Option<DatumId>)
        requires
            old(self).wf(),
        ensures
            final(self).wf(),
            final(self).resolver() == old(self).resolver(),
            r is None ==> final(self).builder() == old(self).builder() && old(self).resolver().refuses(type_path@),
            r matches Some(id) ==> {
                &&& final(self).builder().defs().last().details.offset == usize::MAX
                &&& old(self).resolver().resolves(
                    type_path@,
                    (
                        final(self).builder().defs().last().details.type_info@,
                        final(self).builder().defs().last().details.allow_uninit,
                    ),
                )
                &&& datum_pushed(
                    old(self).builder(),
                    final(self).builder(),
                    name@,
                    final(self).builder().defs().last().details,
                    id,
                )
            },
    {
        match self.type_resolver.dynamic_type_info(type_path) {
            Some(dynamic_type_info) => {
                let DynamicTypeInfo { info, allow_uninit } = dynamic_type_info;
                let details = NativeDatumDetails { offset: usize::MAX, type_info: info, allow_uninit };
                Some(self.push_details(name, details))
            },
            None => None,
        }
    }

    /// Adds a new datum by copying an existing definition: same name, type information and
    /// `allow_uninit` flag.
    pub fn copy_datum(&mut self, datum: &DatumDefinition<NativeDatumDetails>) -> (id: DatumId)
        requires
            old(self).wf(),
        ensures
            final(self).wf(),
            final(self).pushed(*old(self), datum.name@, datum.details.type_info@, datum.details.allow_uninit, id),
    {
        let details = NativeDatumDetails {
            offset: usize::MAX,
            type_info: datum.details.type_info.duplicate(),
            allow_uninit: datum.details.allow_uninit,
        };
        self.push_details(datum.name.as_str(), details)
    }

    /// Removes a datum from the current variant: a datum of the previous variant is marked as
    /// removed, a datum added to the variant being built is dropped from it.
    ///
    /// The datum must be in the previous variant and not removed yet, or be added to the variant
    /// being built.
    pub fn remove_datum(&mut self, datum_id: DatumId)
        requires
            old(self).wf(),
            removable(old(self).builder(), datum_id),
        ensures
            final(self).wf(),
            final(self).resolver() == old(self).resolver(),
            datum_removed(old(self).builder(), final(self).builder(), datum_id, Ok(())),
    {
        let r = self.inner.remove_datum(datum_id);
        proof {
            assert(r is Ok);
        }
    }

    /// Closes the current record variant with the default variant builder ([basic](variant::basic))
    /// and allows starting a new one.
    ///
    /// When nothing changed since the last variant, the last variant is given back.
    pub fn close_record_variant(&mut self) -> (r: RecordVariantId)
        requires
            old(self).wf(),
            old(self).closable(),
        ensures
            final(self).wf(),
            final(self).resolver() == old(self).resolver(),
            variant_closed(old(self).builder(), final(self).builder(), r),
            old(self).builder().pending() ==> layout_post(
                old(self).builder().defs(),
                final(self).builder().defs(),
                old(self).builder().last_data(),
                old(self).builder().to_add(),
                old(self).builder().to_remove(),
                final(self).builder().variants_view().last().data@,
            ),
            old(self).builder().pending() ==> (
                final(self).builder().defs(),
                final(self).builder().variants_view().last().data@,
            ) == first_room_layout(
                old(self).builder().defs(),
                old(self).builder().last_data(),
                old(self).builder().to_add(),
                old(self).builder().to_remove(),
                true,
            ),
    {
        let ghost old_inner = self.inner;
        proof {
            if old_inner.pending() && old_inner.variants_view().len() > 0 {
                assert(sorted_layout(old_inner.defs(), old_inner.variants_view()[old_inner.variants_view().len() - 1].data@));
            }
        }
        self.close_record_variant_with(variant::Basic)
    }

    /// Closes the current record variant with a variant builder and allows starting a new one.
    ///
    /// The builder stays consistent when the variant builder lays out the new variant by
    /// increasing offsets.
    pub fn close_record_variant_with<Builder>(&mut self, builder: Builder) -> (r: RecordVariantId) where
        Builder: RecordVariantBuilder<NativeDatumDetails>,

        requires
            old(self).wf(),
            old(self).builder().pending() ==> builder.admits(
                old(self).builder().defs(),
                old(self).builder().last_data(),
                old(self).builder().to_add(),
                old(self).builder().to_remove(),
            ),
        ensures
            final(self).builder().wf(),
            final(self).resolver() == old(self).resolver(),
            variant_closed(old(self).builder(), final(self).builder(), r),
            old(self).builder().pending() ==> builder.builds(
                old(self).builder().defs(),
                final(self).builder().defs(),
                old(self).builder().last_data(),
                old(self).builder().to_add(),
                old(self).builder().to_remove(),
                final(self).builder().variants_view().last().data@,
            ),
            (old(self).builder().pending() ==> layout_post(
                old(self).builder().defs(),
                final(self).builder().defs(),
                old(self).builder().last_data(),
                old(self).builder().to_add(),
                old(self).builder().to_remove(),
                final(self).builder().variants_view().last().data@,
            ) && sorted_layout(final(self).builder().defs(), final(self).builder().variants_view().last().data@))
                ==> final(self).wf(),
    {
        let ghost old_inner = self.inner;
        let r = self.inner.close_record_variant_with(builder);
        proof {
            if old_inner.pending() ==> layout_post(
                old_inner.defs(),
                self.inner.defs(),
                old_inner.last_data(),
                old_inner.to_add(),
                old_inner.to_remove(),
                self.inner.variants_view().last().data@,
            ) && sorted_layout(self.inner.defs(), self.inner.variants_view().last().data@) {
                lemma_closed_laid_out(old_inner, self.inner, r);
            }
        }
        r
    }

    /// Accesses datum definitions by ID.
    pub fn get_datum_definition(&self, id: DatumId) -> (r: Option<&DatumDefinition<NativeDatumDetails>>)
        ensures
            r == (if id.0 < self.builder().defs().len() { Some(&self.builder().defs()[id.0 as int]) } else { None }),
    {
        self.inner.get_datum_definition(id)
    }

    /// The closed variants, in the order of their identifiers.
    pub fn variants(&self) -> (r: &[RecordVariant])
        ensures
            r@ == self.builder().variants_view(),
    {
        self.inner.variants()
    }

    /// All the datum definitions so far, in the order of their identifiers.
    pub fn datum_definitions(&self) -> (r: &[DatumDefinition<NativeDatumDetails>])
        ensures
            r@ == self.builder().defs(),
    {
        self.inner.datum_definitions()
    }

    /// Accesses variant definitions by ID.
    pub fn get_variant(&self, id: RecordVariantId) -> (r: Option<&RecordVariant>)
        ensures
            r == (if id.0 < self.builder().variants_view().len() {
                Some(&self.builder().variants_view()[id.0 as int])
            } else {
                None
            }),
    {
        self.inner.get_variant(id)
    }

    /// Accesses datum definitions by variant ID and datum name.
    pub fn get_variant_datum_definition_by_name(&self, variant_id: RecordVariantId, name: &str) -> (r: Option<
        &DatumDefinition<NativeDatumDetails>,
    >)
        requires
            self.wf(),
        ensures
            variant_id.0 >= self.builder().variants_view().len() ==> r is None,
            variant_id.0 < self.builder().variants_view().len() ==> first_named(
                self.builder().defs(),
                self.builder().variants_view()[variant_id.0 as int].data@,
                name@,
                r,
            ),
    {
        self.inner.get_variant_datum_definition_by_name(variant_id, name)
    }

    /// Gets the IDs of the data present in the current variant.
    pub fn get_current_data(&self) -> (r: Vec<DatumId>)
        requires
            self.wf(),
        ensures
            r@ == self.builder().current_data(),
    {
        self.inner.get_current_data()
    }

    /// Accesses datum definitions of the current variant by datum name.
    pub fn get_current_datum_definition_by_name(&self, name: &str) -> (r: Option<&DatumDefinition<NativeDatumDetails>>)
        requires
            self.wf(),
        ensures
            first_named(self.builder().defs(), self.builder().current_data(), name@, r),
    {
        self.inner.get_current_datum_definition_by_name(name)
    }

    /// Wraps up everything into a [RecordDefinition], closing the current variant first when
    /// data were added or removed since the last one.
    pub fn build(self) -> (r: RecordDefinition<NativeDatumDetails>)
        requires
            self.wf(),
            self.closable(),
        ensures
            r.wf(),
            r.laid_out(),
            no_datum_comes_back(r.variants@),
            forall|v: int|
                0 <= v < r.variants@.len() ==> sorted_layout(r.datum_definitions@, (#[trigger] r.variants@[v]).data@),
            self.builder().to_add().len() == 0 && self.builder().to_remove().len() == 0 ==> {
                &&& r.datum_definitions@ == self.builder().defs()
                &&& r.variants@ == self.builder().variants_view()
            },
            self.builder().to_add().len() > 0 || self.builder().to_remove().len() > 0 ==> {
                let n = self.builder().variants_view().len();
                &&& r.variants@.len() == n + 1
                &&& r.variants@.take(n as int) == self.builder().variants_view()
                &&& r.variants@.last().id == RecordVariantId(n as usize)
                &&& layout_post(
                    self.builder().defs(),
                    r.datum_definitions@,
                    self.builder().last_data(),
                    self.builder().to_add(),
                    self.builder().to_remove(),
                    r.variants@.last().data@,
                )
                &&& (r.datum_definitions@, r.variants@.last().data@) == first_room_layout(
                    self.builder().defs(),
                    self.builder().last_data(),
                    self.builder().to_add(),
                    self.builder().to_remove(),
                    true,
                )
            },
    {
        let mut this = self;
        if this.inner.has_data_changes() {
            this.close_record_variant();
        }
        this.inner.build()
    }
}

} // verus!
