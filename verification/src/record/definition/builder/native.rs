//! Native record definition builder.

pub mod variant;

use vstd::prelude::*;

use crate::record::definition::builder::generic::variant::{variant_build_post, RecordVariantBuilder};
use crate::record::definition::builder::generic::{
    datum_added, datum_removed, first_named, removable, variant_closed, GenericRecordDefinitionBuilder,
};
use crate::record::definition::builder::native::variant::{
    layout_post, layout_pre, lemma_layout_frame, simple_layout, sorted_layout, Simple,
};
use crate::record::definition::{
    no_datum_comes_back,
    ordered_layout, DatumDefinition, DatumId, NativeDatumDetails, RecordDefinition, RecordVariant,
    RecordVariantId,
};
use crate::record::type_resolver::{DynamicTypeInfo, TypeInfo, TypeResolver};

verus! {

/// Overrides of the type information of a datum.
pub struct DatumDefinitionOverride {
    /// Replaces the type name.
    pub type_name_override: Option<String>,
    /// Replaces the size.
    pub size: Option<usize>,
    /// Replaces the alignment.
    pub align: Option<usize>,
    /// Replaces the `allow_uninit` flag (`false` by default).
    pub allow_uninit: Option<bool>,
}

/// The type information once overridden.
pub open spec fn overridden_info(base: (Seq<char>, usize, usize), o: DatumDefinitionOverride) -> (Seq<char>, usize, usize) {
    (
        match o.type_name_override {
            Some(n) => n@,
            None => base.0,
        },
        match o.size {
            Some(s) => s,
            None => base.1,
        },
        match o.align {
            Some(a) => a,
            None => base.2,
        },
    )
}

/// Applies the overrides to type information, giving also the `allow_uninit` flag.
pub fn apply_override(base: TypeInfo, datum_override: DatumDefinitionOverride) -> (r: (TypeInfo, bool))
    ensures
        r.0@ == overridden_info(base@, datum_override),
        r.1 == match datum_override.allow_uninit {
            Some(b) => b,
            None => false,
        },
{
    let mut target_info = base;
    let DatumDefinitionOverride { type_name_override, size, align, allow_uninit } = datum_override;
    if let Some(type_name_override) = type_name_override {
        target_info.name = type_name_override;
    }
    if let Some(size) = size {
        target_info.size = size;
    }
    if let Some(align) = align {
        target_info.align = align;
    }
    let allow_uninit = match allow_uninit {
        Some(b) => b,
        None => false,
    };
    (target_info, allow_uninit)
}

/// Details of a datum not placed yet.
pub open spec fn unplaced(type_info: (Seq<char>, usize, usize), allow_uninit: bool, details: NativeDatumDetails) -> bool {
    &&& details.offset == usize::MAX
    &&& details.type_info@ == type_info
    &&& details.allow_uninit == allow_uninit
}

/// The error given when the type resolver does not know the type written `type_path`.
pub open spec fn unresolved_type_message(type_path: Seq<char>) -> Seq<char> {
    "Could not resolve type "@ + type_path
}

/// A datum resolved with the type information `info` was added under `name`.
pub open spec fn resolved_datum_added(
    old: GenericRecordDefinitionBuilder<NativeDatumDetails>,
    new: GenericRecordDefinitionBuilder<NativeDatumDetails>,
    name: Seq<char>,
    info: ((Seq<char>, usize, usize), bool),
    r: Result<DatumId, String>,
) -> bool {
    exists|d: NativeDatumDetails| unplaced(info.0, info.1, d) && #[trigger] datum_added(old, new, name, d, r)
}

/// Main structure to build native record definitions: the data are laid out in memory as Rust
/// would lay out the fields of a structure.
pub struct NativeRecordDefinitionBuilder<R> where R: TypeResolver {
    inner: GenericRecordDefinitionBuilder<NativeDatumDetails>,
    type_resolver: R,
}

impl<R> NativeRecordDefinitionBuilder<R> where R: TypeResolver {
    /// The underlying generic builder.
    pub closed spec fn builder(&self) -> GenericRecordDefinitionBuilder<NativeDatumDetails> {
        self.inner
    }

    /// The type resolver.
    pub closed spec fn resolver(&self) -> R {
        self.type_resolver
    }

    /// Every closed variant is laid out in memory without overlap.
    pub open spec fn laid_out(&self) -> bool {
        variants_laid_out(self.builder())
    }

    /// The builder is consistent and its variants are laid out.
    pub open spec fn wf(&self) -> bool {
        self.builder().wf() && self.laid_out()
    }

    /// The current variant can be closed with the default variant builder: the data to add
    /// have a non-zero alignment and fit in the address space.
    pub open spec fn closable(&self) -> bool {
        self.builder().pending() ==> layout_pre(
            self.builder().defs(),
            self.builder().last_data(),
            self.builder().to_add(),
            self.builder().to_remove(),
        )
    }

    /// Creates a new builder with a type resolver.
    pub fn new(type_resolver: R) -> (r: Self)
        ensures
            r.wf(),
            r.builder().is_empty(),
            r.resolver() == type_resolver,
    {
        NativeRecordDefinitionBuilder { inner: GenericRecordDefinitionBuilder::new(), type_resolver }
    }
}

/// Every closed variant of `b` is laid out in memory without overlap.
pub open spec fn variants_laid_out(b: GenericRecordDefinitionBuilder<NativeDatumDetails>) -> bool {
    forall|v: int|
        0 <= v < b.variants_view().len() ==> ordered_layout(b.defs(), (#[trigger] b.variants_view()[v]).data@)
}

/// Every closed variant of `b` is laid out in memory by increasing offsets, empty datums included.
pub open spec fn variants_sorted(b: GenericRecordDefinitionBuilder<NativeDatumDetails>) -> bool {
    forall|v: int|
        0 <= v < b.variants_view().len() ==> sorted_layout(b.defs(), (#[trigger] b.variants_view()[v]).data@)
}

/// Adding a datum keeps the layout of the closed variants.
pub proof fn lemma_pushed_laid_out(
    old: GenericRecordDefinitionBuilder<NativeDatumDetails>,
    new: GenericRecordDefinitionBuilder<NativeDatumDetails>,
    name: Seq<char>,
    details: NativeDatumDetails,
    id: DatumId,
)
    requires
        old.wf(),
        variants_laid_out(old),
        crate::record::definition::builder::generic::datum_pushed(old, new, name, details, id),
    ensures
        variants_laid_out(new),
        variants_sorted(old) ==> variants_sorted(new),
{
    assert forall|v: int| 0 <= v < new.variants_view().len() implies ordered_layout(
        new.defs(),
        (#[trigger] new.variants_view()[v]).data@,
    ) && (variants_sorted(old) ==> sorted_layout(new.defs(), new.variants_view()[v].data@)) by {
        let data = new.variants_view()[v].data@;
        assert(old.variants_view()[v] == new.variants_view()[v]);
        assert(ordered_layout(old.defs(), data));
        assert forall|i: int| 0 <= i < data.len() implies new.defs()[(#[trigger] data[i]).0 as int] == old.defs()[data[i].0 as int] by {
            assert(new.defs().take(old.defs().len() as int)[data[i].0 as int] == old.defs()[data[i].0 as int]);
        }
        lemma_layout_frame(old.defs(), new.defs(), data);
    }
}

/// Closing a variant with a native variant builder keeps every variant laid out.
pub proof fn lemma_closed_laid_out(
    old: GenericRecordDefinitionBuilder<NativeDatumDetails>,
    new: GenericRecordDefinitionBuilder<NativeDatumDetails>,
    r: RecordVariantId,
)
    requires
        old.wf(),
        new.wf(),
        variants_laid_out(old),
        variant_closed(old, new, r),
        old.pending() ==> layout_post(
            old.defs(),
            new.defs(),
            old.last_data(),
            old.to_add(),
            old.to_remove(),
            new.variants_view().last().data@,
        ),
    ensures
        variants_laid_out(new),
        variants_sorted(old) && (old.pending() ==> sorted_layout(new.defs(), new.variants_view().last().data@))
            ==> variants_sorted(new),
{
    if old.pending() {
        let n = old.variants_view().len() as int;
        assert forall|v: int| 0 <= v < new.variants_view().len() implies ordered_layout(
            new.defs(),
            (#[trigger] new.variants_view()[v]).data@,
        ) && (variants_sorted(old) && sorted_layout(new.defs(), new.variants_view().last().data@) ==> sorted_layout(
            new.defs(),
            new.variants_view()[v].data@,
        )) by {
            if v < n {
                let data = new.variants_view()[v].data@;
                assert(new.variants_view().take(n)[v] == old.variants_view()[v]);
                assert(ordered_layout(old.defs(), data));
                assert forall|i: int| 0 <= i < data.len() && (#[trigger] data[i]).0 < old.defs().len() implies data[i].0
                    < new.defs().len() && new.defs()[data[i].0 as int].details.offset == old.defs()[data[i].0 as int].details.offset
                    && new.defs()[data[i].0 as int].details.type_info.size == old.defs()[data[i].0 as int].details.type_info.size
                    && new.defs()[data[i].0 as int].details.type_info.align == old.defs()[data[i].0 as int].details.type_info.align by {
                    let k = data[i].0 as int;
                    assert(old.defs()[k].id.0 == k);
                    if old.to_add().contains(DatumId(k as usize)) {
                        let j = choose|j: int| 0 <= j < old.to_add().len() && old.to_add()[j] == DatumId(k as usize);
                        assert(data[i] == DatumId(k as usize));
                        assert(!old.variants_view()[v].data@.contains(old.to_add()[j]));
                    }
                }
                lemma_layout_frame(old.defs(), new.defs(), data);
            }
        }
    }
}

impl<R> NativeRecordDefinitionBuilder<R> where R: TypeResolver {
    fn add_details(&mut self, name: &str, details: NativeDatumDetails) -> (r: Result<DatumId, String>)
        requires
            old(self).wf(),
        ensures
            final(self).wf(),
            final(self).resolver() == old(self).resolver(),
            datum_added(old(self).builder(), final(self).builder(), name@, details, r),
    {
        let ghost old_inner = self.inner;
        let r = self.inner.add_datum(name, details);
        proof {
            if let Ok(id) = r {
                lemma_pushed_laid_out(old_inner, self.inner, name@, details, id);
            }
        }
        r
    }

    /// Adds a new datum of the given type to the current variant.
    ///
    /// It fails when a datum of the current variant already has that name.
    pub fn add_datum(&mut self, name: &str, type_info: TypeInfo) -> (r: Result<DatumId, String>)
        requires
            old(self).wf(),
        ensures
            final(self).wf(),
            final(self).resolver() == old(self).resolver(),
            exists|d: NativeDatumDetails|
                unplaced(type_info@, false, d) && datum_added(old(self).builder(), final(self).builder(), name@, d, r),
    {
        let details = NativeDatumDetails { offset: usize::MAX, type_info, allow_uninit: false };
        let r = self.add_details(name, details);
        assert(unplaced(details.type_info@, false, details));
        r
    }

    /// Adds a new datum of a `Copy` type to the current variant: it may be left uninitialized.
    ///
    /// It fails when a datum of the current variant already has that name.
    pub fn add_datum_allow_uninit(&mut self, name: &str, type_info: TypeInfo) -> (r: Result<DatumId, String>)
        requires
            old(self).wf(),
        ensures
            final(self).wf(),
            final(self).resolver() == old(self).resolver(),
            exists|d: NativeDatumDetails|
                unplaced(type_info@, true, d) && datum_added(old(self).builder(), final(self).builder(), name@, d, r),
    {
        let details = NativeDatumDetails { offset: usize::MAX, type_info, allow_uninit: true };
        let r = self.add_details(name, details);
        assert(unplaced(details.type_info@, true, details));
        r
    }

    /// Adds a new datum to the current variant when its type information needs to be overridden.
    ///
    /// It fails when a datum of the current variant already has that name.
    pub fn add_datum_override(
        &mut self,
        name: &str,
        type_info: TypeInfo,
        datum_override: DatumDefinitionOverride,
    ) -> (r: Result<DatumId, String>)
        requires
            old(self).wf(),
        ensures
            final(self).wf(),
            final(self).resolver() == old(self).resolver(),
            exists|d: NativeDatumDetails|
                unplaced(
                    overridden_info(type_info@, datum_override),
                    match datum_override.allow_uninit {
                        Some(b) => b,
                        None => false,
                    },
                    d,
                ) && datum_added(old(self).builder(), final(self).builder(), name@, d, r),
    {
        let (target_info, allow_uninit) = apply_override(type_info, datum_override);
        let details = NativeDatumDetails { offset: usize::MAX, type_info: target_info, allow_uninit };
        let r = self.add_details(name, details);
        assert(unplaced(details.type_info@, allow_uninit, details));
        r
    }

    /// Adds a new datum of dynamic type to the current variant.
    ///
    /// It fails, leaving the builder as it was, when the type resolver refuses the type, and when
    /// a datum of the current variant already has that name.
    pub fn add_dynamic_datum(&mut self, name: &str, type_path: &str) -> (r: Result<DatumId, String>)
        requires
            old(self).wf(),
        ensures
            final(self).wf(),
            final(self).resolver() == old(self).resolver(),
            ({
                ||| final(self).builder() == old(self).builder() && old(self).resolver().refuses(type_path@) && (
                r matches Err(e) && e@ == unresolved_type_message(type_path@))
                ||| exists|info: ((Seq<char>, usize, usize), bool)|
                    old(self).resolver().resolves(type_path@, info) && #[trigger] resolved_datum_added(
                        old(self).builder(),
                        final(self).builder(),
                        name@,
                        info,
                        r,
                    )
            }),
    {
        let dynamic_type_info = match self.type_resolver.dynamic_type_info(type_path) {
            Some(info) => info,
            None => {
                let mut e = String::new();
                e.append("Could not resolve type ");
                e.append(type_path);
                proof {
                    assert(e@ == unresolved_type_message(type_path@));
                }
                return Err(e);
            },
        };
        let ghost v = dynamic_type_info@;
        let DynamicTypeInfo { info, allow_uninit } = dynamic_type_info;
        let details = NativeDatumDetails { offset: usize::MAX, type_info: info, allow_uninit };
        assert(details.type_info@ == v.0 && allow_uninit == v.1);
        let ghost before = self.builder();
        let r = self.add_details(name, details);
        assert(unplaced(v.0, v.1, details));
        assert(datum_added(before, self.builder(), name@, details, r));
        assert(resolved_datum_added(before, self.builder(), name@, v, r));
        r
    }

    /// Adds a new datum by copying an existing definition: same name, type information and
    /// `allow_uninit` flag.
    pub fn copy_datum(&mut self, datum: &DatumDefinition<NativeDatumDetails>) -> (r: Result<DatumId, String>)
        requires
            old(self).wf(),
        ensures
            final(self).wf(),
            final(self).resolver() == old(self).resolver(),
            exists|d: NativeDatumDetails|
                unplaced(datum.details.type_info@, datum.details.allow_uninit, d) && datum_added(
                    old(self).builder(),
                    final(self).builder(),
                    datum.name@,
                    d,
                    r,
                ),
    {
        let details = NativeDatumDetails {
            offset: usize::MAX,
            type_info: datum.details.type_info.duplicate(),
            allow_uninit: datum.details.allow_uninit,
        };
        let r = self.add_details(datum.name.as_str(), details);
        assert(unplaced(datum.details.type_info@, datum.details.allow_uninit, details));
        r
    }

    /// Remove a datum from the current variant.
    pub fn remove_datum(&mut self, datum_id: DatumId) -> (r: Result<(), String>)
        requires
            old(self).wf(),
        ensures
            final(self).wf(),
            final(self).resolver() == old(self).resolver(),
            datum_removed(old(self).builder(), final(self).builder(), datum_id, r),
            r is Ok <==> removable(old(self).builder(), datum_id),
    {
        self.inner.remove_datum(datum_id)
    }

    /// Closes the current record variant with the default variant builder ([simple](variant::simple))
    /// and allows starting a new one.
    pub fn close_record_variant(&mut self) -> (r: RecordVariantId)
        requires
            old(self).wf(),
            old(self).closable(),
        ensures
            final(self).wf(),
            final(self).resolver() == old(self).resolver(),
            variant_closed(old(self).builder(), final(self).builder(), r),
            old(self).builder().pending() ==> layout_post(
                old(self).builder().defs(),
                final(self).builder().defs(),
                old(self).builder().last_data(),
                old(self).builder().to_add(),
                old(self).builder().to_remove(),
                final(self).builder().variants_view().last().data@,
            ),
            old(self).builder().pending() ==> (
                final(self).builder().defs(),
                final(self).builder().variants_view().last().data@,
            ) == simple_layout(
                old(self).builder().defs(),
                old(self).builder().last_data(),
                old(self).builder().to_add(),
                old(self).builder().to_remove(),
            ),
    {
        self.close_record_variant_with(Simple)
    }

    /// Closes the current record variant with a variant builder and allows starting a new one.
    ///
    /// The variants stay laid out when the variant builder lays out the new variant.
    pub fn close_record_variant_with<Builder>(&mut self, builder: Builder) -> (r: RecordVariantId) where
        Builder: RecordVariantBuilder<NativeDatumDetails>,

        requires
            old(self).wf(),
            old(self).builder().pending() ==> builder.admits(
                old(self).builder().defs(),
                old(self).builder().last_data(),
                old(self).builder().to_add(),
                old(self).builder().to_remove(),
            ),
        ensures
            final(self).builder().wf(),
            final(self).resolver() == old(self).resolver(),
            variant_closed(old(self).builder(), final(self).builder(), r),
            old(self).builder().pending() ==> builder.builds(
                old(self).builder().defs(),
                final(self).builder().defs(),
                old(self).builder().last_data(),
                old(self).builder().to_add(),
                old(self).builder().to_remove(),
                final(self).builder().variants_view().last().data@,
            ),
            (old(self).builder().pending() ==> layout_post(
                old(self).builder().defs(),
                final(self).builder().defs(),
                old(self).builder().last_data(),
                old(self).builder().to_add(),
                old(self).builder().to_remove(),
                final(self).builder().variants_view().last().data@,
            )) ==> final(self).wf(),
    {
        let ghost old_inner = self.inner;
        let r = self.inner.close_record_variant_with(builder);
        proof {
            if old_inner.pending() ==> layout_post(
                old_inner.defs(),
                self.inner.defs(),
                old_inner.last_data(),
                old_inner.to_add(),
                old_inner.to_remove(),
                self.inner.variants_view().last().data@,
            ) {
                lemma_closed_laid_out(old_inner, self.inner, r);
            }
        }
        r
    }

    /// Accesses datum definitions by ID.
    pub fn get_datum_definition(&self, id: DatumId) -> (r: Option<&DatumDefinition<NativeDatumDetails>>)
        ensures
            r == (if id.0 < self.builder().defs().len() { Some(&self.builder().defs()[id.0 as int]) } else { None }),
    {
        self.inner.get_datum_definition(id)
    }

    /// The underlying generic builder.
    pub fn inner(&self) -> (r: &GenericRecordDefinitionBuilder<NativeDatumDetails>)
        ensures
            *r == self.builder(),
    {
        &self.inner
    }

    /// The closed variants, in the order of their identifiers.
    pub fn variants(&self) -> (r: &[RecordVariant])
        ensures
            r@ == self.builder().variants_view(),
    {
        self.inner.variants()
    }

    /// All the datum definitions so far, in the order of their identifiers.
    pub fn datum_definitions(&self) -> (r: &[DatumDefinition<NativeDatumDetails>])
        ensures
            r@ == self.builder().defs(),
    {
        self.inner.datum_definitions()
    }

    /// Accesses variant definitions by ID.
    pub fn get_variant(&self, id: RecordVariantId) -> (r: Option<&RecordVariant>)
        ensures
            r == (if id.0 < self.builder().variants_view().len() {
                Some(&self.builder().variants_view()[id.0 as int])
            } else {
                None
            }),
    {
        self.inner.get_variant(id)
    }

    /// Accesses datum definitions by variant ID and datum name.
    pub fn get_variant_datum_definition_by_name(&self, variant_id: RecordVariantId, name: &str) -> (r: Option<
        &DatumDefinition<NativeDatumDetails>,
    >)
        requires
            self.wf(),
        ensures
            variant_id.0 >= self.builder().variants_view().len() ==> r is None,
            variant_id.0 < self.builder().variants_view().len() ==> first_named(
                self.builder().defs(),
                self.builder().variants_view()[variant_id.0 as int].data@,
                name@,
                r,
            ),
    {
        self.inner.get_variant_datum_definition_by_name(variant_id, name)
    }

    /// Gets the IDs of the data present in the current variant.
    pub fn get_current_data(&self) -> (r: Vec<DatumId>)
        requires
            self.wf(),
        ensures
            r@ == self.builder().current_data(),
    {
        self.inner.get_current_data()
    }

    /// Accesses datum definitions of the current variant by datum name.
    pub fn get_current_datum_definition_by_name(&self, name: &str) -> (r: Option<&DatumDefinition<NativeDatumDetails>>)
        requires
            self.wf(),
        ensures
            first_named(self.builder().defs(), self.builder().current_data(), name@, r),
    {
        self.inner.get_current_datum_definition_by_name(name)
    }

    /// Wraps up everything into a [RecordDefinition]: every variant is laid out in memory.
    ///
    /// The latest record variant must be closed.
    pub fn build(self) -> (r: RecordDefinition<NativeDatumDetails>)
        requires
            self.wf(),
            self.builder().to_add().len() == 0,
            self.builder().to_remove().len() == 0,
        ensures
            r.datum_definitions@ == self.builder().defs(),
            r.variants@ == self.builder().variants_view(),
            r.wf(),
            r.laid_out(),
            no_datum_comes_back(r.variants@),
    {
        self.inner.build()
    }
}

} // verus!
