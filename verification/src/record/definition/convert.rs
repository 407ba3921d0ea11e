//! Conversion of a record definition into another one, variant after variant.

use vstd::prelude::*;

use crate::record::definition::builder::generic::variant::{lemma_without_contains, remove_all};
use crate::record::definition::{without, DatumDefinition, DatumId, RecordDefinition, RecordVariant, RecordVariantId};

verus! {

/// The data to add to go from the variant `old` to the variant `new`, then the data to remove,
/// each in the order of their variant.
pub fn variant_changes(old: &[DatumId], new: &[DatumId]) -> (r: (Vec<DatumId>, Vec<DatumId>))
    ensures
        r.0@ == without(new@, old@),
        r.1@ == without(old@, new@),
{
    let to_add = remove_all(vstd::slice::slice_to_vec(new), old);
    let to_remove = remove_all(vstd::slice::slice_to_vec(old), new);
    (to_add, to_remove)
}

/// Every datum of `data` has a new identifier in `mapping`.
pub open spec fn all_mapped(mapping: Seq<Option<DatumId>>, data: Seq<DatumId>) -> bool {
    forall|k: int| 0 <= k < data.len() ==> (#[trigger] data[k]).0 < mapping.len() && mapping[data[k].0 as int] is Some
}

/// `add_datum` may have answered the datum `d` with the new identifier `id`.
pub open spec fn added_as<D, Context, A>(add_datum: A, d: DatumDefinition<D>, id: DatumId) -> bool where
    A: Fn(&mut Context, &DatumDefinition<D>) -> Result<DatumId, String>,
 {
    exists|c: &mut Context, res: Result<DatumId, String>|
        #[trigger] call_ensures(add_datum, (c, &d), res) && res == Ok::<DatumId, String>(id)
}

/// `add_datum` may have accepted the datum `d`.
pub open spec fn added<D, Context, A>(add_datum: A, d: DatumDefinition<D>) -> bool where
    A: Fn(&mut Context, &DatumDefinition<D>) -> Result<DatumId, String>,
 {
    exists|id: DatumId| #[trigger] added_as(add_datum, d, id)
}

/// The datum `d` may have been accepted by `add_datum`, and its new identifier by
/// `remove_datum`.
pub open spec fn added_then_removed<D, Context, A, R>(add_datum: A, remove_datum: R, d: DatumDefinition<D>) -> bool where
    A: Fn(&mut Context, &DatumDefinition<D>) -> Result<DatumId, String>,
    R: Fn(&mut Context, DatumId) -> Result<(), String>,
 {
    exists|id: DatumId| #[trigger] added_as(add_datum, d, id) && removed(remove_datum, id)
}

/// `remove_datum` may have accepted the new identifier `id`.
pub open spec fn removed<Context, R>(remove_datum: R, id: DatumId) -> bool where
    R: Fn(&mut Context, DatumId) -> Result<(), String>,
 {
    exists|c: &mut Context, res: Result<(), String>| #[trigger] call_ensures(remove_datum, (c, id), res) && res is Ok
}

/// `close_record_variant` may have answered `id`.
pub open spec fn closed_as<Context, C>(close_record_variant: C, id: RecordVariantId) -> bool where
    C: Fn(&mut Context) -> RecordVariantId,
 {
    exists|c: &mut Context| #[trigger] call_ensures(close_record_variant, (c,), id)
}

/// The error `e` may come from `add_datum` or from `remove_datum`.
pub open spec fn refused_with<D, Context, A, R>(add_datum: A, remove_datum: R, e: String) -> bool where
    A: Fn(&mut Context, &DatumDefinition<D>) -> Result<DatumId, String>,
    R: Fn(&mut Context, DatumId) -> Result<(), String>,
 {
    ||| exists|c: &mut Context, d: &DatumDefinition<D>, res: Result<DatumId, String>|
        #[trigger] call_ensures(add_datum, (c, d), res) && res == Err::<DatumId, String>(e)
    ||| exists|c: &mut Context, id: DatumId, res: Result<(), String>|
        #[trigger] call_ensures(remove_datum, (c, id), res) && res == Err::<(), String>(e)
}

/// Neither `add_datum` nor `remove_datum` ever fails.
pub open spec fn never_refuses<D, Context, A, R>(add_datum: A, remove_datum: R) -> bool where
    A: Fn(&mut Context, &DatumDefinition<D>) -> Result<DatumId, String>,
    R: Fn(&mut Context, DatumId) -> Result<(), String>,
 {
    &&& forall|c: &mut Context, d: &DatumDefinition<D>, res: Result<DatumId, String>|
        #[trigger] call_ensures(add_datum, (c, d), res) ==> res is Ok
    &&& forall|c: &mut Context, id: DatumId, res: Result<(), String>|
        #[trigger] call_ensures(remove_datum, (c, id), res) ==> res is Ok
}

/// What the conversion asks for, in order: removing a datum, adding a datum (by their
/// identifiers in the converted definition), or closing the variant.
pub enum ConverterRequest {
    Remove(DatumId),
    Add(DatumId),
    Close,
}

/// A call made during the conversion and its answer: `remove_datum` with a new identifier,
/// `add_datum` with the datum of an identifier of the converted definition, or
/// `close_record_variant`.
pub enum ConverterCall {
    Remove(DatumId, Result<(), String>),
    Add(DatumId, Result<DatumId, String>),
    Close(RecordVariantId),
}

/// What the conversion asks for to reach the variant `v`: removing the data of the previous
/// variant that are not in it, adding its data that are not in the previous one, then closing it.
pub open spec fn variant_requests(variants: Seq<RecordVariant>, v: int) -> Seq<ConverterRequest> {
    let prev = if v > 0 {
        variants[v - 1].data@
    } else {
        Seq::empty()
    };
    let cur = variants[v].data@;
    without(prev, cur).map_values(|d: DatumId| ConverterRequest::Remove(d)) + without(cur, prev).map_values(
        |d: DatumId| ConverterRequest::Add(d),
    ) + seq![ConverterRequest::Close]
}

/// What the conversion asks for to reach the first `v` variants.
pub open spec fn requests_upto(variants: Seq<RecordVariant>, v: nat) -> Seq<ConverterRequest>
    decreases v,
{
    if v == 0 {
        Seq::empty()
    } else {
        requests_upto(variants, (v - 1) as nat) + variant_requests(variants, v - 1)
    }
}

/// The new identifier that the last of the first `k` calls adding `d` answered, if any.
pub open spec fn new_id_before(calls: Seq<ConverterCall>, d: DatumId, k: nat) -> Option<DatumId>
    decreases k,
{
    if k == 0 || k > calls.len() {
        None
    } else {
        match calls[k - 1] {
            ConverterCall::Add(x, Ok(id)) if x == d => Some(id),
            _ => new_id_before(calls, d, (k - 1) as nat),
        }
    }
}

/// The call `k` answers the request: it removes the datum by the new identifier it was added
/// with, adds the datum, or closes the variant.
pub open spec fn call_answers(calls: Seq<ConverterCall>, k: int, request: ConverterRequest) -> bool {
    match request {
        ConverterRequest::Remove(d) => calls[k] matches ConverterCall::Remove(id, _) && new_id_before(
            calls,
            d,
            k as nat,
        ) == Some(id),
        ConverterRequest::Add(d) => calls[k] matches ConverterCall::Add(x, _) && x == d,
        ConverterRequest::Close => calls[k] is Close,
    }
}

/// The error a call answered, if any.
pub open spec fn call_error(call: ConverterCall) -> Option<String> {
    match call {
        ConverterCall::Remove(_, Err(e)) => Some(e),
        ConverterCall::Add(_, Err(e)) => Some(e),
        _ => None,
    }
}

/// The calls replay the variants in order, each call answering the next request, until the
/// first error, which is given back; without error, the `i`-th variant is mapped to the answer
/// of the `i`-th close.
pub open spec fn replayed(
    variants: Seq<RecordVariant>,
    calls: Seq<ConverterCall>,
    r: Result<Vec<(RecordVariantId, RecordVariantId)>, String>,
) -> bool {
    let requests = requests_upto(variants, variants.len());
    &&& calls.len() <= requests.len()
    &&& forall|k: int| 0 <= k < calls.len() ==> #[trigger] call_answers(calls, k, requests[k])
    &&& forall|k: int| 0 <= k < calls.len() - 1 ==> #[trigger] call_error(calls[k]) is None
    &&& match r {
        Ok(mapping) => {
            &&& calls.len() == requests.len()
            &&& calls.len() > 0 ==> call_error(calls.last()) is None
            &&& mapping@.len() == variants.len()
            &&& forall|i: int|
                0 <= i < mapping@.len() ==> #[trigger] mapping@[i] == (
                    variants[i].id,
                    calls[requests_upto(variants, (i + 1) as nat).len() - 1]->Close_0,
                )
        },
        Err(e) => calls.len() > 0 && call_error(calls.last()) == Some(e),
    }
}

/// The call was made through the reference `c` to the context and answered as recorded.
pub open spec fn called<D, Context, A, R, C>(
    add_datum: A,
    remove_datum: R,
    close_record_variant: C,
    defs: Seq<DatumDefinition<D>>,
    call: ConverterCall,
    c: &mut Context,
) -> bool where
    A: Fn(&mut Context, &DatumDefinition<D>) -> Result<DatumId, String>,
    R: Fn(&mut Context, DatumId) -> Result<(), String>,
    C: Fn(&mut Context) -> RecordVariantId,
 {
    match call {
        ConverterCall::Remove(id, res) => call_ensures(remove_datum, (c, id), res),
        ConverterCall::Add(d, res) => call_ensures(add_datum, (c, &defs[d.0 as int]), res),
        ConverterCall::Close(id) => call_ensures(close_record_variant, (c,), id),
    }
}

/// Converts a record definition to a different record definition and provides the variants
/// mapping: for each variant in order, the data that are not in the previous variant any more
/// are removed (by their new identifiers), the new ones are added, and the variant is closed.
///
/// The first error of `add_datum` or `remove_datum` stops the conversion and is given back.
///
/// Every call goes through `context`, and nothing else changes it: the context passes from its
/// value before the conversion, through each recorded call in turn, to its value after.
#[verifier::spinoff_prover]
#[verifier::rlimit(60)]
pub fn convert_record_definition<D, A, R, C, Context>(
    quirky_definition: &RecordDefinition<D>,
    add_datum: A,
    remove_datum: R,
    close_record_variant: C,
    context: &mut Context,
) -> (r: Result<Vec<(RecordVariantId, RecordVariantId)>, String>) where
    A: Fn(&mut Context, &DatumDefinition<D>) -> Result<DatumId, String>,
    R: Fn(&mut Context, DatumId) -> Result<(), String>,
    C: Fn(&mut Context) -> RecordVariantId,

    requires
        quirky_definition.wf(),
        forall|c: &mut Context, d: &DatumDefinition<D>| #[trigger] add_datum.requires((c, d)),
        forall|c: &mut Context, id: DatumId| #[trigger] remove_datum.requires((c, id)),
        forall|c: &mut Context| #[trigger] close_record_variant.requires((c,)),
    ensures
        r matches Ok(mapping) ==> {
            &&& mapping@.len() == quirky_definition.variants@.len()
            &&& forall|i: int|
                0 <= i < mapping@.len() ==> (#[trigger] mapping@[i]).0 == quirky_definition.variants@[i].id
                    && closed_as(close_record_variant, mapping@[i].1)
            &&& forall|i: int, k: int|
                0 <= i < quirky_definition.variants@.len() && 0 <= k < quirky_definition.variants@[i].data@.len()
                    ==> #[trigger] added(
                    add_datum,
                    quirky_definition.datum_definitions@[quirky_definition.variants@[i].data@[k].0 as int],
                )
            &&& forall|i: int, x: DatumId|
                1 <= i < quirky_definition.variants@.len() && #[trigger] quirky_definition.variants@[i - 1].data@.contains(x)
                    && !quirky_definition.variants@[i].data@.contains(x) ==> added_then_removed(
                    add_datum,
                    remove_datum,
                    quirky_definition.datum_definitions@[x.0 as int],
                )
        },
        r matches Err(e) ==> refused_with(add_datum, remove_datum, e),
        never_refuses(add_datum, remove_datum) ==> r is Ok,
        exists|calls: Seq<ConverterCall>, ctxs: Seq<Context>|
            #![trigger replayed(quirky_definition.variants@, calls, r), ctxs.len()]
            {
                &&& replayed(quirky_definition.variants@, calls, r)
                &&& ctxs.len() == calls.len() + 1
                &&& ctxs[0] == *old(context)
                &&& ctxs.last() == *final(context)
                &&& exists|cs: Seq<&mut Context>|
                    #![trigger cs.len()]
                    {
                        &&& cs.len() == calls.len()
                        &&& forall|k: int|
                            0 <= k < calls.len() ==> #[trigger] called(
                                add_datum,
                                remove_datum,
                                close_record_variant,
                                quirky_definition.datum_definitions@,
                                calls[k],
                                cs[k],
                            ) && *cs[k] == ctxs[k] && *final(cs[k]) == ctxs[k + 1]
                    }
            },
{
    let ghost mut calls: Seq<ConverterCall> = Seq::empty();
    let ghost mut ctxs: Seq<Context> = seq![*context];
    let ghost defs = quirky_definition.datum_definitions@;
    let n = quirky_definition.datum_definitions.data.len();
    let mut datum_ids_mapping: Vec<Option<DatumId>> = Vec::new();
    let mut k: usize = 0;
    while k < n
        invariant
            k <= n,
            datum_ids_mapping@.len() == k,
            forall|m: int| 0 <= m < k ==> datum_ids_mapping@[m] is None,
        decreases n - k,
    {
        datum_ids_mapping.push(None);
        k = k + 1;
    }
    let mut variants_mapping: Vec<(RecordVariantId, RecordVariantId)> = Vec::new();
    let variants = quirky_definition.variants.as_slice();
    let ghost requests = requests_upto(variants@, variants@.len());
    let mut v: usize = 0;
    proof {
        let cs = Seq::<&mut Context>::empty();
        assert(cs.len() == calls.len());
    }
    while v < variants.len()
        invariant
            quirky_definition.wf(),
            defs == quirky_definition.datum_definitions@,
            variants@ == quirky_definition.variants@,
            n == defs.len(),
            forall|c: &mut Context, d: &DatumDefinition<D>| #[trigger] add_datum.requires((c, d)),
            forall|c: &mut Context, id: DatumId| #[trigger] remove_datum.requires((c, id)),
            forall|c: &mut Context| #[trigger] close_record_variant.requires((c,)),
            datum_ids_mapping@.len() == n,
            forall|m: int|
                0 <= m < n && #[trigger] datum_ids_mapping@[m] is Some ==> added_as(
                    add_datum,
                    defs[m],
                    datum_ids_mapping@[m]->Some_0,
                ),
            v <= variants@.len(),
            v > 0 ==> all_mapped(datum_ids_mapping@, variants@[v - 1].data@),
            variants_mapping@.len() == v,
            forall|i: int|
                0 <= i < v ==> (#[trigger] variants_mapping@[i]).0 == variants@[i].id && closed_as(
                    close_record_variant,
                    variants_mapping@[i].1,
                ),
            forall|i: int, q: int|
                0 <= i < v && 0 <= q < variants@[i].data@.len() ==> #[trigger] added(
                    add_datum,
                    defs[variants@[i].data@[q].0 as int],
                ),
            forall|i: int, x: DatumId|
                1 <= i < v && #[trigger] variants@[i - 1].data@.contains(x) && !variants@[i].data@.contains(x)
                    ==> added_then_removed(add_datum, remove_datum, defs[x.0 as int]),
            ctxs.len() == calls.len() + 1,
            ctxs[0] == *old(context),
            ctxs.last() == *context,
            exists|cs: Seq<&mut Context>|
                #![trigger cs.len()]
                {
                    &&& cs.len() == calls.len()
                    &&& forall|k: int|
                        0 <= k < calls.len() ==> #[trigger] called(add_datum, remove_datum, close_record_variant, defs, calls[k], cs[k])
                            && *cs[k] == ctxs[k] && *final(cs[k]) == ctxs[k + 1]
                },
            requests == requests_upto(variants@, variants@.len()),
            forall|k: int| 0 <= k < calls.len() ==> #[trigger] call_answers(calls, k, requests[k]),
            forall|k: int| 0 <= k < calls.len() ==> #[trigger] call_error(calls[k]) is None,
            forall|m: int| 0 <= m < n ==> #[trigger] datum_ids_mapping@[m] == new_id_before(calls, DatumId(m as usize), calls.len()),
            calls.len() == requests_upto(variants@, v as nat).len(),
            forall|i: int|
                0 <= i < v ==> (#[trigger] variants_mapping@[i]).1 == calls[requests_upto(variants@, (i + 1) as nat).len()
                    - 1]->Close_0,
        decreases variants@.len() - v,
    {
        let variant = &variants[v];
        proof {
            assert(crate::record::definition::valid_ids(n as nat, variant.data@));
        }
        let (to_add, to_remove) = if v > 0 {
            variant_changes(variants[v - 1].data.as_slice(), variant.data.as_slice())
        } else {
            proof {
                assert(without(variant.data@, Seq::<DatumId>::empty()) == variant.data@) by {
                    lemma_without_contains(variant.data@, Seq::<DatumId>::empty());
                    lemma_without_identity(variant.data@);
                }
            }
            (variant.data.clone(), Vec::new())
        };
        let ghost prev: Seq<DatumId> = if v > 0 { variants@[v - 1].data@ } else { Seq::empty() };
        let ghost lv = requests_upto(variants@, v as nat).len();
        let ghost vr = variant_requests(variants@, v as int);
        proof {
            lemma_without_contains(prev, variant.data@);
            lemma_without_contains(variant.data@, prev);
            if v == 0 {
                assert(to_remove@ =~= without(prev, variant.data@));
            }
            lemma_requests_prefix(variants@, (v + 1) as nat, variants@.len());
            assert(requests_upto(variants@, (v + 1) as nat) == requests_upto(variants@, v as nat) + vr);
            assert forall|q: int| 0 <= q < vr.len() implies requests[lv + q] == #[trigger] vr[q] by {
                assert(requests.take(requests_upto(variants@, (v + 1) as nat).len() as int)[lv + q] == requests[lv + q]);
            }
            assert forall|i: int| 0 <= i < v implies #[trigger] requests_upto(variants@, (i + 1) as nat).len() <= lv by {
                lemma_requests_prefix(variants@, (i + 1) as nat, v as nat);
            }
        }
        let mut i: usize = 0;
        while i < to_remove.len()
            invariant
                to_remove@ == without(prev, variant.data@),
                forall|x: DatumId| #[trigger] to_remove@.contains(x) <==> prev.contains(x) && !variant.data@.contains(x),
                v > 0 ==> all_mapped(datum_ids_mapping@, prev),
                v == 0 ==> prev.len() == 0,
                i <= to_remove@.len(),
                n == defs.len(),
                datum_ids_mapping@.len() == n,
                forall|m: int|
                    0 <= m < n && #[trigger] datum_ids_mapping@[m] is Some ==> added_as(
                        add_datum,
                        defs[m],
                        datum_ids_mapping@[m]->Some_0,
                    ),
                forall|c: &mut Context, id: DatumId| #[trigger] remove_datum.requires((c, id)),
                forall|j: int|
                    0 <= j < i ==> #[trigger] added_then_removed(add_datum, remove_datum, defs[to_remove@[j].0 as int]),
                ctxs.len() == calls.len() + 1,
                ctxs[0] == *old(context),
                ctxs.last() == *context,
                exists|cs: Seq<&mut Context>|
                    #![trigger cs.len()]
                    {
                        &&& cs.len() == calls.len()
                        &&& forall|k: int|
                            0 <= k < calls.len() ==> #[trigger] called(add_datum, remove_datum, close_record_variant, defs, calls[k], cs[k])
                                && *cs[k] == ctxs[k] && *final(cs[k]) == ctxs[k + 1]
                    },
                requests == requests_upto(variants@, variants@.len()),
                forall|k: int| 0 <= k < calls.len() ==> #[trigger] call_answers(calls, k, requests[k]),
                forall|k: int| 0 <= k < calls.len() ==> #[trigger] call_error(calls[k]) is None,
                forall|m: int|
                    0 <= m < n ==> #[trigger] datum_ids_mapping@[m] == new_id_before(calls, DatumId(m as usize), calls.len()),
                lv == requests_upto(variants@, v as nat).len(),
                vr == variant_requests(variants@, v as int),
                lv + vr.len() <= requests.len(),
                forall|q: int| 0 <= q < vr.len() ==> requests[lv + q] == #[trigger] vr[q],
                vr == to_remove@.map_values(|d: DatumId| ConverterRequest::Remove(d)) + to_add@.map_values(
                    |d: DatumId| ConverterRequest::Add(d),
                ) + seq![ConverterRequest::Close],
                variants_mapping@.len() == v,
                forall|i: int| 0 <= i < v ==> #[trigger] requests_upto(variants@, (i + 1) as nat).len() <= lv,
                forall|i: int|
                    0 <= i < v ==> (#[trigger] variants_mapping@[i]).1 == calls[requests_upto(variants@, (i + 1) as nat).len()
                        - 1]->Close_0,
                variants@ == quirky_definition.variants@,
                v < variants@.len(),
                calls.len() == lv + i,
                to_add@ == without(variant.data@, prev),
                defs == quirky_definition.datum_definitions@,
            decreases to_remove@.len() - i,
        {
            let d = to_remove[i];
            proof {
                assert(to_remove@.contains(d));
                let j = choose|j: int| 0 <= j < prev.len() && prev[j] == d;
            }
            let new_id = datum_ids_mapping[d.0].unwrap();
            let ghost before = *context;
            let removal = remove_datum(context, new_id);
            proof {
                let call = ConverterCall::Remove(new_id, removal);
                assert(exists|c: &mut Context|
                    #[trigger] call_ensures(remove_datum, (c, new_id), removal) && *c == before && *final(c) == *context);
                assert(exists|c: &mut Context, res: Result<(), String>|
                    #[trigger] call_ensures(remove_datum, (c, new_id), res) && res == removal);
                assert(requests[lv + i] == vr[i as int]);
                assert(vr[i as int] == ConverterRequest::Remove(d));
                assert(datum_ids_mapping@[d.0 as int] == new_id_before(calls, DatumId(d.0), calls.len()));
                lemma_call_pushed(calls, call);
                let old_calls = calls;
                let old_ctxs = ctxs;
                calls = calls.push(call);
                ctxs = ctxs.push(*context);
                assert(exists|c: &mut Context|
                    #[trigger] called(add_datum, remove_datum, close_record_variant, defs, call, c) && *c == old_ctxs.last()
                        && *final(c) == *context) by {
                    let c = choose|c: &mut Context| #[trigger] call_ensures(remove_datum, (c, new_id), removal) && *c == before && *final(c) == *context;
                    assert(called(add_datum, remove_datum, close_record_variant, defs, call, c));
                }
                lemma_chain_extended(add_datum, remove_datum, close_record_variant, defs, old_calls, old_ctxs, call, *context);
                assert forall|k: int| 0 <= k < calls.len() implies #[trigger] call_answers(calls, k, requests[k]) by {
                    if k < old_calls.len() {
                        assert(call_answers(old_calls, k, requests[k]));
                    }
                }
                assert(call_answers(calls, old_calls.len() as int, requests[lv + i]));
            }
            match removal {
                Ok(()) => {},
                Err(e) => {
                    proof {
                        assert(Err::<Vec<(RecordVariantId, RecordVariantId)>, String>(e)->Err_0 == e);
                        lemma_requests_len(variants@, v as int);
                        assert(replayed(variants@, calls, Err::<Vec<(RecordVariantId, RecordVariantId)>, String>(e)));
                        assert(ctxs.len() == calls.len() + 1 && ctxs[0] == *old(context) && ctxs.last() == *context);
                    }
                    return Err(e);
                },
            }
            proof {
                assert forall|k: int| 0 <= k < calls.len() implies #[trigger] call_error(calls[k]) is None by {
                    if k < calls.len() - 1 {
                        assert(calls[k] == calls.drop_last()[k]);
                    }
                }
            }
            proof {
                assert(removed(remove_datum, new_id));
                assert(added_as(add_datum, defs[d.0 as int], new_id));
                assert(added_then_removed(add_datum, remove_datum, defs[d.0 as int]));
            }
            i = i + 1;
        }
        proof {
            assert forall|m: int| 0 <= m < to_add@.len() implies (#[trigger] to_add@[m]).0 < n by {
                assert(to_add@.contains(to_add@[m]));
                let q = choose|q: int| 0 <= q < variant.data@.len() && variant.data@[q] == to_add@[m];
            }
        }
        let mut j: usize = 0;
        while j < to_add.len()
            invariant
                forall|m: int| 0 <= m < to_add@.len() ==> (#[trigger] to_add@[m]).0 < n,
                quirky_definition.wf(),
                defs == quirky_definition.datum_definitions@,
                n == defs.len(),
                datum_ids_mapping@.len() == n,
                forall|m: int|
                    0 <= m < n && #[trigger] datum_ids_mapping@[m] is Some ==> added_as(
                        add_datum,
                        defs[m],
                        datum_ids_mapping@[m]->Some_0,
                    ),
                forall|c: &mut Context, d: &DatumDefinition<D>| #[trigger] add_datum.requires((c, d)),
                to_add@ == without(variant.data@, prev),
                forall|x: DatumId| #[trigger] to_add@.contains(x) <==> variant.data@.contains(x) && !prev.contains(x),
                crate::record::definition::valid_ids(n as nat, variant.data@),
                v > 0 ==> all_mapped(datum_ids_mapping@, prev),
                j <= to_add@.len(),
                forall|m: int| 0 <= m < j ==> datum_ids_mapping@[(#[trigger] to_add@[m]).0 as int] is Some,
                ctxs.len() == calls.len() + 1,
                ctxs[0] == *old(context),
                ctxs.last() == *context,
                exists|cs: Seq<&mut Context>|
                    #![trigger cs.len()]
                    {
                        &&& cs.len() == calls.len()
                        &&& forall|k: int|
                            0 <= k < calls.len() ==> #[trigger] called(add_datum, remove_datum, close_record_variant, defs, calls[k], cs[k])
                                && *cs[k] == ctxs[k] && *final(cs[k]) == ctxs[k + 1]
                    },
                requests == requests_upto(variants@, variants@.len()),
                forall|k: int| 0 <= k < calls.len() ==> #[trigger] call_answers(calls, k, requests[k]),
                forall|k: int| 0 <= k < calls.len() ==> #[trigger] call_error(calls[k]) is None,
                forall|m: int|
                    0 <= m < n ==> #[trigger] datum_ids_mapping@[m] == new_id_before(calls, DatumId(m as usize), calls.len()),
                lv == requests_upto(variants@, v as nat).len(),
                vr == variant_requests(variants@, v as int),
                lv + vr.len() <= requests.len(),
                forall|q: int| 0 <= q < vr.len() ==> requests[lv + q] == #[trigger] vr[q],
                vr == to_remove@.map_values(|d: DatumId| ConverterRequest::Remove(d)) + to_add@.map_values(
                    |d: DatumId| ConverterRequest::Add(d),
                ) + seq![ConverterRequest::Close],
                variants_mapping@.len() == v,
                forall|i: int| 0 <= i < v ==> #[trigger] requests_upto(variants@, (i + 1) as nat).len() <= lv,
                forall|i: int|
                    0 <= i < v ==> (#[trigger] variants_mapping@[i]).1 == calls[requests_upto(variants@, (i + 1) as nat).len()
                        - 1]->Close_0,
                variants@ == quirky_definition.variants@,
                v < variants@.len(),
                calls.len() == lv + to_remove@.len() + j,
            decreases to_add@.len() - j,
        {
            let d = to_add[j];
            proof {
                assert(to_add@.contains(d));
                let m = choose|m: int| 0 <= m < variant.data@.len() && variant.data@[m] == d;
            }
            let datum = &quirky_definition.datum_definitions.data[d.0];
            let ghost before = *context;
            let addition = add_datum(context, datum);
            proof {
                assert(*datum == defs[d.0 as int]);
                let call = ConverterCall::Add(d, addition);
                assert(exists|c: &mut Context|
                    #[trigger] call_ensures(add_datum, (c, &defs[d.0 as int]), addition) && *c == before && *final(c) == *context);
                assert(exists|c: &mut Context, res: Result<DatumId, String>|
                    #[trigger] call_ensures(add_datum, (c, &defs[d.0 as int]), res) && res == addition);
                assert(requests[lv + to_remove@.len() + j] == vr[to_remove@.len() + j]);
                assert(vr[to_remove@.len() + j] == ConverterRequest::Add(d));
                lemma_call_pushed(calls, call);
                let old_calls = calls;
                let old_ctxs = ctxs;
                calls = calls.push(call);
                ctxs = ctxs.push(*context);
                assert(exists|c: &mut Context|
                    #[trigger] called(add_datum, remove_datum, close_record_variant, defs, call, c) && *c == old_ctxs.last()
                        && *final(c) == *context) by {
                    let c = choose|c: &mut Context| #[trigger] call_ensures(add_datum, (c, &defs[d.0 as int]), addition) && *c == before && *final(c) == *context;
                    assert(called(add_datum, remove_datum, close_record_variant, defs, call, c));
                }
                lemma_chain_extended(add_datum, remove_datum, close_record_variant, defs, old_calls, old_ctxs, call, *context);
                assert forall|k: int| 0 <= k < calls.len() implies #[trigger] call_answers(calls, k, requests[k]) by {
                    if k < old_calls.len() {
                        assert(call_answers(old_calls, k, requests[k]));
                    }
                }
            }
            let new_datum_id = match addition {
                Ok(id) => id,
                Err(e) => {
                    proof {
                        assert(Err::<Vec<(RecordVariantId, RecordVariantId)>, String>(e)->Err_0 == e);
                        lemma_requests_len(variants@, v as int);
                        assert(replayed(variants@, calls, Err::<Vec<(RecordVariantId, RecordVariantId)>, String>(e)));
                        assert(ctxs.len() == calls.len() + 1 && ctxs[0] == *old(context) && ctxs.last() == *context);
                    }
                    return Err(e);
                },
            };
            proof {
                assert forall|k: int| 0 <= k < calls.len() implies #[trigger] call_error(calls[k]) is None by {
                    if k < calls.len() - 1 {
                        assert(calls[k] == calls.drop_last()[k]);
                    }
                }
            }
            proof {
                assert(added_as(add_datum, defs[d.0 as int], new_datum_id));
            }
            let ghost before = datum_ids_mapping@;
            datum_ids_mapping.set(d.0, Some(new_datum_id));
            proof {
                if v > 0 {
                    assert forall|k: int| 0 <= k < prev.len() implies (#[trigger] prev[k]).0 < datum_ids_mapping@.len()
                        && datum_ids_mapping@[prev[k].0 as int] is Some by {
                        assert(before[prev[k].0 as int] is Some);
                    }
                }
                assert forall|m: int| 0 <= m < j + 1 implies datum_ids_mapping@[(#[trigger] to_add@[m]).0 as int] is Some by {
                    if m < j {
                        assert(before[to_add@[m].0 as int] is Some);
                    }
                }
                assert forall|m: int| 0 <= m < n implies #[trigger] datum_ids_mapping@[m] == new_id_before(
                    calls,
                    DatumId(m as usize),
                    calls.len(),
                ) by {
                    if m != d.0 {
                        assert(before[m] == datum_ids_mapping@[m]);
                        assert(DatumId(m as usize) != d);
                    } else {
                        assert(DatumId(m as usize) == d);
                    }
                }
                assert forall|m: int| 0 <= m < n && #[trigger] datum_ids_mapping@[m] is Some implies added_as(
                    add_datum,
                    defs[m],
                    datum_ids_mapping@[m]->Some_0,
                ) by {
                    if m != d.0 {
                        assert(before[m] is Some);
                    }
                }
            }
            j = j + 1;
        }
        proof {
            assert forall|k: int| 0 <= k < variant.data@.len() implies (#[trigger] variant.data@[k]).0
                < datum_ids_mapping@.len() && datum_ids_mapping@[variant.data@[k].0 as int] is Some by {
                let x = variant.data@[k];
                assert(variant.data@.contains(x));
                if prev.contains(x) {
                    let p = choose|p: int| 0 <= p < prev.len() && prev[p] == x;
                } else {
                    assert(to_add@.contains(x));
                    let m = choose|m: int| 0 <= m < to_add@.len() && to_add@[m] == x;
                }
            }
            assert forall|q: int| 0 <= q < variant.data@.len() implies #[trigger] added(
                add_datum,
                defs[variant.data@[q].0 as int],
            ) by {
                let x = variant.data@[q];
                assert(datum_ids_mapping@[x.0 as int] is Some);
                assert(added_as(add_datum, defs[x.0 as int], datum_ids_mapping@[x.0 as int]->Some_0));
            }
            if v > 0 {
                assert forall|x: DatumId| #[trigger] variants@[v - 1].data@.contains(x) && !variants@[v as int].data@.contains(x)
                    implies added_then_removed(add_datum, remove_datum, defs[x.0 as int]) by {
                    assert(to_remove@.contains(x));
                    let j = choose|j: int| 0 <= j < to_remove@.len() && to_remove@[j] == x;
                }
            }
        }
        let ghost before = *context;
        let new_variant_id = close_record_variant(context);
        proof {
            assert(closed_as(close_record_variant, new_variant_id));
            let call = ConverterCall::Close(new_variant_id);
            assert(exists|c: &mut Context|
                #[trigger] call_ensures(close_record_variant, (c,), new_variant_id) && *c == before && *final(c) == *context);
            let last = (to_remove@.len() + to_add@.len()) as int;
            assert(vr[last] == ConverterRequest::Close);
            assert(requests[lv + last] == vr[last]);
            lemma_call_pushed(calls, call);
            let old_calls = calls;
            let old_ctxs = ctxs;
            calls = calls.push(call);
            ctxs = ctxs.push(*context);
            assert(exists|c: &mut Context|
                #[trigger] called(add_datum, remove_datum, close_record_variant, defs, call, c) && *c == old_ctxs.last()
                    && *final(c) == *context) by {
                let c = choose|c: &mut Context| #[trigger] call_ensures(close_record_variant, (c,), new_variant_id) && *c == before && *final(c) == *context;
                assert(called(add_datum, remove_datum, close_record_variant, defs, call, c));
            }
            lemma_chain_extended(add_datum, remove_datum, close_record_variant, defs, old_calls, old_ctxs, call, *context);
            assert forall|k: int| 0 <= k < calls.len() implies #[trigger] call_answers(calls, k, requests[k]) by {
                if k < old_calls.len() {
                    assert(call_answers(old_calls, k, requests[k]));
                }
            }
            assert forall|k: int| 0 <= k < calls.len() implies #[trigger] call_error(calls[k]) is None by {
                if k < old_calls.len() {
                    assert(calls[k] == old_calls[k]);
                }
            }
            assert forall|m: int| 0 <= m < n implies #[trigger] datum_ids_mapping@[m] == new_id_before(
                calls,
                DatumId(m as usize),
                calls.len(),
            ) by {
                assert(datum_ids_mapping@[m] == new_id_before(old_calls, DatumId(m as usize), old_calls.len()));
            }
            assert(requests_upto(variants@, (v + 1) as nat).len() == lv + vr.len());
            assert(calls.len() == lv + vr.len());
        }
        // In theory they are equal in value, but we should not rely on it.
        let ghost old_vm = variants_mapping@;
        variants_mapping.push((variant.id, new_variant_id));
        proof {
            assert forall|i: int|
                0 <= i < v + 1 implies (#[trigger] variants_mapping@[i]).1 == calls[requests_upto(variants@, (i + 1) as nat).len()
                - 1]->Close_0 by {
                if i < v {
                    assert(variants_mapping@[i] == old_vm[i]);
                    assert(requests_upto(variants@, (i + 1) as nat).len() <= lv);
                    assert(requests_upto(variants@, (i + 1) as nat).len() >= 1) by {
                        lemma_requests_len(variants@, i);
                    }
                }
            }
            assert forall|i: int, q: int|
                0 <= i < v + 1 && 0 <= q < variants@[i].data@.len() implies #[trigger] added(
                add_datum,
                defs[variants@[i].data@[q].0 as int],
            ) by {
                if i == v {
                    assert(variants@[i].data@[q] == variant.data@[q]);
                }
            }
        }
        v = v + 1;
    }
    proof {
        assert(calls.len() == requests.len());
        assert(replayed(variants@, calls, Ok::<Vec<(RecordVariantId, RecordVariantId)>, String>(variants_mapping)));
        assert(ctxs.len() == calls.len() + 1 && ctxs[0] == *old(context) && ctxs.last() == *context);
        let cs = choose|cs: Seq<&mut Context>|
            #![trigger cs.len()]
            {
                &&& cs.len() == calls.len()
                &&& forall|k: int|
                    0 <= k < calls.len() ==> #[trigger] called(add_datum, remove_datum, close_record_variant, defs, calls[k], cs[k])
                        && *cs[k] == ctxs[k] && *final(cs[k]) == ctxs[k + 1]
            };
        assert(cs.len() == calls.len());
    }
    Ok(variants_mapping)
}

/// A chain of contexts through the recorded calls, extended by one more call that went from the
/// last context to `after`.
pub proof fn lemma_chain_extended<D, Context, A, R, C>(
    add_datum: A,
    remove_datum: R,
    close_record_variant: C,
    defs: Seq<DatumDefinition<D>>,
    calls: Seq<ConverterCall>,
    ctxs: Seq<Context>,
    call: ConverterCall,
    after: Context,
) where
    A: Fn(&mut Context, &DatumDefinition<D>) -> Result<DatumId, String>,
    R: Fn(&mut Context, DatumId) -> Result<(), String>,
    C: Fn(&mut Context) -> RecordVariantId,

    requires
        ctxs.len() == calls.len() + 1,
        exists|cs: Seq<&mut Context>|
            #![trigger cs.len()]
            {
                &&& cs.len() == calls.len()
                &&& forall|k: int|
                    0 <= k < calls.len() ==> #[trigger] called(add_datum, remove_datum, close_record_variant, defs, calls[k], cs[k])
                        && *cs[k] == ctxs[k] && *final(cs[k]) == ctxs[k + 1]
            },
        exists|c: &mut Context|
            #[trigger] called(add_datum, remove_datum, close_record_variant, defs, call, c) && *c == ctxs.last() && *final(c) == after,
    ensures
        exists|cs: Seq<&mut Context>|
            #![trigger cs.len()]
            {
                &&& cs.len() == calls.push(call).len()
                &&& forall|k: int|
                    0 <= k < calls.push(call).len() ==> #[trigger] called(
                        add_datum,
                        remove_datum,
                        close_record_variant,
                        defs,
                        calls.push(call)[k],
                        cs[k],
                    ) && *cs[k] == ctxs.push(after)[k] && *final(cs[k]) == ctxs.push(after)[k + 1]
            },
{
    let cs0 = choose|cs: Seq<&mut Context>|
        #![trigger cs.len()]
        {
            &&& cs.len() == calls.len()
            &&& forall|k: int|
                0 <= k < calls.len() ==> #[trigger] called(add_datum, remove_datum, close_record_variant, defs, calls[k], cs[k])
                    && *cs[k] == ctxs[k] && *final(cs[k]) == ctxs[k + 1]
        };
    let c = choose|c: &mut Context|
        #[trigger] called(add_datum, remove_datum, close_record_variant, defs, call, c) && *c == ctxs.last() && *final(c) == after;
    let cs1 = cs0.push(c);
    let calls1 = calls.push(call);
    let ctxs1 = ctxs.push(after);
    assert forall|k: int| 0 <= k < calls1.len() implies #[trigger] called(add_datum, remove_datum, close_record_variant, defs, calls1[k], cs1[k])
        && *cs1[k] == ctxs1[k] && *final(cs1[k]) == ctxs1[k + 1] by {
        if k < calls.len() {
            assert(cs1[k] == cs0[k]);
            assert(calls1[k] == calls[k]);
            assert(ctxs1[k] == ctxs[k]);
            assert(ctxs1[k + 1] == ctxs[k + 1]);
            assert(called(add_datum, remove_datum, close_record_variant, defs, calls[k], cs0[k]));
        } else {
            assert(cs1[k] == c);
            assert(calls1[k] == call);
            assert(ctxs1[k] == ctxs.last());
            assert(ctxs1[k + 1] == after);
        }
    }
    assert(cs1.len() == calls1.len());
}

/// The requests to reach the first `v` variants start the requests to reach the first `w`.
pub proof fn lemma_requests_prefix(variants: Seq<RecordVariant>, v: nat, w: nat)
    requires
        v <= w,
    ensures
        requests_upto(variants, v).len() <= requests_upto(variants, w).len(),
        requests_upto(variants, w).take(requests_upto(variants, v).len() as int) == requests_upto(variants, v),
    decreases w,
{
    if v < w {
        lemma_requests_prefix(variants, v, (w - 1) as nat);
        let a = requests_upto(variants, (w - 1) as nat);
        let b = variant_requests(variants, w - 1);
        assert((a + b).take(requests_upto(variants, v).len() as int) =~= a.take(requests_upto(variants, v).len() as int));
    } else {
        assert(requests_upto(variants, w).take(requests_upto(variants, w).len() as int) =~= requests_upto(variants, w));
    }
}

/// The requests of a variant: its removals, its additions, then its close.
pub proof fn lemma_requests_len(variants: Seq<RecordVariant>, v: int)
    requires
        0 <= v,
    ensures
        requests_upto(variants, (v + 1) as nat).len() == requests_upto(variants, v as nat).len() + variant_requests(
            variants,
            v,
        ).len(),
        variant_requests(variants, v).len() >= 1,
{
}

/// One more call leaves the earlier calls, and the new identifiers they answered, as they were.
pub proof fn lemma_call_pushed(calls: Seq<ConverterCall>, call: ConverterCall)
    ensures
        forall|k: int| 0 <= k < calls.len() ==> #[trigger] calls.push(call)[k] == calls[k],
        forall|d: DatumId, k: nat| k <= calls.len() ==> #[trigger] new_id_before(calls.push(call), d, k) == new_id_before(calls, d, k),
        forall|d: DatumId| #[trigger] new_id_before(calls.push(call), d, calls.len() + 1) == match call {
            ConverterCall::Add(x, Ok(id)) if x == d => Some(id),
            _ => new_id_before(calls, d, calls.len()),
        },
        forall|k: int, r: ConverterRequest| 0 <= k < calls.len() ==> #[trigger] call_answers(calls.push(call), k, r) == call_answers(calls, k, r),
        calls.push(call).drop_last() == calls,
{
    assert forall|d: DatumId, k: nat| k <= calls.len() implies #[trigger] new_id_before(calls.push(call), d, k) == new_id_before(calls, d, k) by {
        lemma_new_id_prefix(calls, call, d, k);
    }
    assert forall|k: int, r: ConverterRequest| 0 <= k < calls.len() implies #[trigger] call_answers(calls.push(call), k, r) == call_answers(calls, k, r) by {
        match r {
            ConverterRequest::Remove(d) => {
                lemma_new_id_prefix(calls, call, d, k as nat);
            },
            _ => {},
        }
    }
    assert forall|d: DatumId| #[trigger] new_id_before(calls.push(call), d, calls.len() + 1) == match call {
        ConverterCall::Add(x, Ok(id)) if x == d => Some(id),
        _ => new_id_before(calls, d, calls.len()),
    } by {
        lemma_new_id_prefix(calls, call, d, calls.len());
        assert(calls.push(call)[calls.len() as int] == call);
    }
    assert(calls.push(call).drop_last() =~= calls);
}

/// The new identifier answered before call `k` does not depend on later calls.
pub proof fn lemma_new_id_prefix(calls: Seq<ConverterCall>, call: ConverterCall, d: DatumId, k: nat)
    requires
        k <= calls.len(),
    ensures
        new_id_before(calls.push(call), d, k) == new_id_before(calls, d, k),
    decreases k,
{
    if k > 0 {
        lemma_new_id_prefix(calls, call, d, (k - 1) as nat);
        assert(calls.push(call)[k - 1] == calls[k - 1]);
    }
}

/// Removing nothing keeps everything.
pub proof fn lemma_without_identity(data: Seq<DatumId>)
    ensures
        without(data, Seq::<DatumId>::empty()) == data,
    decreases data.len(),
{
    if data.len() > 0 {
        lemma_without_identity(data.drop_last());
        assert(data.drop_last().push(data.last()) =~= data);
    }
}

} // verus!
