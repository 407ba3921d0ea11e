//! Conversion of vectors of records, element by element.

use core::convert::Infallible;

use vstd::prelude::*;

verus! {

/// The result of a record conversion in a call to [convert_vec_in_place].
pub enum VecElementConversionResult<T> {
    /// The record has been converted to the attached value.
    Converted(T),
    /// The record has been abandonned.
    Abandonned,
}

/// One call of the converter during a conversion: the last kept record before the call (`None`
/// when no record is kept yet), what the converter left in it, and what it answered.
pub struct ConversionStep<U, E> {
    pub last_before: Option<U>,
    pub last_after: Option<U>,
    pub result: Result<VecElementConversionResult<U>, E>,
}

/// The last record of `kept`, if any.
pub open spec fn last_of<U>(kept: Seq<U>) -> Option<U> {
    if kept.len() > 0 {
        Some(kept.last())
    } else {
        None
    }
}

/// The records kept after the first `i` calls: the converter may change the last kept record,
/// a converted record is kept after the others, an abandonned one is dropped.
#[verifier::opaque]
pub open spec fn kept_after<U, E>(steps: Seq<ConversionStep<U, E>>, i: nat) -> Seq<U>
    decreases i,
{
    if i == 0 || i > steps.len() {
        Seq::empty()
    } else {
        let kept = kept_after(steps, (i - 1) as nat);
        let step = steps[i - 1];
        let changed = match step.last_after {
            Some(last) if kept.len() > 0 => kept.drop_last().push(last),
            _ => kept,
        };
        match step.result {
            Ok(VecElementConversionResult::Converted(u)) => changed.push(u),
            _ => changed,
        }
    }
}

/// Each call is given the last kept record (or nothing when none is kept yet).
pub open spec fn steps_chained<U, E>(steps: Seq<ConversionStep<U, E>>) -> bool {
    forall|i: int|
        0 <= i < steps.len() ==> (#[trigger] steps[i]).last_before == last_of(kept_after(steps, i as nat)) && (
        steps[i].last_after is Some <==> steps[i].last_before is Some)
}

/// How a conversion of `n` records that made the calls `steps` ends: after all the calls answered
/// without error, with the kept records; or at the first error, which is given back.
pub open spec fn conversion_outcome<U, E>(n: nat, steps: Seq<ConversionStep<U, E>>, r: Result<Vec<U>, E>) -> bool {
    &&& forall|i: int| 0 <= i < steps.len() - 1 ==> (#[trigger] steps[i]).result is Ok
    &&& match r {
        Ok(output) => steps.len() == n && (n > 0 ==> steps.last().result is Ok) && output@ == kept_after(
            steps,
            steps.len(),
        ),
        Err(e) => 0 < steps.len() <= n && steps.last().result == Err::<VecElementConversionResult<U>, E>(e),
    }
}

/// The converter never fails and never abandons a record.
pub open spec fn always_converts<T, U, E, C: Fn(T, Option<&mut U>) -> Result<VecElementConversionResult<U>, E>>(
    convert: C,
) -> bool {
    forall|t: T, u: Option<&mut U>, res: Result<VecElementConversionResult<U>, E>|
        #[trigger] call_ensures(convert, (t, u), res) ==> res matches Ok(VecElementConversionResult::Converted(_))
}

/// The converter never fails.
pub open spec fn always_succeeds<T, U, E, C: Fn(T, Option<&mut U>) -> Result<VecElementConversionResult<U>, E>>(
    convert: C,
) -> bool {
    forall|t: T, u: Option<&mut U>, res: Result<VecElementConversionResult<U>, E>|
        #[trigger] call_ensures(convert, (t, u), res) ==> res is Ok
}

/// Converts a vector of `T` to a vector of `U` where `T` and `U` have the same size in memory and
/// the same alignment rule according to the Rust compiler.
///
/// The records are converted in order; the converter receives each record and the last converted
/// one, if any, which it may change. The converted records are kept, the abandonned ones are
/// dropped, and the first error stops the conversion and is given back.
#[verifier::spinoff_prover]
pub fn try_convert_vec_in_place<T, U, C, E>(input: Vec<T>, convert: C) -> (r: Result<Vec<U>, E>) where
    C: Fn(T, Option<&mut U>) -> Result<VecElementConversionResult<U>, E>,

    requires
        vstd::layout::size_of::<T>() == vstd::layout::size_of::<U>(),
        vstd::layout::align_of::<T>() == vstd::layout::align_of::<U>(),
        forall|t: T, u: Option<&mut U>| #[trigger] convert.requires((t, u)),
    ensures
        r matches Ok(output) ==> output@.len() <= input@.len(),
        always_succeeds(convert) ==> r is Ok,
        always_converts(convert) ==> (r matches Ok(output) && output@.len() == input@.len()),
        exists|steps: Seq<ConversionStep<U, E>>|
            {
                &&& #[trigger] conversion_outcome(input@.len(), steps, r)
                &&& steps_chained(steps)
                &&& forall|i: int|
                    #![trigger steps[i]]
                    0 <= i < steps.len() ==> exists|u: Option<&mut U>|
                        {
                            &&& #[trigger] call_ensures(convert, (input@[i], u), steps[i].result)
                            &&& u is Some <==> steps[i].last_before is Some
                            &&& u is Some ==> *u->Some_0 == steps[i].last_before->Some_0 && *final(u->Some_0)
                                == steps[i].last_after->Some_0
                        }
            },
{
    let ghost original = input@;
    let n = input.len();
    let mut rest = input;
    let mut pending: Vec<T> = Vec::new();
    while rest.len() > 0
        invariant
            rest@.len() + pending@.len() == n,
            n == original.len(),
            forall|k: int| 0 <= k < rest@.len() ==> rest@[k] == original[k],
            forall|k: int| 0 <= k < pending@.len() ==> pending@[k] == original[n - 1 - k],
        decreases rest.len(),
    {
        let t = rest.pop().unwrap();
        pending.push(t);
    }
    let mut output: Vec<U> = Vec::new();
    let ghost mut steps: Seq<ConversionStep<U, E>> = Seq::empty();
    proof {
        assert(kept_after(steps, 0) == Seq::<U>::empty()) by {
            reveal(kept_after);
        }
    }
    while pending.len() > 0
        invariant
            forall|t: T, u: Option<&mut U>| #[trigger] convert.requires((t, u)),

            pending@.len() <= n == original.len(),
            original == input@,
            forall|k: int| 0 <= k < pending@.len() ==> pending@[k] == original[n - 1 - k],
            steps.len() == n - pending@.len(),
            forall|i: int| 0 <= i < steps.len() ==> (#[trigger] steps[i]).result is Ok,
            steps_chained(steps),
            output@ == kept_after(steps, steps.len()),
            forall|i: int|
                #![trigger steps[i]]
                0 <= i < steps.len() ==> exists|u: Option<&mut U>|
                    {
                        &&& #[trigger] call_ensures(convert, (original[i], u), steps[i].result)
                        &&& u is Some <==> steps[i].last_before is Some
                        &&& u is Some ==> *u->Some_0 == steps[i].last_before->Some_0 && *final(u->Some_0)
                            == steps[i].last_after->Some_0
                    },
        decreases pending.len(),
    {
        let t = pending.pop().unwrap();
        let ghost idx = n - 1 - pending@.len();
        proof {
            assert(t == original[idx]);
            assert(idx == steps.len());
        }
        let count = output.len();
        let ghost kept = output@;
        let ghost mut step: ConversionStep<U, E>;
        let converted = if count > 0 {
            let ghost before = output@[count - 1];
            let c = convert(t, Some(&mut output[count - 1]));
            proof {
                let after = output@[count - 1];
                step = ConversionStep { last_before: Some(before), last_after: Some(after), result: c };
                assert(exists|u: Option<&mut U>|
                    {
                        &&& #[trigger] call_ensures(convert, (original[idx], u), step.result)
                        &&& u is Some <==> step.last_before is Some
                        &&& u is Some ==> *u->Some_0 == step.last_before->Some_0 && *final(u->Some_0)
                            == step.last_after->Some_0
                    });
                assert(output@ == kept.drop_last().push(after));
            }
            c
        } else {
            let c = convert(t, None);
            proof {
                step = ConversionStep { last_before: None, last_after: None, result: c };
                assert(call_ensures(convert, (original[idx], None::<&mut U>), step.result));
            }
            c
        };
        let ghost old_steps = steps;
        proof {
            lemma_step_pushed(old_steps, step);
            steps = steps.push(step);
            assert forall|i: int|
                #![trigger steps[i]]
                0 <= i < steps.len() implies exists|u: Option<&mut U>|
                {
                    &&& #[trigger] call_ensures(convert, (original[i], u), steps[i].result)
                    &&& u is Some <==> steps[i].last_before is Some
                    &&& u is Some ==> *u->Some_0 == steps[i].last_before->Some_0 && *final(u->Some_0)
                        == steps[i].last_after->Some_0
                } by {
                if i < old_steps.len() {
                    assert(steps[i] == old_steps[i]);
                } else {
                    assert(steps[i] == step);
                }
            }
        }
        match converted {
            Ok(VecElementConversionResult::Converted(u)) => {
                output.push(u);
                proof {
                    assert(output@ == kept_after(steps, steps.len()));
                }
            },
            Ok(VecElementConversionResult::Abandonned) => {
                proof {
                    assert(output@ == kept_after(steps, steps.len()));
                }
            },
            Err(e) => {
                proof {
                    assert(Err::<Vec<U>, E>(e)->Err_0 == e);
                    assert(conversion_outcome(input@.len(), steps, Err::<Vec<U>, E>(e)));
                }
                return Err(e);
            },
        }
    }
    proof {
        assert(conversion_outcome(input@.len(), steps, Ok::<Vec<U>, E>(output)));
        lemma_kept_len(steps, steps.len());
        if always_converts(convert) {
            assert forall|j: int| 0 <= j < steps.len() implies (#[trigger] steps[j]).result matches Ok(
                VecElementConversionResult::Converted(_),
            ) by {
                let u = choose|u: Option<&mut U>|
                    {
                        &&& #[trigger] call_ensures(convert, (original[j], u), steps[j].result)
                        &&& u is Some <==> steps[j].last_before is Some
                        &&& u is Some ==> *u->Some_0 == steps[j].last_before->Some_0 && *final(u->Some_0)
                            == steps[j].last_after->Some_0
                    };
            }
            lemma_all_converted_kept(steps, steps.len());
        }
    }
    Ok(output)
}

/// One more call keeps the calls chained when it is given the last kept record; the records
/// kept before it do not change.
pub proof fn lemma_step_pushed<U, E>(steps: Seq<ConversionStep<U, E>>, step: ConversionStep<U, E>)
    requires
        steps_chained(steps),
        step.last_before == last_of(kept_after(steps, steps.len())),
        step.last_after is Some <==> step.last_before is Some,
    ensures
        steps_chained(steps.push(step)),
        forall|i: nat| i <= steps.len() ==> #[trigger] kept_after(steps.push(step), i) == kept_after(steps, i),
        steps.push(step)[steps.len() as int] == step,
        kept_after(steps.push(step), steps.len() + 1) == ({
            let kept = kept_after(steps, steps.len());
            let changed = match step.last_after {
                Some(last) if kept.len() > 0 => kept.drop_last().push(last),
                _ => kept,
            };
            match step.result {
                Ok(VecElementConversionResult::Converted(u)) => changed.push(u),
                _ => changed,
            }
        }),
{
    let pushed = steps.push(step);
    reveal(kept_after);
    lemma_kept_after_prefix(steps, step, steps.len());
    assert forall|i: nat| i <= steps.len() implies #[trigger] kept_after(pushed, i) == kept_after(steps, i) by {
        lemma_kept_after_prefix(steps, step, i);
    }
    assert forall|i: int| 0 <= i < pushed.len() implies (#[trigger] pushed[i]).last_before == last_of(
        kept_after(pushed, i as nat),
    ) && (pushed[i].last_after is Some <==> pushed[i].last_before is Some) by {
        lemma_kept_after_prefix(steps, step, i as nat);
        if i < steps.len() {
            assert(pushed[i] == steps[i]);
        }
    }
}

/// No more records are kept than calls were made.
pub proof fn lemma_kept_len<U, E>(steps: Seq<ConversionStep<U, E>>, i: nat)
    requires
        i <= steps.len(),
    ensures
        kept_after(steps, i).len() <= i,
    decreases i,
{
    reveal(kept_after);
    if i > 0 {
        lemma_kept_len(steps, (i - 1) as nat);
    }
}

/// When every call converts its record, every record is kept.
pub proof fn lemma_all_converted_kept<U, E>(steps: Seq<ConversionStep<U, E>>, i: nat)
    requires
        i <= steps.len(),
        forall|j: int| 0 <= j < steps.len() ==> (#[trigger] steps[j]).result matches Ok(
            VecElementConversionResult::Converted(_),
        ),
    ensures
        kept_after(steps, i).len() == i,
    decreases i,
{
    reveal(kept_after);
    if i > 0 {
        lemma_all_converted_kept(steps, (i - 1) as nat);
        let s = steps[i - 1];
    }
}

/// The records kept after the first `i` calls do not depend on later calls.
pub proof fn lemma_kept_after_prefix<U, E>(steps: Seq<ConversionStep<U, E>>, step: ConversionStep<U, E>, i: nat)
    requires
        i <= steps.len(),
    ensures
        kept_after(steps.push(step), i) == kept_after(steps, i),
    decreases i,
{
    reveal(kept_after);
    if i > 0 {
        lemma_kept_after_prefix(steps, step, (i - 1) as nat);
        assert(steps.push(step)[i - 1] == steps[i - 1]);
    }
}

/// Converts a vector of `T` to a vector of `U` where `T` and `U` have the same size in memory and
/// the same alignment rule according to the Rust compiler.
///
/// The records are converted in order; the converter receives each record and the last converted
/// one, if any, which it may change. The converted records are kept, the abandonned ones are
/// dropped.
pub fn convert_vec_in_place<T, U, C>(input: Vec<T>, convert: C) -> (r: Vec<U>) where
    C: Fn(T, Option<&mut U>) -> VecElementConversionResult<U>,

    requires
        vstd::layout::size_of::<T>() == vstd::layout::size_of::<U>(),
        vstd::layout::align_of::<T>() == vstd::layout::align_of::<U>(),
        forall|t: T, u: Option<&mut U>| #[trigger] convert.requires((t, u)),
    ensures
        r@.len() <= input@.len(),
        (forall|t: T, u: Option<&mut U>, res: VecElementConversionResult<U>|
            #[trigger] call_ensures(convert, (t, u), res) ==> res is Converted) ==> r@.len() == input@.len(),
        exists|steps: Seq<ConversionStep<U, Infallible>>|
            {
                &&& #[trigger] conversion_outcome(input@.len(), steps, Ok::<Vec<U>, Infallible>(r))
                &&& steps_chained(steps)
                &&& forall|i: int|
                    #![trigger steps[i]]
                    0 <= i < steps.len() ==> exists|u: Option<&mut U>|
                        {
                            &&& #[trigger] call_ensures(convert, (input@[i], u), steps[i].result->Ok_0)
                            &&& u is Some <==> steps[i].last_before is Some
                            &&& u is Some ==> *u->Some_0 == steps[i].last_before->Some_0 && *final(u->Some_0)
                                == steps[i].last_after->Some_0
                        }
            },
{
    let converter = &convert;
    let wrapped = (|t: T, u: Option<&mut U>| -> (res: Result<VecElementConversionResult<U>, Infallible>)
        requires
            converter.requires((t, u)),
        ensures
            res is Ok,
            call_ensures(converter, (t, u), res->Ok_0),
        { Ok(converter(t, u)) });
    let r = try_convert_vec_in_place(input, wrapped);
    match r {
        Ok(output) => {
            output
        },
        Err(_) => {
            proof {
                assert(false);
            }
            Vec::new()
        },
    }
}

} // verus!
