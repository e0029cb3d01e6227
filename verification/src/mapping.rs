//! Applying a function to each item of a list, up to the first error.
use vstd::prelude::*;

verus! {

/// `outputs` are what `f` gives for `inputs`.
pub open spec fn mapped<A, B, E, F: Fn(&A) -> Result<B, E>>(
    f: F,
    inputs: Seq<A>,
    outputs: Seq<B>,
) -> bool {
    &&& outputs.len() == inputs.len()
    &&& forall|i: int|
        0 <= i < inputs.len() ==> call_ensures(f, (&#[trigger] inputs[i],), Ok(outputs[i]))
}

/// `f` gives `error` for one of `inputs`, and none for those before it.
pub open spec fn unmapped<A, B, E, F: Fn(&A) -> Result<B, E>>(
    f: F,
    inputs: Seq<A>,
    error: E,
) -> bool {
    exists|i: int, before: Seq<B>|
        {
            &&& 0 <= i < inputs.len()
            &&& #[trigger] mapped(f, inputs.take(i), before)
            &&& call_ensures(f, (&inputs[i],), Err::<B, E>(error))
        }
}

/// Applies `f` to each of `inputs`, up to the first error.
pub fn map_all<A, B, E, F: Fn(&A) -> Result<B, E>>(f: &F, inputs: &Vec<A>) -> (outputs: Result<
    Vec<B>,
    E,
>)
    requires
        forall|input: &A| call_requires(*f, (input,)),
    ensures
        match outputs {
            Ok(outputs) => mapped(*f, inputs@, outputs@),
            Err(error) => unmapped::<A, B, E, F>(*f, inputs@, error),
        },
{
    let mut outputs: Vec<B> = Vec::new();
    let mut i: usize = 0;
    while i < inputs.len()
        invariant
            forall|input: &A| call_requires(*f, (input,)),
            i <= inputs@.len(),
            outputs@.len() == i,
            forall|j: int|
                0 <= j < i ==> call_ensures(*f, (&#[trigger] inputs@[j],), Ok(outputs@[j])),
        decreases inputs@.len() - i,
    {
        match f(&inputs[i]) {
            Ok(output) => {
                outputs.push(output);
            },
            Err(error) => {
                assert(mapped(*f, inputs@.take(i as int), outputs@));
                return Err(error);
            },
        }
        i = i + 1;
    }
    Ok(outputs)
}

/// `f` gives an output for an item.
pub open spec fn gives_output<A, B, E, F: Fn(&A) -> Result<B, E>>(f: F, input: A) -> bool {
    exists|output: B| #[trigger] call_ensures(f, (&input,), Ok::<B, E>(output))
}

/// Applying a function to each item of a list gives as many outputs, each what the function
/// gives for its item; or the error that it gives for an item, after it gave none for those
/// before.
pub proof fn lemma_map_all<A, B, E, F: Fn(&A) -> Result<B, E>>(
    f: F,
    inputs: Vec<A>,
    outputs: Result<Vec<B>, E>,
)
    requires
        call_ensures(map_all::<A, B, E, F>, (&f, &inputs), outputs),
    ensures
        outputs matches Ok(outputs) ==> {
            &&& outputs@.len() == inputs@.len()
            &&& forall|i: int|
                0 <= i < inputs@.len() ==> call_ensures(
                    f,
                    (&#[trigger] inputs@[i],),
                    Ok::<B, E>(outputs@[i]),
                )
        },
        outputs matches Err(error) ==> exists|i: int|
            {
                &&& 0 <= i < inputs@.len()
                &&& call_ensures(f, (&#[trigger] inputs@[i],), Err::<B, E>(error))
                &&& forall|j: int|
                    0 <= j < i ==> gives_output::<A, B, E, F>(f, #[trigger] inputs@[j])
            },
{
    if let Err(error) = outputs {
        let (i, before) = choose|i: int, before: Seq<B>|
            {
                &&& 0 <= i < inputs@.len()
                &&& #[trigger] mapped(f, inputs@.take(i), before)
                &&& call_ensures(f, (&inputs@[i],), Err::<B, E>(error))
            };
        assert forall|j: int| 0 <= j < i implies gives_output::<A, B, E, F>(
            f,
            #[trigger] inputs@[j],
        ) by {
            assert(inputs@.take(i)[j] == inputs@[j]);
            assert(call_ensures(f, (&inputs@[j],), Ok::<B, E>(before[j])));
        }
        assert(call_ensures(f, (&inputs@[i],), Err::<B, E>(error)));
    }
}

} // verus!
