//! Runs of records: a count is known, and the records follow one another.
use crate::error::Error;
use crate::wire::{lemma_placed_concat, placed};
use vstd::prelude::*;

verus! {

/// The views of the elements of a sequence, in order.
pub open spec fn seq_view<T: View>(items: Seq<T>) -> Seq<T::V> {
    Seq::new(items.len(), |i: int| items[i]@)
}

/// `front`, then whatever a decoder of the rest came to.
pub open spec fn after<V>(front: Seq<V>, rest: Result<(Seq<V>, int), Error>) -> Result<
    (Seq<V>, int),
    Error,
> {
    match rest {
        Ok((items, p)) => Ok((front + items, p)),
        Err(e) => Err(e),
    }
}

/// `n` records from position `p` on, each decoded by `one` where the one
/// before it stopped. The first failure is the failure of the run.
pub open spec fn spec_read_run<V>(
    s: Seq<u8>,
    p: int,
    n: nat,
    one: spec_fn(Seq<u8>, int) -> Result<(V, int), Error>,
) -> Result<(Seq<V>, int), Error>
    decreases n,
{
    if n == 0 {
        Ok((Seq::empty(), p))
    } else {
        match one(s, p) {
            Err(e) => Err(e),
            Ok((item, q)) => after(seq![item], spec_read_run(s, q, (n - 1) as nat, one)),
        }
    }
}

/// The bytes of a run: those of each record, in order.
pub open spec fn run_bytes<V>(items: Seq<V>, bytes_of: spec_fn(V) -> Seq<u8>) -> Seq<u8>
    decreases items.len(),
{
    if items.len() == 0 {
        Seq::empty()
    } else {
        bytes_of(items[0]) + run_bytes(items.drop_first(), bytes_of)
    }
}

/// The first thing wrong with a record of the run, if anything is.
pub open spec fn run_problem<V>(items: Seq<V>, problem_of: spec_fn(V) -> Option<Error>) -> Option<
    Error,
>
    decreases items.len(),
{
    if items.len() == 0 {
        None
    } else {
        match problem_of(items[0]) {
            Some(e) => Some(e),
            None => run_problem(items.drop_first(), problem_of),
        }
    }
}

/// One step of a decoding loop: with `front` decoded and `n` records to go,
/// the next record either fails the run or joins `front`.
pub proof fn lemma_read_run_step<V>(
    s: Seq<u8>,
    p: int,
    n: nat,
    one: spec_fn(Seq<u8>, int) -> Result<(V, int), Error>,
    front: Seq<V>,
)
    requires
        n > 0,
    ensures
        one(s, p) is Err ==> after(front, spec_read_run(s, p, n, one)) == Err::<(Seq<V>, int), Error>(
            one(s, p)->Err_0,
        ),
        one(s, p) is Ok ==> after(front, spec_read_run(s, p, n, one)) == after(
            front.push(one(s, p)->Ok_0.0),
            spec_read_run(s, one(s, p)->Ok_0.1, (n - 1) as nat, one),
        ),
{
    if let Ok((item, q)) = one(s, p) {
        match spec_read_run(s, q, (n - 1) as nat, one) {
            Ok((items, end)) => {
                assert(front + (seq![item] + items) =~= front.push(item) + items);
            },
            Err(e) => {},
        }
    }
}

/// A run read to its end is `front` itself.
pub proof fn lemma_read_run_done<V>(
    s: Seq<u8>,
    p: int,
    one: spec_fn(Seq<u8>, int) -> Result<(V, int), Error>,
    front: Seq<V>,
)
    ensures
        after(front, spec_read_run(s, p, 0, one)) == Ok::<(Seq<V>, int), Error>((front, p)),
{
    assert(front + Seq::<V>::empty() =~= front);
}

/// The bytes of a run with one more record at its end.
pub proof fn lemma_run_bytes_push<V>(items: Seq<V>, last: V, bytes_of: spec_fn(V) -> Seq<u8>)
    ensures
        run_bytes(items.push(last), bytes_of) == run_bytes(items, bytes_of) + bytes_of(last),
    decreases items.len(),
{
    let all = items.push(last);
    if items.len() == 0 {
        assert(all.drop_first() =~= Seq::<V>::empty());
        assert(run_bytes(Seq::<V>::empty(), bytes_of) =~= Seq::<u8>::empty());
        assert(run_bytes(all, bytes_of) =~= bytes_of(last) + Seq::<u8>::empty());
        assert(run_bytes(all, bytes_of) =~= run_bytes(items, bytes_of) + bytes_of(last));
    } else {
        assert(all.drop_first() =~= items.drop_first().push(last));
        lemma_run_bytes_push(items.drop_first(), last, bytes_of);
        assert(run_bytes(all, bytes_of) =~= run_bytes(items, bytes_of) + bytes_of(last));
    }
}

/// A run with nothing wrong stays so with one more sound record, and a
/// record with something wrong behind such a run is the run's first problem.
pub proof fn lemma_run_problem_push<V>(
    items: Seq<V>,
    last: V,
    problem_of: spec_fn(V) -> Option<Error>,
)
    requires
        run_problem(items, problem_of) is None,
    ensures
        run_problem(items.push(last), problem_of) == problem_of(last),
    decreases items.len(),
{
    let all = items.push(last);
    if items.len() == 0 {
        assert(all.drop_first() =~= Seq::<V>::empty());
        assert(run_problem(Seq::<V>::empty(), problem_of) is None);
    } else {
        assert(all.drop_first() =~= items.drop_first().push(last));
        lemma_run_problem_push(items.drop_first(), last, problem_of);
    }
}

/// A problem in a front part of a run is the problem of the whole run.
pub proof fn lemma_run_problem_prefix<V>(
    items: Seq<V>,
    k: int,
    problem_of: spec_fn(V) -> Option<Error>,
)
    requires
        0 <= k <= items.len(),
        run_problem(items.take(k), problem_of) is Some,
    ensures
        run_problem(items, problem_of) == run_problem(items.take(k), problem_of),
    decreases k,
{
    if k > 0 {
        assert(items.take(k)[0] == items[0]);
        if problem_of(items[0]) is None {
            assert(items.take(k).drop_first() =~= items.drop_first().take(k - 1));
            lemma_run_problem_prefix(items.drop_first(), k - 1, problem_of);
        }
    }
}

/// A run without a problem has none in any of its records.
pub proof fn lemma_run_problem_none<V>(items: Seq<V>, problem_of: spec_fn(V) -> Option<Error>, i: int)
    requires
        run_problem(items, problem_of) is None,
        0 <= i < items.len(),
    ensures
        problem_of(items[i]) is None,
    decreases items.len(),
{
    if i > 0 {
        lemma_run_problem_none(items.drop_first(), problem_of, i - 1);
    }
}

/// A run that was written reads back record by record, each record as
/// `fix` makes it, provided each of its records reads back so: `sound` says
/// of which records that is known.
pub proof fn lemma_run_roundtrip_fixed<V>(
    items: Seq<V>,
    s: Seq<u8>,
    p: int,
    one: spec_fn(Seq<u8>, int) -> Result<(V, int), Error>,
    bytes_of: spec_fn(V) -> Seq<u8>,
    sound: spec_fn(V) -> bool,
    fix: spec_fn(V) -> V,
)
    requires
        placed(s, p, run_bytes(items, bytes_of)),
        forall|i: int| 0 <= i < items.len() ==> #[trigger] sound(items[i]),
        forall|v: V, q: int|
            sound(v) && #[trigger] placed(s, q, bytes_of(v)) ==> one(s, q) == Ok::<(V, int), Error>(
                (fix(v), q + bytes_of(v).len()),
            ),
    ensures
        spec_read_run(s, p, items.len(), one) == Ok::<(Seq<V>, int), Error>(
            (items.map_values(fix), p + run_bytes(items, bytes_of).len()),
        ),
    decreases items.len(),
{
    if items.len() == 0 {
        assert(items.map_values(fix) =~= Seq::<V>::empty());
    } else {
        let first = items[0];
        let rest = items.drop_first();
        lemma_placed_concat(s, p, bytes_of(first), run_bytes(rest, bytes_of));
        assert(sound(first));
        assert forall|i: int| 0 <= i < rest.len() implies #[trigger] sound(rest[i]) by {
            assert(rest[i] == items[i + 1]);
        }
        lemma_run_roundtrip_fixed(rest, s, p + bytes_of(first).len(), one, bytes_of, sound, fix);
        assert(seq![fix(first)] + rest.map_values(fix) =~= items.map_values(fix));
    }
}

/// A run that was written reads back record by record, provided each of its
/// records does: `sound` says of which records that is known.
pub proof fn lemma_run_roundtrip<V>(
    items: Seq<V>,
    s: Seq<u8>,
    p: int,
    one: spec_fn(Seq<u8>, int) -> Result<(V, int), Error>,
    bytes_of: spec_fn(V) -> Seq<u8>,
    sound: spec_fn(V) -> bool,
)
    requires
        placed(s, p, run_bytes(items, bytes_of)),
        forall|i: int| 0 <= i < items.len() ==> #[trigger] sound(items[i]),
        forall|v: V, q: int|
            sound(v) && #[trigger] placed(s, q, bytes_of(v)) ==> one(s, q) == Ok::<(V, int), Error>(
                (v, q + bytes_of(v).len()),
            ),
    ensures
        spec_read_run(s, p, items.len(), one) == Ok::<(Seq<V>, int), Error>(
            (items, p + run_bytes(items, bytes_of).len()),
        ),
{
    let same = |v: V| v;
    lemma_run_roundtrip_fixed(items, s, p, one, bytes_of, sound, same);
    assert(items.map_values(same) =~= items);
}

/// A change to the records that leaves the bytes of each as they were
/// leaves the bytes of the run as they were.
pub proof fn lemma_run_bytes_fixed<V>(items: Seq<V>, bytes_of: spec_fn(V) -> Seq<u8>, fix: spec_fn(V) -> V)
    requires
        forall|v: V| bytes_of(#[trigger] fix(v)) == bytes_of(v),
    ensures
        run_bytes(items.map_values(fix), bytes_of) == run_bytes(items, bytes_of),
    decreases items.len(),
{
    if items.len() > 0 {
        assert(items.map_values(fix).drop_first() =~= items.drop_first().map_values(fix));
        lemma_run_bytes_fixed(items.drop_first(), bytes_of, fix);
    }
}

/// A change to the records that leaves the problem of each as it was
/// leaves the problem of the run as it was.
pub proof fn lemma_run_problem_fixed<V>(
    items: Seq<V>,
    problem_of: spec_fn(V) -> Option<Error>,
    fix: spec_fn(V) -> V,
)
    requires
        forall|v: V| problem_of(#[trigger] fix(v)) == problem_of(v),
    ensures
        run_problem(items.map_values(fix), problem_of) == run_problem(items, problem_of),
    decreases items.len(),
{
    if items.len() > 0 {
        assert(items.map_values(fix).drop_first() =~= items.drop_first().map_values(fix));
        lemma_run_problem_fixed(items.drop_first(), problem_of, fix);
    }
}

/// What holds of a run that was decoded: it has as many records as were
/// asked for, the decoder stopped within the input and not before the place
/// where it started, and whatever `good` says of every record that `one`
/// decodes holds of every record of the run.
pub proof fn lemma_read_run_holds<V>(
    s: Seq<u8>,
    p: int,
    n: nat,
    one: spec_fn(Seq<u8>, int) -> Result<(V, int), Error>,
    good: spec_fn(V) -> bool,
)
    requires
        0 <= p <= s.len(),
        spec_read_run(s, p, n, one) is Ok,
        forall|q: int|
            0 <= q <= s.len() && (#[trigger] one(s, q)) is Ok ==> good(one(s, q)->Ok_0.0) && q
                <= one(s, q)->Ok_0.1 <= s.len(),
    ensures
        spec_read_run(s, p, n, one)->Ok_0.0.len() == n,
        p <= spec_read_run(s, p, n, one)->Ok_0.1 <= s.len(),
        forall|i: int| 0 <= i < n ==> good(#[trigger] spec_read_run(s, p, n, one)->Ok_0.0[i]),
    decreases n,
{
    if n > 0 {
        let (first, q) = one(s, p)->Ok_0;
        lemma_read_run_holds(s, q, (n - 1) as nat, one, good);
        let rest = spec_read_run(s, q, (n - 1) as nat, one)->Ok_0.0;
        let all = spec_read_run(s, p, n, one)->Ok_0.0;
        assert(all == seq![first] + rest);
        assert forall|i: int| 0 <= i < n implies good(#[trigger] all[i]) by {
            if i > 0 {
                assert(all[i] == rest[i - 1]);
            }
        }
    }
}

/// A run whose records have no problem has none.
pub proof fn lemma_run_problem_all_none<V>(items: Seq<V>, problem_of: spec_fn(V) -> Option<Error>)
    requires
        forall|i: int| 0 <= i < items.len() ==> problem_of(#[trigger] items[i]) is None,
    ensures
        run_problem(items, problem_of) is None,
    decreases items.len(),
{
    if items.len() > 0 {
        assert(problem_of(items[0]) is None);
        assert forall|i: int| 0 <= i < items.drop_first().len() implies problem_of(
            #[trigger] items.drop_first()[i],
        ) is None by {
            assert(items.drop_first()[i] == items[i + 1]);
        }
        lemma_run_problem_all_none(items.drop_first(), problem_of);
    }
}

/// A run that decodes from `s` decodes to the same from every input that
/// agrees with `s` wherever `one` has looked: `one` is known to give on `t`
/// what it gives on `s` wherever it succeeds on `s`.
pub proof fn lemma_read_run_extends<V>(
    s: Seq<u8>,
    t: Seq<u8>,
    p: int,
    n: nat,
    one: spec_fn(Seq<u8>, int) -> Result<(V, int), Error>,
)
    requires
        spec_read_run(s, p, n, one) is Ok,
        forall|q: int| (#[trigger] one(s, q)) is Ok ==> one(t, q) == one(s, q),
    ensures
        spec_read_run(t, p, n, one) == spec_read_run(s, p, n, one),
    decreases n,
{
    if n > 0 {
        assert(one(s, p) is Ok);
        lemma_read_run_extends(s, t, one(s, p)->Ok_0.1, (n - 1) as nat, one);
    }
}

} // verus!
