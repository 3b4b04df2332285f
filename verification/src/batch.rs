//! Cutting a list into consecutive groups: the batches of a batched endpoint
//! and the waves of the concurrent request driver.

use crate::hi_rez_constants::LimitConstants;
use crate::text::{free_of, join, lemma_join_chars, lemma_split_join, split, texts};
use vstd::prelude::*;

verus! {

/// The number of match ids that one call of the batched endpoint takes.
pub const MATCH_DETAILS_BATCH: usize = 10;

/// The number of groups of at most `size` that `n` items make.
pub open spec fn group_count(n: nat, size: nat) -> nat
    recommends
        size > 0,
{
    ((n + size - 1) / (size as int)) as nat
}

/// The `k`-th group of at most `size` consecutive items.
pub open spec fn group<T>(items: Seq<T>, size: nat, k: int) -> Seq<T>
    recommends
        size > 0,
        0 <= k < group_count(items.len(), size),
{
    items.subrange(
        k * size,
        if (k + 1) * size <= items.len() {
            (k + 1) * size
        } else {
            items.len() as int
        },
    )
}

/// The number of items in the `k`-th group: `size`, but for a last group
/// that takes what is left.
pub open spec fn group_len(n: nat, size: nat, k: int) -> int {
    if n - k * size < size {
        n - k * size
    } else {
        size as int
    }
}

/// Groups are as many as the items need, none is empty and none holds more
/// than `size` items; together they hold each item once, in order.
pub proof fn lemma_groups<T>(items: Seq<T>, size: nat, k: int)
    requires
        size > 0,
        0 <= k < group_count(items.len(), size),
    ensures
        0 <= k * size < items.len(),
        group(items, size, k).len() == group_len(items.len(), size, k),
        1 <= group(items, size, k).len() <= size,
        forall|j: int|
            0 <= j < group(items, size, k).len() ==> #[trigger] group(items, size, k)[j]
                == items[k * size + j],
{
    let n = items.len() as int;
    let s = size as int;
    assert(0 <= k * s < n && (k + 1) * s == k * s + s) by (nonlinear_arith)
        requires
            s > 0,
            0 <= k < (n + s - 1) / s,
    ;
}

/// As many groups as the division of the items by `size`, rounded up.
pub proof fn lemma_group_count(n: nat, size: nat, count: nat)
    requires
        size > 0,
        n == 0 ==> count == 0,
        n > 0 ==> (count - 1) * size < n <= count * size,
    ensures
        group_count(n, size) == count,
{
    let n = n as int;
    let s = size as int;
    let g = count as int;
    if n > 0 {
        assert((n + s - 1) / s == g) by (nonlinear_arith)
            requires
                s > 0,
                (g - 1) * s < n <= g * s,
        ;
    } else {
        assert((n + s - 1) / s == 0) by (nonlinear_arith)
            requires
                s > 0,
                n == 0,
        ;
    }
}

/// Cuts `items` into consecutive groups of `size`; the last group takes what
/// is left.
pub fn groups_of<T>(items: Vec<T>, size: usize) -> (groups: Vec<Vec<T>>)
    requires
        size > 0,
    ensures
        groups@.len() == group_count(items@.len(), size as nat),
        forall|k: int|
            0 <= k < groups@.len() ==> (#[trigger] groups@[k])@ == group(items@, size as nat, k),
{
    let mut groups: Vec<Vec<T>> = Vec::new();
    let mut current: Vec<T> = Vec::new();
    let ghost n = items@.len();
    for item in it: items
        invariant
            size > 0,
            n == items@.len(),
            it.seq() == items@,
            groups@.len() * size + current@.len() == it.index(),
            current@.len() <= size,
            it.index() > 0 ==> current@.len() > 0,
            current@ == items@.subrange(groups@.len() * size, it.index() as int),
            forall|k: int|
                0 <= k < groups@.len() ==> (#[trigger] groups@[k])@ == items@.subrange(
                    k * size,
                    (k + 1) * size,
                ),
    {
        let ghost done = groups@.len() as int;
        if current.len() == size {
            proof {
                assert((done + 1) * size == done * size + size) by (nonlinear_arith);
            }
            groups.push(current);
            current = Vec::new();
            assert(current@ =~= items@.subrange(groups@.len() * size, it.index() as int));
        }
        current.push(item);
        assert(current@ =~= items@.subrange(groups@.len() * size, it.index() + 1));
    }
    let ghost full = groups@.len() as int;
    let ghost rest = current@.len() as int;
    assert(full * size + rest == n);
    if current.len() > 0 {
        groups.push(current);
    }
    proof {
        let s = size as int;
        assert((full + 1) * s == full * s + s) by (nonlinear_arith);
        assert(n == 0 ==> full == 0) by (nonlinear_arith)
            requires
                full * s + rest == n,
                full >= 0,
                rest >= 0,
                s > 0,
        ;
        lemma_group_count(n, size as nat, groups@.len());
        assert forall|k: int| 0 <= k < groups@.len() implies (#[trigger] groups@[k])@ == group(
            items@,
            size as nat,
            k,
        ) by {
            if k < full {
                assert((k + 1) * s <= full * s) by (nonlinear_arith)
                    requires
                        0 <= k < full,
                        s > 0,
                ;
            }
        }
    }
    groups
}

/// The arguments of one call of the batched endpoint: a slash, then the
/// match ids with commas between them. No ids, no arguments.
pub open spec fn spec_batch_string(match_ids: Seq<Seq<char>>) -> Seq<char> {
    if match_ids.len() == 0 {
        Seq::empty()
    } else {
        "/"@ + join(match_ids, ","@)
    }
}

/// The shape of the arguments of a batched call: a slash, then a character
/// that is neither a comma nor a slash, then anything without a slash. These
/// are the texts that the pattern `^/[^,/][^/]*(,[^,/]+){0,9}$` takes.
pub open spec fn is_batch_pattern(suffix: Seq<char>) -> bool {
    &&& suffix.len() >= 2
    &&& suffix[0] == '/'
    &&& suffix[1] != ',' && suffix[1] != '/'
    &&& forall|i: int| 1 <= i < suffix.len() ==> suffix[i] != '/'
}

/// The batching law: the ids of a list go out ten to a call, and in one
/// call more what is left; the calls are as many as the ids divided by ten,
/// rounded up. The arguments of a call have the shape of the pattern if no
/// id of the call holds a slash and its first id begins with a character
/// other than a comma, and they give the ids of the call back, split at the
/// commas, if no id holds a comma.
pub proof fn lemma_batching_law(match_ids: Seq<Seq<char>>, k: int)
    requires
        0 <= k < group_count(match_ids.len(), MATCH_DETAILS_BATCH as nat),
    ensures
        group_count(match_ids.len(), MATCH_DETAILS_BATCH as nat) == (match_ids.len() + 9) / 10,
        group(match_ids, MATCH_DETAILS_BATCH as nat, k).len() == if match_ids.len() - 10 * k < 10 {
            match_ids.len() - 10 * k
        } else {
            10
        },
        ({
            let batch = group(match_ids, MATCH_DETAILS_BATCH as nat, k);
            let suffix = spec_batch_string(batch);
            &&& suffix.len() > 0 && suffix[0] == '/'
            &&& (batch[0].len() > 0 && batch[0][0] != ',' && forall|i: int|
                0 <= i < batch.len() ==> free_of(#[trigger] batch[i], '/')) ==> is_batch_pattern(
                suffix,
            )
            &&& (forall|i: int| 0 <= i < batch.len() ==> free_of(#[trigger] batch[i], ','))
                ==> split(suffix.skip(1), ',') == batch
        }),
{
    lemma_groups(match_ids, MATCH_DETAILS_BATCH as nat, k);
    let batch = group(match_ids, MATCH_DETAILS_BATCH as nat, k);
    let suffix = spec_batch_string(batch);
    reveal_strlit("/");
    reveal_strlit(",");
    assert("/"@ =~= seq!['/']);
    assert(","@ =~= seq![',']);
    let joined = join(batch, ","@);
    assert(suffix.skip(1) =~= joined);
    lemma_join_chars(batch, ","@, '/');
    if batch[0].len() > 0 && batch[0][0] != ',' && forall|i: int|
        0 <= i < batch.len() ==> free_of(#[trigger] batch[i], '/') {
        assert(free_of(batch[0], '/'));
        assert(suffix[1] == joined[0]);
        assert forall|i: int| 1 <= i < suffix.len() implies suffix[i] != '/' by {
            assert(suffix[i] == joined[i - 1]);
        }
    }
    if forall|i: int| 0 <= i < batch.len() ==> free_of(#[trigger] batch[i], ',') {
        lemma_split_join(batch, ',');
    }
}

/// Writes the arguments of one call of the batched endpoint.
pub fn construct_batch_match_id_string(match_ids: Vec<String>) -> (suffix: String)
    ensures
        suffix@ == spec_batch_string(texts(match_ids@)),
{
    let mut suffix = String::new();
    let mut i: usize = 0;
    while i < match_ids.len()
        invariant
            i <= match_ids@.len(),
            suffix@ == spec_batch_string(texts(match_ids@).take(i as int)),
        decreases match_ids@.len() - i,
    {
        let ghost before = texts(match_ids@).take(i as int);
        let ghost after = texts(match_ids@).take(i + 1);
        proof {
            assert(after.drop_last() =~= before);
            assert(after.last() == match_ids@[i as int]@);
        }
        if i == 0 {
            suffix.append("/");
        } else {
            suffix.append(",");
        }
        suffix.append(match_ids[i].as_str());
        proof {
            assert(suffix@ =~= spec_batch_string(after));
        }
        i = i + 1;
    }
    assert(texts(match_ids@).take(i as int) =~= texts(match_ids@));
    suffix
}

/// The arguments of the calls that ask for the details of `match_ids`: one
/// call for each ten ids, in order, and one for what is left.
pub fn match_details_suffixes(match_ids: Vec<String>) -> (suffixes: Vec<String>)
    ensures
        suffixes@.len() == group_count(match_ids@.len(), MATCH_DETAILS_BATCH as nat),
        forall|k: int|
            0 <= k < suffixes@.len() ==> (#[trigger] suffixes@[k])@ == spec_batch_string(
                texts(group(match_ids@, MATCH_DETAILS_BATCH as nat, k)),
            ),
{
    let batches = groups_of(match_ids, MATCH_DETAILS_BATCH);
    let mut suffixes: Vec<String> = Vec::new();
    for batch in it: batches
        invariant
            it.seq() == batches@,
            suffixes@.len() == it.index(),
            forall|k: int|
                0 <= k < suffixes@.len() ==> (#[trigger] suffixes@[k])@ == spec_batch_string(
                    texts(batches@[k]@),
                ),
    {
        suffixes.push(construct_batch_match_id_string(batch));
    }
    suffixes
}

/// The waves in which requests go out: consecutive groups of as many
/// requests as sessions may exist at one time, and one of what is left.
pub fn plan_waves(url_optionals: Vec<String>) -> (waves: Vec<Vec<String>>)
    ensures
        waves@.len() == group_count(
            url_optionals@.len(),
            LimitConstants::ConcurrentSessions.spec_val() as nat,
        ),
        forall|k: int|
            0 <= k < waves@.len() ==> (#[trigger] waves@[k])@ == group(
                url_optionals@,
                LimitConstants::ConcurrentSessions.spec_val() as nat,
                k,
            ),
{
    groups_of(url_optionals, LimitConstants::ConcurrentSessions.val() as usize)
}

} // verus!
