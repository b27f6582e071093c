//! Small helpers of the protocols: byte arrays, party indexes, partitions and subsets, and
//! the collection of blame for faulty messages.

use vstd::prelude::*;

verus! {

/// `a` with each of its first bytes combined with the byte of `b` at the same place by
/// exclusive or; the bytes beyond the shorter of the two are those of `a`.
pub fn xor_array(a: Vec<u8>, b: &[u8]) -> (r: Vec<u8>)
    ensures
        r@.len() == a@.len(),
        forall|k: int| 0 <= k < a@.len() ==> #[trigger] r@[k] == if k < b@.len() {
            a@[k] ^ b@[k]
        } else {
            a@[k]
        },
{
    let mut r = a;
    let ghost a0 = r@;
    let m = if r.len() < b.len() { r.len() } else { b.len() };
    let mut k: usize = 0;
    while k < m
        invariant
            m <= b@.len(),
            m <= r@.len(),
            m == r@.len() || m == b@.len(),
            k <= m,
            a0 == a@,
            r@.len() == a0.len(),
            k <= r@.len(),
            forall|j: int| 0 <= j < k ==> #[trigger] r@[j] == a0[j] ^ b@[j],
            forall|j: int| k <= j < r@.len() ==> #[trigger] r@[j] == a0[j],
        decreases r@.len() - k,
    {
        let v = r[k] ^ b[k];
        r.set(k, v);
        k = k + 1;
    }
    proof {
        assert forall|j: int| 0 <= j < a@.len() implies #[trigger] r@[j] == if j < b@.len() {
            a@[j] ^ b@[j]
        } else {
            a@[j]
        } by {
            if j >= k {
                assert(k == m);
            }
        }
    }
    r
}

/// The indexes `0..n` of the parties other than `i`, in increasing order.
pub fn iter_peers(i: u16, n: u16) -> (r: Vec<u16>)
    ensures
        r@ == Seq::new(n as nat, |x: int| x as u16).filter(|x: u16| x != i),
{
    let ghost all = Seq::new(n as nat, |x: int| x as u16);
    let mut r: Vec<u16> = Vec::new();
    let mut x: u16 = 0;
    while x < n
        invariant
            x <= n,
            all == Seq::new(n as nat, |y: int| y as u16),
            r@ == all.take(x as int).filter(|y: u16| y != i),
        decreases n - x,
    {
        proof {
            assert(all.take(x + 1) =~= all.take(x as int).push(x));
            all.take(x as int).lemma_filter_push(x, |y: u16| y != i);
        }
        if x != i {
            r.push(x);
        }
        x = x + 1;
    }
    proof {
        assert(all.take(n as int) =~= all);
    }
    r
}

/// The items without the one at index `n` (all of them when there is no such index).
pub fn but_nth<T>(n: u16, items: Vec<T>) -> (r: Vec<T>)
    ensures
        r@ == if (n as int) < items@.len() {
            items@.remove(n as int)
        } else {
            items@
        },
{
    let mut r = items;
    if (n as usize) < r.len() {
        r.remove(n as usize);
    }
    r
}

/// The values of the `Ok` items of `s`, in order.
pub open spec fn oks_of<A, B>(s: Seq<Result<A, B>>) -> Seq<A>
    decreases s.len(),
{
    if s.len() == 0 {
        Seq::empty()
    } else {
        let rest = oks_of(s.drop_last());
        match s.last() {
            Ok(a) => rest.push(a),
            Err(_) => rest,
        }
    }
}

/// The errors of the `Err` items of `s`, in order.
pub open spec fn errs_of<A, B>(s: Seq<Result<A, B>>) -> Seq<B>
    decreases s.len(),
{
    if s.len() == 0 {
        Seq::empty()
    } else {
        let rest = errs_of(s.drop_last());
        match s.last() {
            Ok(_) => rest,
            Err(b) => rest.push(b),
        }
    }
}

/// Partitions results into the vector of values and the vector of errors.
pub fn partition_results<A, B>(items: Vec<Result<A, B>>) -> (r: (Vec<A>, Vec<B>))
    ensures
        r.0@ == oks_of(items@),
        r.1@ == errs_of(items@),
{
    let mut oks: Vec<A> = Vec::new();
    let mut errs: Vec<B> = Vec::new();
    let mut rest = items;
    let ghost all = rest@;
    let mut rev: Vec<Result<A, B>> = Vec::new();
    // the items are taken from the back; reverse them first so that they come in order
    while rest.len() > 0
        invariant
            rev@.len() + rest@.len() == all.len(),
            rest@ == all.take(rest@.len() as int),
            forall|k: int| 0 <= k < rev@.len() ==> #[trigger] rev@[k] == all[all.len() - 1 - k],
        decreases rest@.len(),
    {
        let item = rest.pop().unwrap();
        rev.push(item);
        proof {
            assert(rest@ =~= all.take(rest@.len() as int));
        }
    }
    while rev.len() > 0
        invariant
            rev@.len() <= all.len(),
            forall|k: int| 0 <= k < rev@.len() ==> #[trigger] rev@[k] == all[all.len() - 1 - k],
            oks@ == oks_of(all.take(all.len() - rev@.len())),
            errs@ == errs_of(all.take(all.len() - rev@.len())),
        decreases rev@.len(),
    {
        let ghost done = all.len() - rev@.len();
        let item = rev.pop().unwrap();
        proof {
            assert(item == all[done]);
            assert(all.take(done + 1).drop_last() =~= all.take(done));
            assert(all.take(done + 1).last() == all[done]);
        }
        match item {
            Ok(a) => oks.push(a),
            Err(b) => errs.push(b),
        }
    }
    proof {
        assert(all.take(all.len() as int) =~= all);
    }
    (oks, errs)
}

/// `[list[indexes[0]], list[indexes[1]], ...]`, or `None` when an index is out of range of
/// `list`.
pub fn subset<T: Clone>(indexes: &[u16], list: &[T]) -> (r: Option<Vec<T>>)
    ensures
        r is Some <==> forall|k: int| 0 <= k < indexes@.len() ==> (#[trigger] indexes@[k] as int)
            < list@.len(),
        r matches Some(v) ==> v@.len() == indexes@.len() && forall|k: int|
            0 <= k < indexes@.len() ==> cloned(list@[indexes@[k] as int], #[trigger] v@[k]),
{
    let mut v: Vec<T> = Vec::new();
    let mut k: usize = 0;
    while k < indexes.len()
        invariant
            k <= indexes@.len(),
            v@.len() == k,
            forall|j: int| 0 <= j < k ==> (#[trigger] indexes@[j] as int) < list@.len(),
            forall|j: int| 0 <= j < k ==> cloned(list@[indexes@[j] as int], #[trigger] v@[j]),
        decreases indexes@.len() - k,
    {
        let idx = indexes[k] as usize;
        if idx >= list.len() {
            return None;
        }
        v.push(list[idx].clone());
        k = k + 1;
    }
    Some(v)
}

/// The party to blame for a fault, with the message holding the data and the one holding
/// its proof.
pub struct AbortBlame {
    /// Party which can be blamed for breaking the protocol
    pub faulty_party: u16,
    /// Message with initial data
    pub data_message: u64,
    /// Message with some kind of proof related to the data
    pub proof_message: u64,
}

impl AbortBlame {
    /// Blames `faulty_party` for the two messages.
    pub fn new(faulty_party: u16, data_message: u64, proof_message: u64) -> (r: AbortBlame)
        ensures
            r.faulty_party == faulty_party,
            r.data_message == data_message,
            r.proof_message == proof_message,
    {
        AbortBlame { faulty_party, data_message, proof_message }
    }
}

/// `a` with each of its first bytes combined by exclusive or with the byte of `b` at the
/// same place, as [`xor_array`] computes it.
pub open spec fn xor_bytes(a: Seq<u8>, b: Seq<u8>) -> Seq<u8> {
    Seq::new(a.len(), |k: int| if k < b.len() { a[k] ^ b[k] } else { a[k] })
}

/// `start` combined by [`xor_bytes`] with the first `k` of `items`, in order.
pub open spec fn xor_fold(start: Seq<u8>, items: Seq<Vec<u8>>, k: int) -> Seq<u8>
    decreases k,
{
    if k <= 0 {
        start
    } else {
        xor_bytes(xor_fold(start, items, k - 1), items[k - 1]@)
    }
}

/// `start` combined by exclusive or with each of `items` in turn, as when the random
/// identifiers of all parties are combined.
pub fn xor_all(start: Vec<u8>, items: &[Vec<u8>]) -> (r: Vec<u8>)
    ensures
        r@ == xor_fold(start@, items@, items@.len() as int),
{
    let mut acc = start;
    let ghost s0 = acc@;
    let mut k: usize = 0;
    while k < items.len()
        invariant
            k <= items@.len(),
            acc@ == xor_fold(s0, items@, k as int),
        decreases items.len() - k,
    {
        acc = xor_array(acc, &items[k]);
        k = k + 1;
        proof {
            assert(acc@ =~= xor_bytes(xor_fold(s0, items@, k - 1), items@[k - 1]@));
        }
    }
    acc
}

/// The blame for the messages before `k` that `faulty` marks: party and message ids of the
/// data message, message id of the proof message, in order.
pub open spec fn blame_list<D, P>(
    data_messages: Seq<(u16, u64, D)>,
    proof_messages: Seq<(u16, u64, P)>,
    faulty: Seq<bool>,
    k: int,
) -> Seq<AbortBlame>
    decreases k,
{
    if k <= 0 {
        Seq::empty()
    } else {
        let b = blame_list(data_messages, proof_messages, faulty, k - 1);
        if faulty[k - 1] {
            b.push(
                AbortBlame {
                    faulty_party: data_messages[k - 1].0,
                    data_message: data_messages[k - 1].1,
                    proof_message: proof_messages[k - 1].1,
                },
            )
        } else {
            b
        }
    }
}

/// The number of message pairs: the length of the shorter list.
pub open spec fn pair_count(a: nat, b: nat) -> nat {
    if a < b {
        a
    } else {
        b
    }
}

/// Blames every sender whose pair of messages `filter` finds faulty (`filter` returns
/// `true`). The two lists hold `(party, message id, message)` in the same order of parties,
/// and are taken pair by pair up to the shorter one.
pub fn collect_blame<D, P, F: Fn(u16, &D, &P) -> bool>(
    data_messages: &[(u16, u64, D)],
    proof_messages: &[(u16, u64, P)],
    filter: F,
) -> (r: Vec<AbortBlame>)
    requires
        forall|k: int|
            0 <= k < pair_count(data_messages@.len(), proof_messages@.len()) ==> call_requires(
                filter,
                (data_messages@[k].0, &data_messages@[k].2, &proof_messages@[k].2),
            ),
    ensures
        exists|faulty: Seq<bool>|
            {
                &&& faulty.len() == pair_count(data_messages@.len(), proof_messages@.len())
                &&& forall|k: int|
                    0 <= k < faulty.len() ==> call_ensures(
                        filter,
                        (data_messages@[k].0, &data_messages@[k].2, &proof_messages@[k].2),
                        #[trigger] faulty[k],
                    )
                &&& r@ == blame_list(data_messages@, proof_messages@, faulty, faulty.len() as int)
            },
{
    let m = if data_messages.len() < proof_messages.len() { data_messages.len() } else { proof_messages.len() };
    let mut r: Vec<AbortBlame> = Vec::new();
    let ghost mut faulty: Seq<bool> = Seq::empty();
    let mut k: usize = 0;
    while k < m
        invariant
            m == pair_count(data_messages@.len(), proof_messages@.len()),
            m <= data_messages@.len(),
            m <= proof_messages@.len(),
            forall|q: int| 0 <= q < m ==> call_requires(
                filter,
                (data_messages@[q].0, &data_messages@[q].2, &proof_messages@[q].2),
            ),
            k <= m,
            faulty.len() == k,
            forall|q: int|
                0 <= q < k ==> call_ensures(
                    filter,
                    (data_messages@[q].0, &data_messages@[q].2, &proof_messages@[q].2),
                    #[trigger] faulty[q],
                ),
            r@ == blame_list(data_messages@, proof_messages@, faulty, k as int),
        decreases m - k,
    {
        let d = &data_messages[k];
        let pm = &proof_messages[k];
        let bad = filter(d.0, &d.2, &pm.2);
        if bad {
            r.push(AbortBlame::new(d.0, d.1, pm.1));
        }
        proof {
            let f0 = faulty;
            faulty = faulty.push(bad);
            assert forall|q: int| 0 <= q < k + 1 implies call_ensures(
                filter,
                (data_messages@[q].0, &data_messages@[q].2, &proof_messages@[q].2),
                #[trigger] faulty[q],
            ) by {
                if q < k {
                    assert(faulty[q] == f0[q]);
                }
            }
            assert(blame_list(data_messages@, proof_messages@, faulty, k as int) == blame_list(
                data_messages@,
                proof_messages@,
                f0,
                k as int,
            )) by {
                lemma_blame_list_prefix(data_messages@, proof_messages@, f0, faulty, k as int);
            }
        }
        k = k + 1;
    }
    r
}

/// The blame before `k` depends only on the marks before `k`.
proof fn lemma_blame_list_prefix<D, P>(
    data_messages: Seq<(u16, u64, D)>,
    proof_messages: Seq<(u16, u64, P)>,
    f1: Seq<bool>,
    f2: Seq<bool>,
    k: int,
)
    requires
        forall|q: int| 0 <= q < k ==> f1[q] == f2[q],
    ensures
        blame_list(data_messages, proof_messages, f1, k) == blame_list(data_messages, proof_messages, f2, k),
    decreases k,
{
    if k > 0 {
        lemma_blame_list_prefix(data_messages, proof_messages, f1, f2, k - 1);
    }
}

/// Blames every sender whose message `filter` finds faulty; the data and proof message are
/// both that message.
pub fn collect_simple_blame<D, F: Fn(&D) -> bool>(messages: &[(u16, u64, D)], filter: F) -> (r: Vec<
    AbortBlame,
>)
    requires
        forall|k: int| 0 <= k < messages@.len() ==> call_requires(filter, (&messages@[k].2,)),
    ensures
        exists|faulty: Seq<bool>|
            {
                &&& faulty.len() == messages@.len()
                &&& forall|k: int|
                    0 <= k < faulty.len() ==> call_ensures(filter, (&messages@[k].2,), #[trigger] faulty[k])
                &&& r@ == blame_list(messages@, messages@, faulty, faulty.len() as int)
            },
{
    let mut r: Vec<AbortBlame> = Vec::new();
    let ghost mut faulty: Seq<bool> = Seq::empty();
    let mut k: usize = 0;
    while k < messages.len()
        invariant
            forall|q: int| 0 <= q < messages@.len() ==> call_requires(filter, (&messages@[q].2,)),
            k <= messages@.len(),
            faulty.len() == k,
            forall|q: int| 0 <= q < k ==> call_ensures(filter, (&messages@[q].2,), #[trigger] faulty[q]),
            r@ == blame_list(messages@, messages@, faulty, k as int),
        decreases messages.len() - k,
    {
        let msg = &messages[k];
        let bad = filter(&msg.2);
        if bad {
            r.push(AbortBlame::new(msg.0, msg.1, msg.1));
        }
        proof {
            let f0 = faulty;
            faulty = faulty.push(bad);
            assert forall|q: int| 0 <= q < k + 1 implies call_ensures(filter, (&messages@[q].2,), #[trigger] faulty[q]) by {
                if q < k {
                    assert(faulty[q] == f0[q]);
                }
            }
            lemma_blame_list_prefix(messages@, messages@, f0, faulty, k as int);
        }
        k = k + 1;
    }
    r
}

/// As [`collect_blame`], but `filter` can fail, and the first failure is returned.
pub fn try_collect_blame<Er, D, P, F: Fn(u16, &D, &P) -> Result<bool, Er>>(
    data_messages: &[(u16, u64, D)],
    proof_messages: &[(u16, u64, P)],
    filter: F,
) -> (r: Result<Vec<AbortBlame>, Er>)
    requires
        forall|k: int|
            0 <= k < pair_count(data_messages@.len(), proof_messages@.len()) ==> call_requires(
                filter,
                (data_messages@[k].0, &data_messages@[k].2, &proof_messages@[k].2),
            ),
    ensures
        r matches Ok(v) ==> exists|faulty: Seq<bool>|
            {
                &&& faulty.len() == pair_count(data_messages@.len(), proof_messages@.len())
                &&& forall|k: int|
                    0 <= k < faulty.len() ==> call_ensures(
                        filter,
                        (data_messages@[k].0, &data_messages@[k].2, &proof_messages@[k].2),
                        Ok::<bool, Er>(#[trigger] faulty[k]),
                    )
                &&& v@ == blame_list(data_messages@, proof_messages@, faulty, faulty.len() as int)
            },
        r matches Err(e) ==> exists|k: int|
            0 <= k < pair_count(data_messages@.len(), proof_messages@.len()) && call_ensures(
                filter,
                (data_messages@[k].0, &data_messages@[k].2, &proof_messages@[k].2),
                Err::<bool, Er>(e),
            ),
{
    let m = if data_messages.len() < proof_messages.len() { data_messages.len() } else { proof_messages.len() };
    let mut r: Vec<AbortBlame> = Vec::new();
    let ghost mut faulty: Seq<bool> = Seq::empty();
    let mut k: usize = 0;
    while k < m
        invariant
            m == pair_count(data_messages@.len(), proof_messages@.len()),
            m <= data_messages@.len(),
            m <= proof_messages@.len(),
            forall|q: int| 0 <= q < m ==> call_requires(
                filter,
                (data_messages@[q].0, &data_messages@[q].2, &proof_messages@[q].2),
            ),
            k <= m,
            faulty.len() == k,
            forall|q: int|
                0 <= q < k ==> call_ensures(
                    filter,
                    (data_messages@[q].0, &data_messages@[q].2, &proof_messages@[q].2),
                    Ok::<bool, Er>(#[trigger] faulty[q]),
                ),
            r@ == blame_list(data_messages@, proof_messages@, faulty, k as int),
        decreases m - k,
    {
        let d = &data_messages[k];
        let pm = &proof_messages[k];
        let res = filter(d.0, &d.2, &pm.2);
        let bad = match res {
            Ok(b) => b,
            Err(e) => {
                return Err(e);
            },
        };
        if bad {
            r.push(AbortBlame::new(d.0, d.1, pm.1));
        }
        proof {
            let f0 = faulty;
            faulty = faulty.push(bad);
            assert forall|q: int| 0 <= q < k + 1 implies call_ensures(
                filter,
                (data_messages@[q].0, &data_messages@[q].2, &proof_messages@[q].2),
                Ok::<bool, Er>(#[trigger] faulty[q]),
            ) by {
                if q < k {
                    assert(faulty[q] == f0[q]);
                }
            }
            lemma_blame_list_prefix(data_messages@, proof_messages@, f0, faulty, k as int);
        }
        k = k + 1;
    }
    Ok(r)
}

/// Whether every party sent the same reliability-check hash as this party's `h_i`.
pub fn check_message_round_reliability_check(hashes: &[(u16, u64, Vec<u8>)], h_i: &[u8]) -> (r: bool)
    ensures
        r == forall|k: int| 0 <= k < hashes@.len() ==> #[trigger] hashes@[k].2@ == h_i@,
{
    let mut k: usize = 0;
    while k < hashes.len()
        invariant
            k <= hashes@.len(),
            forall|q: int| 0 <= q < k ==> #[trigger] hashes@[q].2@ == h_i@,
        decreases hashes.len() - k,
    {
        if !same_bytes(&hashes[k].2, h_i) {
            return false;
        }
        k = k + 1;
    }
    true
}

/// Whether the two byte strings are equal.
fn same_bytes(a: &[u8], b: &[u8]) -> (r: bool)
    ensures
        r == (a@ == b@),
{
    if a.len() != b.len() {
        return false;
    }
    let mut k: usize = 0;
    while k < a.len()
        invariant
            a@.len() == b@.len(),
            k <= a@.len(),
            forall|q: int| 0 <= q < k ==> a@[q] == b@[q],
        decreases a.len() - k,
    {
        if a[k] != b[k] {
            return false;
        }
        k = k + 1;
    }
    proof {
        assert(a@ =~= b@);
    }
    true
}

} // verus!
