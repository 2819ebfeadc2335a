use vstd::prelude::*;

verus! {

/// Where a `write_all` stands after one more write call reported `n` bytes written:
/// the bytes written so far, and whether all `total` bytes are out.
/// A write call writes at most the bytes it was given, so `n` is at most what was left.
pub fn after_write(written: usize, n: usize, total: usize) -> (r: (usize, bool))
    requires
        written <= total,
        n <= total - written,
    ensures
        r.0 == written + n,
        r.1 == (written + n == total),
{
    let now = written + n;
    (now, now == total)
}

/// The bytes written so far after write calls that reported `ns[0]`, `ns[1]`, ... in order.
pub open spec fn total_written(ns: Seq<nat>) -> nat
    decreases ns.len(),
{
    if ns.len() == 0 {
        0
    } else {
        total_written(ns.drop_last()) + ns.last()
    }
}

/// Each write call reported at most the bytes it was given: the rest of `len` bytes.
pub open spec fn writes_fit(ns: Seq<nat>, len: nat) -> bool {
    forall|k: int| 0 <= k < ns.len() ==> total_written(ns.take(k)) + #[trigger] ns[k] <= len
}

/// The bytes the peer got from a `write_all` of `data` whose write calls reported `ns`:
/// each call is given the rest of `data` from what was written so far, and sends the first
/// bytes of it that it reports.
pub open spec fn bytes_sent(data: Seq<u8>, ns: Seq<nat>) -> Seq<u8>
    decreases ns.len(),
{
    if ns.len() == 0 {
        Seq::empty()
    } else {
        let w = total_written(ns.drop_last());
        bytes_sent(data, ns.drop_last()) + data.subrange(w as int, (w + ns.last()) as int)
    }
}

/// A `write_all` sends `data` in order and nothing past it: whatever the write calls
/// reported, the bytes sent so far are the first bytes of `data`, never more than `data`;
/// and once `after_write` says it is done, the bytes sent are exactly `data`.
pub proof fn lemma_write_all_sends_data(data: Seq<u8>, ns: Seq<nat>)
    requires
        writes_fit(ns, data.len()),
    ensures
        total_written(ns) <= data.len(),
        bytes_sent(data, ns) == data.take(total_written(ns) as int),
        total_written(ns) == data.len() ==> bytes_sent(data, ns) == data,
    decreases ns.len(),
{
    if ns.len() > 0 {
        let pre = ns.drop_last();
        assert forall|k: int| 0 <= k < pre.len() implies total_written(pre.take(k)) + #[trigger] pre[k]
            <= data.len() by {
            assert(pre.take(k) =~= ns.take(k));
            assert(pre[k] == ns[k]);
        }
        lemma_write_all_sends_data(data, pre);
        let k = ns.len() - 1;
        assert(ns.take(k) =~= pre);
        assert(ns[k] == ns.last());
        let w = total_written(pre);
        assert(data.take(w as int) + data.subrange(w as int, (w + ns.last()) as int) =~= data.take(
            (w + ns.last()) as int,
        ));
    } else {
        assert(data.take(0) =~= Seq::<u8>::empty());
    }
    if total_written(ns) == data.len() {
        assert(data.take(data.len() as int) =~= data);
    }
}

} // verus!
