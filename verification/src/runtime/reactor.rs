use vstd::prelude::*;

verus! {

/// `libc::EPOLLIN`, the event bit for a readable descriptor, as an event mask.
/// The libc source defines it as `0x1` on Linux; nothing else is claimed.
#[verifier::external_body]
fn epoll_in_mask() -> (m: u32)
    ensures
        m == 1,
{
    libc::EPOLLIN as u32
}

/// `libc::EPOLLOUT`, the event bit for a writable descriptor, as an event mask.
/// The libc source defines it as `0x4` on Linux; nothing else is claimed.
#[verifier::external_body]
fn epoll_out_mask() -> (m: u32)
    ensures
        m == 4,
{
    libc::EPOLLOUT as u32
}

/// `libc::EPOLL_CTL_ADD`, the `epoll_ctl` operation that adds a descriptor.
/// The libc source defines it as `1` on Linux.
#[verifier::external_body]
fn epoll_ctl_add_code() -> (c: i32)
    ensures
        c == 1,
{
    libc::EPOLL_CTL_ADD
}

/// `libc::EPOLL_CTL_MOD`, the `epoll_ctl` operation that changes a descriptor's events.
/// The libc source defines it as `3` on Linux.
#[verifier::external_body]
fn epoll_ctl_mod_code() -> (c: i32)
    ensures
        c == 3,
{
    libc::EPOLL_CTL_MOD
}

/// `libc::EPOLL_CTL_DEL`, the `epoll_ctl` operation that removes a descriptor.
/// The libc source defines it as `2` on Linux.
#[verifier::external_body]
fn epoll_ctl_del_code() -> (c: i32)
    ensures
        c == 2,
{
    libc::EPOLL_CTL_DEL
}

/// The kind of readiness a task waits for.
#[derive(Debug, Clone, Copy, PartialEq, Eq, Hash, Structural)]
pub enum Interest {
    Readable,
    Writable,
}

/// The epoll event mask of an interest.
pub open spec fn interest_mask(i: Interest) -> u32 {
    match i {
        Interest::Readable => 1,
        Interest::Writable => 4,
    }
}

impl Interest {
    /// The epoll event mask to watch for this interest.
    pub fn to_epoll_events(self) -> (m: u32)
        ensures
            m == interest_mask(self),
    {
        match self {
            Interest::Readable => epoll_in_mask(),
            Interest::Writable => epoll_out_mask(),
        }
    }
}

/// The `epoll_ctl` operation to issue.
#[derive(Debug, Clone, Copy, PartialEq, Eq, Structural)]
pub enum EpollOp {
    Add,
    Modify,
    Remove,
}

/// The `epoll_ctl` code of an operation.
pub open spec fn epoll_op_code(op: EpollOp) -> i32 {
    match op {
        EpollOp::Add => 1,
        EpollOp::Modify => 3,
        EpollOp::Remove => 2,
    }
}

impl EpollOp {
    /// The `epoll_ctl` operation code.
    pub fn ctl_code(self) -> (c: i32)
        ensures
            c == epoll_op_code(self),
    {
        match self {
            EpollOp::Add => epoll_ctl_add_code(),
            EpollOp::Modify => epoll_ctl_mod_code(),
            EpollOp::Remove => epoll_ctl_del_code(),
        }
    }
}

/// The descriptor stored in an event's user data: its low 32 bits.
pub fn event_fd(data: u64) -> (fd: i32)
    ensures
        fd == data as i32,
{
    data as i32
}

/// `key` is the key of some entry.
pub open spec fn has_key<W>(es: Seq<((i32, Interest), W)>, key: (i32, Interest)) -> bool {
    exists|i: int| 0 <= i < es.len() && es[i].0 == key
}

/// Some interest in `fd` has a waker in `m`.
pub open spec fn watches_in<W>(m: Map<(i32, Interest), W>, fd: i32) -> bool {
    exists|k: (i32, Interest)| #[trigger] m.contains_key(k) && k.0 == fd
}

/// The wakers left after forgetting descriptor `fd`.
pub open spec fn without_fd<W>(m: Map<(i32, Interest), W>, fd: i32) -> Map<(i32, Interest), W> {
    m.restrict(m.dom().filter(|k: (i32, Interest)| k.0 != fd))
}

/// After a descriptor is deregistered nothing watches it, so registering it again adds it to
/// epoll afresh; the wakers of every other descriptor stay as they were.
pub proof fn lemma_deregister_forgets<W>(m: Map<(i32, Interest), W>, fd: i32)
    ensures
        !watches_in(without_fd(m, fd), fd),
        forall|k: (i32, Interest)|
            k.0 != fd ==> (#[trigger] without_fd(m, fd).contains_key(k) == m.contains_key(k)) && (
            m.contains_key(k) ==> without_fd(m, fd)[k] == m[k]),
{
}

/// A waker registered for a descriptor and interest is the one found there afterwards, and
/// the descriptor is watched.
pub proof fn lemma_register_then_get<W>(m: Map<(i32, Interest), W>, fd: i32, i: Interest, w: W)
    ensures
        m.insert((fd, i), w).contains_key((fd, i)),
        m.insert((fd, i), w)[(fd, i)] == w,
        watches_in(m.insert((fd, i), w), fd),
{
    assert(m.insert((fd, i), w).contains_key((fd, i)));
}

/// The registered keys that an event for descriptor `fd` with event mask `mask` wakes:
/// the readable waiter where the mask reports readability, then the writable waiter where
/// it reports writability, each only where one is registered.
pub open spec fn keys_to_wake<W>(m: Map<(i32, Interest), W>, fd: i32, mask: u32) -> Seq<
    (i32, Interest),
> {
    let r: Seq<(i32, Interest)> = if mask & 1 != 0 && m.contains_key((fd, Interest::Readable)) {
        seq![(fd, Interest::Readable)]
    } else {
        seq![]
    };
    if mask & 4 != 0 && m.contains_key((fd, Interest::Writable)) {
        r.push((fd, Interest::Writable))
    } else {
        r
    }
}

/// An event wakes exactly the registered waiters it reports, whatever other bits its mask
/// holds: the readable waiter of the descriptor exactly when the mask has `EPOLLIN` (bit 1)
/// and one is registered, the writable waiter exactly when the mask has `EPOLLOUT` (bit 4) and
/// one is registered; nothing of another descriptor, nothing twice, readable first.
pub proof fn lemma_event_wakes_reported_waiters<W>(m: Map<(i32, Interest), W>, fd: i32, mask: u32)
    ensures
        keys_to_wake(m, fd, mask).contains((fd, Interest::Readable)) <==> (mask & 1 != 0
            && m.contains_key((fd, Interest::Readable))),
        keys_to_wake(m, fd, mask).contains((fd, Interest::Writable)) <==> (mask & 4 != 0
            && m.contains_key((fd, Interest::Writable))),
        forall|i: int|
            0 <= i < keys_to_wake(m, fd, mask).len() ==> (#[trigger] keys_to_wake(m, fd, mask)[i]).0
                == fd && m.contains_key(keys_to_wake(m, fd, mask)[i]),
        keys_to_wake(m, fd, mask).no_duplicates(),
        keys_to_wake(m, fd, mask).len() == 2 ==> keys_to_wake(m, fd, mask)[0].1
            == Interest::Readable,
{
    let ks = keys_to_wake(m, fd, mask);
    if ks.contains((fd, Interest::Readable)) {
        let i = choose|i: int| 0 <= i < ks.len() && ks[i] == (fd, Interest::Readable);
    }
    if ks.contains((fd, Interest::Writable)) {
        let i = choose|i: int| 0 <= i < ks.len() && ks[i] == (fd, Interest::Writable);
    }
    if mask & 1 != 0 && m.contains_key((fd, Interest::Readable)) {
        assert(ks[0] == (fd, Interest::Readable));
    }
    if mask & 4 != 0 && m.contains_key((fd, Interest::Writable)) {
        assert(ks[ks.len() - 1] == (fd, Interest::Writable));
    }
}

/// The wakers waiting on descriptors, one per descriptor and interest.
pub struct Registry<W> {
    entries: Vec<((i32, Interest), W)>,
}

impl<W> Registry<W> {
    #[verifier::type_invariant]
    closed spec fn wf(self) -> bool {
        forall|i: int, j: int|
            0 <= i < self.entries@.len() && 0 <= j < self.entries@.len() && i != j
                ==> self.entries@[i].0 != self.entries@[j].0
    }

    /// The registered wakers by descriptor and interest.
    pub closed spec fn wakers(&self) -> Map<(i32, Interest), W> {
        Map::new(
            |k: (i32, Interest)| has_key(self.entries@, k),
            |k: (i32, Interest)|
                self.entries@[choose|i: int|
                    0 <= i < self.entries@.len() && self.entries@[i].0 == k].1,
        )
    }

    /// Some interest in `fd` is registered.
    pub open spec fn watches(&self, fd: i32) -> bool {
        watches_in(self.wakers(), fd)
    }

    /// An empty registry.
    pub fn new() -> (r: Registry<W>)
        ensures
            r.wakers() == Map::<(i32, Interest), W>::empty(),
    {
        let r = Registry { entries: Vec::new() };
        assert(r.wakers() =~= Map::<(i32, Interest), W>::empty());
        r
    }

    /// Whether some interest in `fd` is registered.
    fn watching(&self, fd: i32) -> (b: bool)
        ensures
            b == self.watches(fd),
    {
        let mut i: usize = 0;
        while i < self.entries.len()
            invariant
                i <= self.entries@.len(),
                forall|j: int| 0 <= j < i ==> self.entries@[j].0.0 != fd,
            decreases self.entries.len() - i,
        {
            if self.entries[i].0.0 == fd {
                let ghost k = self.entries@[i as int].0;
                assert(self.wakers().contains_key(k));
                return true;
            }
            i = i + 1;
        }
        assert forall|k: (i32, Interest)| #[trigger] self.wakers().contains_key(k) implies k.0
            != fd by {
            let j = choose|j: int| 0 <= j < self.entries@.len() && self.entries@[j].0 == k;
        }
        false
    }

    /// The position of the entry for `key`.
    fn position(&self, key: (i32, Interest)) -> (r: Option<usize>)
        ensures
            match r {
                Some(i) => i < self.entries@.len() && self.entries@[i as int].0 == key,
                None => !has_key(self.entries@, key),
            },
    {
        let mut i: usize = 0;
        while i < self.entries.len()
            invariant
                i <= self.entries@.len(),
                forall|j: int| 0 <= j < i ==> self.entries@[j].0 != key,
            decreases self.entries.len() - i,
        {
            if self.entries[i].0.0 == key.0 && self.entries[i].0.1 == key.1 {
                return Some(i);
            }
            i = i + 1;
        }
        None
    }

    /// Records `waker` for `fd` and `interest`, replacing the one there was, and says which
    /// `epoll_ctl` operation to issue: add where `fd` was not watched yet, modify where it was.
    pub fn register(&mut self, fd: i32, interest: Interest, waker: W) -> (op: EpollOp)
        ensures
            op == (if old(self).watches(fd) {
                EpollOp::Modify
            } else {
                EpollOp::Add
            }),
            final(self).wakers() == old(self).wakers().insert((fd, interest), waker),
    {
        proof {
            use_type_invariant(&*self);
        }
        let watched = self.watching(fd);
        let key = (fd, interest);
        let ghost old_es = self.entries@;
        let pos = self.position(key);
        let mut entries: Vec<((i32, Interest), W)> = Vec::new();
        std::mem::swap(&mut entries, &mut self.entries);
        match pos {
            Some(i) => {
                entries.set(i, (key, waker));
            },
            None => {
                entries.push((key, waker));
            },
        }
        let ghost new_es = entries@;
        proof {
            assert forall|i: int, j: int|
                0 <= i < new_es.len() && 0 <= j < new_es.len() && i != j implies new_es[i].0
                != new_es[j].0 by {
                if pos is None {
                    if i == old_es.len() {
                        assert(old_es[j].0 != key);
                    }
                    if j == old_es.len() {
                        assert(old_es[i].0 != key);
                    }
                }
            }
        }
        self.entries = entries;
        proof {
            let m = self.wakers();
            let want = old(self).wakers().insert(key, waker);
            assert forall|q: (i32, Interest)| #[trigger] m.contains_key(q) == want.contains_key(q) by {
                if has_key(old_es, q) {
                    let i = choose|i: int| 0 <= i < old_es.len() && old_es[i].0 == q;
                    assert(new_es[i].0 == q || q == key);
                }
                if q == key {
                    match pos {
                        Some(i) => assert(new_es[i as int].0 == key),
                        None => assert(new_es[old_es.len() as int].0 == key),
                    }
                }
                if has_key(new_es, q) && q != key {
                    let i = choose|i: int| 0 <= i < new_es.len() && new_es[i].0 == q;
                    assert(old_es[i].0 == q);
                }
            }
            assert forall|q: (i32, Interest)| #[trigger] m.contains_key(q) implies m[q]
                == want[q] by {
                let i = choose|i: int| 0 <= i < new_es.len() && new_es[i].0 == q;
                if q != key {
                    assert(old_es[i].0 == q);
                    let k = choose|k: int| 0 <= k < old_es.len() && old_es[k].0 == q;
                    assert(k == i);
                } else {
                    match pos {
                        Some(p) => assert(i == p),
                        None => assert(i == old_es.len()),
                    }
                }
            }
            assert(m =~= want);
        }
        if watched {
            EpollOp::Modify
        } else {
            EpollOp::Add
        }
    }

    /// Forgets every waker for `fd`; the descriptor is then removed from epoll.
    pub fn deregister(&mut self, fd: i32) -> (op: EpollOp)
        ensures
            op == EpollOp::Remove,
            final(self).wakers() == without_fd(old(self).wakers(), fd),
    {
        proof {
            use_type_invariant(&*self);
        }
        let ghost old_es = self.entries@;
        let mut entries: Vec<((i32, Interest), W)> = Vec::new();
        std::mem::swap(&mut entries, &mut self.entries);
        let mut kept: Vec<((i32, Interest), W)> = Vec::new();
        let ghost mut from: Seq<int> = Seq::empty();
        let mut i: usize = 0;
        let n = entries.len();
        let mut rest = entries;
        assert(rest@ =~= old_es.skip(0));
        while i < n
            invariant
                n == old_es.len(),
                i <= n,
                rest@ == old_es.skip(i as int),
                kept@.len() == from.len(),
                forall|j: int| 0 <= j < from.len() ==> 0 <= #[trigger] from[j] < i && kept@[j]
                    == old_es[from[j]] && old_es[from[j]].0.0 != fd,
                forall|j: int, l: int| 0 <= j < l < from.len() ==> from[j] < from[l],
                forall|k: int| 0 <= k < i && old_es[k].0.0 != fd ==> exists|j: int|
                    0 <= j < from.len() && #[trigger] from[j] == k,
            decreases n - i,
        {
            let ghost old_from = from;
            let e = rest.remove(0);
            assert(rest@ =~= old_es.skip(i + 1));
            if e.0.0 != fd {
                kept.push(e);
                proof {
                    from = from.push(i as int);
                }
            }
            proof {
                assert forall|k: int| 0 <= k < i + 1 && old_es[k].0.0 != fd implies exists|j: int|
                    0 <= j < from.len() && #[trigger] from[j] == k by {
                    if k == i {
                        assert(from[from.len() - 1] == k);
                    } else {
                        let j = choose|j: int| 0 <= j < old_from.len() && #[trigger] old_from[j] == k;
                        assert(from[j] == k);
                    }
                }
            }
            i = i + 1;
        }
        let ghost new_es = kept@;
        proof {
            assert forall|a: int, b: int|
                0 <= a < new_es.len() && 0 <= b < new_es.len() && a != b implies new_es[a].0
                != new_es[b].0 by {
                if a < b {
                    assert(from[a] < from[b]);
                } else {
                    assert(from[b] < from[a]);
                }
            }
        }
        self.entries = kept;
        proof {
            let m = self.wakers();
            let om = old(self).wakers();
            let want = without_fd(om, fd);
            assert forall|q: (i32, Interest)| #[trigger] m.contains_key(q) == want.contains_key(q) by {
                if has_key(new_es, q) {
                    let j = choose|j: int| 0 <= j < new_es.len() && new_es[j].0 == q;
                    assert(old_es[from[j]].0 == q);
                }
                if has_key(old_es, q) && q.0 != fd {
                    let k = choose|k: int| 0 <= k < old_es.len() && old_es[k].0 == q;
                    let j = choose|j: int| 0 <= j < from.len() && #[trigger] from[j] == k;
                    assert(new_es[j].0 == q);
                }
            }
            assert forall|q: (i32, Interest)| #[trigger] m.contains_key(q) implies m[q]
                == want[q] by {
                let j = choose|j: int| 0 <= j < new_es.len() && new_es[j].0 == q;
                let k = from[j];
                assert(old_es[k].0 == q);
                let k2 = choose|k2: int| 0 <= k2 < old_es.len() && old_es[k2].0 == q;
                assert(k2 == k);
            }
            assert(m =~= want);
        }
        EpollOp::Remove
    }

    /// The wakers that an epoll event wakes, given the event's user data (the descriptor) and
    /// its event mask: exactly the registered wakers for the interests the mask reports,
    /// readable first. The registry is left as it is.
    pub fn wakers_for_event(&self, data: u64, mask: u32) -> (r: Vec<&W>)
        ensures
            r@.len() == keys_to_wake(self.wakers(), data as i32, mask).len(),
            forall|i: int|
                0 <= i < r@.len() ==> *r@[i] == self.wakers()[#[trigger] keys_to_wake(
                    self.wakers(),
                    data as i32,
                    mask,
                )[i]],
    {
        let fd = event_fd(data);
        let ghost keys = keys_to_wake(self.wakers(), fd, mask);
        let mut r: Vec<&W> = Vec::new();
        if mask & Interest::Readable.to_epoll_events() != 0 {
            match self.get(fd, Interest::Readable) {
                Some(w) => r.push(w),
                None => {},
            }
        }
        let ghost first = r@;
        if mask & Interest::Writable.to_epoll_events() != 0 {
            match self.get(fd, Interest::Writable) {
                Some(w) => r.push(w),
                None => {},
            }
        }
        proof {
            assert(r@.len() == keys.len());
            assert forall|i: int| 0 <= i < r@.len() implies *r@[i] == self.wakers()[#[trigger] keys[i]] by {
                if i == 0 && first.len() == 1 {
                    assert(r@[0] == first[0]);
                }
            }
        }
        r
    }

    /// The waker registered for `fd` and `interest`.
    pub fn get(&self, fd: i32, interest: Interest) -> (r: Option<&W>)
        ensures
            match r {
                Some(w) => self.wakers().contains_key((fd, interest)) && *w == self.wakers()[(
                    fd,
                    interest,
                )],
                None => !self.wakers().contains_key((fd, interest)),
            },
    {
        proof {
            use_type_invariant(self);
        }
        match self.position((fd, interest)) {
            Some(i) => {
                proof {
                    let k = (fd, interest);
                    let c = choose|c: int|
                        0 <= c < self.entries@.len() && self.entries@[c].0 == k;
                    assert(c == i);
                }
                Some(&self.entries[i].1)
            },
            None => None,
        }
    }
}

} // verus!
