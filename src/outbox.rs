use vstd::prelude::*;

verus! {

/// The frames waiting to be written to one connection, oldest first.
pub struct Queue {
    pub conn: u64,
    pub pending: Vec<Vec<u8>>,
}

pub open spec fn queue_view(q: Queue) -> (u64, Seq<Seq<u8>>) {
    (q.conn, q.pending@.map_values(|m: Vec<u8>| m@))
}

/// What waits for connection `c`: nothing where it has no queue.
pub open spec fn pending_of(qs: Seq<(u64, Seq<Seq<u8>>)>, c: u64) -> Seq<Seq<u8>> {
    if exists|i: int| 0 <= i < qs.len() && qs[i].0 == c {
        qs[choose|i: int| 0 <= i < qs.len() && qs[i].0 == c].1
    } else {
        Seq::empty()
    }
}

/// Each connection's own send queue, so that a slow peer holds up no one
/// else: a broadcast only appends to the recipients' queues.
pub struct Outboxes {
    queues: Vec<Queue>,
}

impl View for Outboxes {
    type V = Seq<(u64, Seq<Seq<u8>>)>;

    closed spec fn view(&self) -> Seq<(u64, Seq<Seq<u8>>)> {
        self.queues@.map_values(|q: Queue| queue_view(q))
    }
}

pub open spec fn distinct_conns(qs: Seq<(u64, Seq<Seq<u8>>)>) -> bool {
    forall|i: int, j: int| 0 <= i < j < qs.len() ==> qs[i].0 != qs[j].0
}

/// No connection appears twice in `s`.
pub open spec fn no_repeats(s: Seq<u64>) -> bool {
    forall|i: int, j: int| 0 <= i < j < s.len() ==> s[i] != s[j]
}

proof fn lemma_pending_at(qs: Seq<(u64, Seq<Seq<u8>>)>, i: int)
    requires
        distinct_conns(qs),
        0 <= i < qs.len(),
    ensures
        pending_of(qs, qs[i].0) == qs[i].1,
{
    let k = choose|k: int| 0 <= k < qs.len() && qs[k].0 == qs[i].0;
    assert(k == i);
}

impl Outboxes {
    pub open spec fn wf(&self) -> bool {
        distinct_conns(self@)
    }

    /// The frames waiting for connection `c`.
    pub open spec fn pending(&self, c: u64) -> Seq<Seq<u8>> {
        pending_of(self@, c)
    }

    /// No queue holds anything.
    pub fn new() -> (r: Outboxes)
        ensures
            r.wf(),
            forall|c: u64| r.pending(c) == Seq::<Seq<u8>>::empty(),
    {
        let r = Outboxes { queues: Vec::new() };
        proof {
            assert(r@ =~= Seq::<(u64, Seq<Seq<u8>>)>::empty());
        }
        r
    }

    fn find(&self, c: u64) -> (r: Option<usize>)
        requires
            self.wf(),
        ensures
            match r {
                Some(i) => i < self@.len() && self@[i as int].0 == c,
                None => forall|i: int| 0 <= i < self@.len() ==> self@[i].0 != c,
            },
    {
        let mut i: usize = 0;
        while i < self.queues.len()
            invariant
                i <= self.queues@.len(),
                self@.len() == self.queues@.len(),
                forall|k: int| 0 <= k < i ==> self@[k].0 != c,
            decreases self.queues@.len() - i,
        {
            if self.queues[i].conn == c {
                return Some(i);
            }
            i = i + 1;
        }
        None
    }

    /// Appends `payload` to the queue of connection `c`.
    pub fn enqueue(&mut self, c: u64, payload: &Vec<u8>)
        requires
            old(self).wf(),
        ensures
            final(self).wf(),
            final(self).pending(c) == old(self).pending(c).push(payload@),
            forall|d: u64| d != c ==> final(self).pending(d) == old(self).pending(d),
    {
        let ghost before = self@;
        let copy = payload.clone();
        match self.find(c) {
            Some(i) => {
                let mut q = self.queues.remove(i);
                let ghost old_q = queue_view(q);
                q.pending.push(copy);
                proof {
                    assert(queue_view(q).1 =~= old_q.1.push(payload@));
                }
                self.queues.insert(i, q);
                proof {
                    assert(self@ =~= before.update(i as int, (c, before[i as int].1.push(payload@))));
                    lemma_pending_at(before, i as int);
                    lemma_pending_at(self@, i as int);
                    assert forall|d: u64| d != c implies self.pending(d) == pending_of(before, d) by {
                        if exists|k: int| 0 <= k < before.len() && before[k].0 == d {
                            let k = choose|k: int| 0 <= k < before.len() && before[k].0 == d;
                            lemma_pending_at(before, k);
                            lemma_pending_at(self@, k);
                        } else {
                            assert(!exists|k: int| 0 <= k < self@.len() && self@[k].0 == d) by {
                                if exists|k: int| 0 <= k < self@.len() && self@[k].0 == d {
                                    let k = choose|k: int| 0 <= k < self@.len() && self@[k].0 == d;
                                    assert(before[k].0 == d);
                                }
                            }
                        }
                    }
                }
            },
            None => {
                let mut pending: Vec<Vec<u8>> = Vec::new();
                pending.push(copy);
                let q = Queue { conn: c, pending };
                proof {
                    assert(queue_view(q).1 =~= seq![payload@]);
                }
                self.queues.push(q);
                proof {
                    assert(self@ =~= before.push((c, seq![payload@])));
                    assert(seq![payload@] =~= Seq::<Seq<u8>>::empty().push(payload@));
                    lemma_pending_at(self@, before.len() as int);
                    assert forall|d: u64| d != c implies self.pending(d) == pending_of(before, d) by {
                        if exists|k: int| 0 <= k < before.len() && before[k].0 == d {
                            let k = choose|k: int| 0 <= k < before.len() && before[k].0 == d;
                            lemma_pending_at(before, k);
                            lemma_pending_at(self@, k);
                        } else {
                            assert(!exists|k: int| 0 <= k < self@.len() && self@[k].0 == d) by {
                                if exists|k: int| 0 <= k < self@.len() && self@[k].0 == d {
                                    let k = choose|k: int| 0 <= k < self@.len() && self@[k].0 == d;
                                    assert(k < before.len());
                                    assert(before[k].0 == d);
                                }
                            }
                        }
                    }
                }
            },
        }
    }

    /// Appends `payload` to the queue of every connection of `conns`: the
    /// broadcast step. Other queues are left alone.
    pub fn enqueue_all(&mut self, conns: &Vec<u64>, payload: &Vec<u8>)
        requires
            old(self).wf(),
            no_repeats(conns@),
        ensures
            final(self).wf(),
            forall|d: u64|
                #![trigger final(self).pending(d)]
                final(self).pending(d) == if conns@.contains(d) {
                    old(self).pending(d).push(payload@)
                } else {
                    old(self).pending(d)
                },
    {
        let ghost start = *self;
        let mut k: usize = 0;
        while k < conns.len()
            invariant
                self.wf(),
                k <= conns@.len(),
                no_repeats(conns@),
                forall|d: u64|
                    #![trigger self.pending(d)]
                    self.pending(d) == if conns@.take(k as int).contains(d) {
                        start.pending(d).push(payload@)
                    } else {
                        start.pending(d)
                    },
            decreases conns@.len() - k,
        {
            let c = conns[k];
            proof {
                assert(!conns@.take(k as int).contains(c)) by {
                    if conns@.take(k as int).contains(c) {
                        let j = choose|j: int| 0 <= j < k && conns@.take(k as int)[j] == c;
                        assert(conns@[j] == conns@[k as int]);
                    }
                }
            }
            self.enqueue(c, payload);
            proof {
                let t0 = conns@.take(k as int);
                let t1 = conns@.take(k + 1);
                assert(t1 =~= t0.push(c));
                assert forall|d: u64| t1.contains(d) <==> (t0.contains(d) || d == c) by {
                    if t1.contains(d) {
                        let j = choose|j: int| 0 <= j < t1.len() && t1[j] == d;
                        if j < k {
                            assert(t0[j] == d);
                        }
                    }
                    if t0.contains(d) {
                        let j = choose|j: int| 0 <= j < t0.len() && t0[j] == d;
                        assert(t1[j] == d);
                    }
                    if d == c {
                        assert(t1[k as int] == d);
                    }
                }
            }
            k = k + 1;
        }
        proof {
            assert(conns@.take(k as int) =~= conns@);
        }
    }

    /// Hands out, oldest first, everything waiting for connection `c`, and
    /// empties its queue.
    pub fn take(&mut self, c: u64) -> (r: Vec<Vec<u8>>)
        requires
            old(self).wf(),
        ensures
            final(self).wf(),
            r@.map_values(|m: Vec<u8>| m@) == old(self).pending(c),
            final(self).pending(c) == Seq::<Seq<u8>>::empty(),
            forall|d: u64| d != c ==> final(self).pending(d) == old(self).pending(d),
    {
        let ghost before = self@;
        match self.find(c) {
            None => {
                let r: Vec<Vec<u8>> = Vec::new();
                proof {
                    assert(r@.map_values(|m: Vec<u8>| m@) =~= Seq::<Seq<u8>>::empty());
                }
                r
            },
            Some(i) => {
                let q = self.queues.remove(i);
                proof {
                    assert(self@ =~= before.remove(i as int));
                    lemma_pending_at(before, i as int);
                    assert(!exists|k: int| 0 <= k < self@.len() && self@[k].0 == c) by {
                        if exists|k: int| 0 <= k < self@.len() && self@[k].0 == c {
                            let k = choose|k: int| 0 <= k < self@.len() && self@[k].0 == c;
                            if k < i {
                                assert(before[k].0 == c);
                            } else {
                                assert(before[k + 1].0 == c);
                            }
                        }
                    }
                    assert forall|d: u64| d != c implies self.pending(d) == pending_of(before, d) by {
                        if exists|k: int| 0 <= k < before.len() && before[k].0 == d {
                            let k = choose|k: int| 0 <= k < before.len() && before[k].0 == d;
                            lemma_pending_at(before, k);
                            let k2 = if k < i { k } else { k - 1 };
                            assert(self@[k2] == before[k]);
                            lemma_pending_at(self@, k2);
                        } else {
                            assert(!exists|k: int| 0 <= k < self@.len() && self@[k].0 == d) by {
                                if exists|k: int| 0 <= k < self@.len() && self@[k].0 == d {
                                    let k = choose|k: int| 0 <= k < self@.len() && self@[k].0 == d;
                                    if k < i {
                                        assert(before[k].0 == d);
                                    } else {
                                        assert(before[k + 1].0 == d);
                                    }
                                }
                            }
                        }
                    }
                }
                q.pending
            },
        }
    }
}

} // verus!
