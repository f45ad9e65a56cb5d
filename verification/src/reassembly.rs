//! Reassembly of UDP datagrams that arrive as fragments across several
//! QUIC carriers. One buffer exists per (association, packet) pair; a
//! fragment whose declared total disagrees with the buffer's is a protocol
//! error; an out-of-range fragment index is dropped and the connection kept;
//! the packet is emitted, in fragment-index order, exactly when the last
//! missing fragment arrives; stale buffers are swept by a periodic garbage
//! collection.

use std::collections::HashMap;

use vstd::prelude::*;

use crate::address::{Address, AddressView};
use crate::errors::Error;

verus! {

broadcast use vstd::std_specs::hash::group_hash_axioms, vstd::seq_lib::group_seq_properties;

/// One partially received UDP datagram: the declared fragment count, the
/// fragments received so far by index, the target address carried by
/// fragment 0, and the arrival time of the first fragment.
pub struct FragmentBuffer {
    pub frag_total: u8,
    pub frags: Vec<Option<Vec<u8>>>,
    pub addr: Address,
    pub created_at: u64,
}

/// Mathematical model of a fragment buffer.
#[verifier::ext_equal]
pub struct FragmentBufferView {
    pub frag_total: u8,
    pub frags: Seq<Option<Seq<u8>>>,
    pub addr: AddressView,
    pub created_at: u64,
}

/// The models of a sequence of optional fragment payloads.
pub open spec fn frags_view(v: Seq<Option<Vec<u8>>>) -> Seq<Option<Seq<u8>>> {
    Seq::new(
        v.len(),
        |i: int|
            match v[i] {
                Some(b) => Some(b@),
                None => None,
            },
    )
}

impl View for FragmentBuffer {
    type V = FragmentBufferView;

    open spec fn view(&self) -> FragmentBufferView {
        FragmentBufferView {
            frag_total: self.frag_total,
            frags: frags_view(self.frags@),
            addr: self.addr@,
            created_at: self.created_at,
        }
    }
}

/// A well-formed buffer holds one slot per declared fragment.
pub open spec fn wf_buffer(b: FragmentBufferView) -> bool {
    &&& b.frags.len() == b.frag_total as int
    &&& b.frag_total >= 1
}

/// All fragments of the buffer are present.
pub open spec fn buffer_complete(b: FragmentBufferView) -> bool {
    forall|i: int| 0 <= i < b.frags.len() ==> b.frags[i] is Some
}

/// The payload of a complete buffer: fragment bytes joined in index order.
/// An absent fragment contributes nothing; the function is only of interest
/// on complete buffers.
pub open spec fn assembled(frags: Seq<Option<Seq<u8>>>) -> Seq<u8>
    decreases frags.len(),
{
    if frags.len() == 0 {
        Seq::empty()
    } else {
        assembled(frags.drop_last()) + match frags.last() {
            Some(b) => b,
            None => Seq::empty(),
        }
    }
}

/// The buffer created when the first fragment of a packet arrives.
pub open spec fn fresh_buffer(frag_total: u8, now: u64) -> FragmentBufferView {
    FragmentBufferView {
        frag_total,
        frags: Seq::new(frag_total as nat, |i: int| None),
        addr: AddressView::Unspecified,
        created_at: now,
    }
}

/// A buffer after one fragment is stored: the slot is filled, and the
/// target address is taken from fragment 0.
pub open spec fn updated_buffer(
    b: FragmentBufferView,
    frag_id: u8,
    addr: AddressView,
    payload: Seq<u8>,
) -> FragmentBufferView {
    FragmentBufferView {
        frag_total: b.frag_total,
        frags: b.frags.update(frag_id as int, Some(payload)),
        addr: if frag_id == 0 {
            addr
        } else {
            b.addr
        },
        created_at: b.created_at,
    }
}

/// The buffer key of an association and packet id.
pub open spec fn frag_key(assoc_id: u16, pkt_id: u16) -> u32 {
    ((assoc_id as u32) << 16) | (pkt_id as u32)
}

/// Distinct (association, packet) pairs use distinct buffer keys.
pub proof fn lemma_frag_key_injective(a1: u16, p1: u16, a2: u16, p2: u16)
    ensures
        frag_key(a1, p1) == frag_key(a2, p2) ==> (a1 == a2 && p1 == p2),
{
    assert((((a1 as u32) << 16) | (p1 as u32)) == (((a2 as u32) << 16) | (p2 as u32)) ==> (a1 == a2
        && p1 == p2)) by (bit_vector);
}

/// A buffer is stale once it has outlived `gc_lifetime` at time `now`.
pub open spec fn buffer_expired(b: FragmentBufferView, now: u64, gc_lifetime: u64) -> bool {
    b.created_at + gc_lifetime < now
}

/// What one fragment does to the buffer map: the new map, the emitted
/// packet if the fragment completed one, and whether the fragment was a
/// protocol error.
pub struct StepResult {
    pub map: Map<u32, FragmentBufferView>,
    pub emit: Option<(Seq<u8>, AddressView, u16)>,
    pub malformed: bool,
}

/// The transition of the buffer map on one arriving fragment. An
/// out-of-range fragment index is dropped; a fragment total that disagrees
/// with the existing buffer is a protocol error; otherwise the fragment is
/// stored, and when it completes the packet, the packet is emitted and the
/// buffer dropped.
pub open spec fn insert_transition(
    m: Map<u32, FragmentBufferView>,
    assoc_id: u16,
    pkt_id: u16,
    frag_total: u8,
    frag_id: u8,
    addr: AddressView,
    payload: Seq<u8>,
    now: u64,
) -> StepResult {
    let k = frag_key(assoc_id, pkt_id);
    if frag_id >= frag_total {
        StepResult { map: m, emit: None, malformed: false }
    } else if m.contains_key(k) && m[k].frag_total != frag_total {
        StepResult { map: m, emit: None, malformed: true }
    } else {
        let base = if m.contains_key(k) {
            m[k]
        } else {
            fresh_buffer(frag_total, now)
        };
        let upd = updated_buffer(base, frag_id, addr, payload);
        if buffer_complete(upd) {
            StepResult {
                map: m.remove(k),
                emit: Some((assembled(upd.frags), upd.addr, assoc_id)),
                malformed: false,
            }
        } else {
            StepResult { map: m.insert(k, upd), emit: None, malformed: false }
        }
    }
}

/// The buffers of `m` that survive a sweep at time `now`: those not older
/// than `gc_lifetime`, unchanged.
pub open spec fn gc_result(
    m: Map<u32, FragmentBufferView>,
    now: u64,
    gc_lifetime: u64,
) -> Map<u32, FragmentBufferView> {
    Map::new(
        |k: u32| m.contains_key(k) && !buffer_expired(m[k], now, gc_lifetime),
        |k: u32| m[k],
    )
}

/// The buffers of `b0` whose keys are not yet swept.
spec fn gc_remaining(b0: Map<u32, FragmentBuffer>, seen: Seq<u32>) -> Map<u32, FragmentBuffer> {
    Map::new(|k: u32| b0.contains_key(k) && !seen.contains(k), |k: u32| b0[k])
}

/// The swept buffers of `b0` that were young enough to keep.
spec fn gc_survivors(
    b0: Map<u32, FragmentBuffer>,
    seen: Seq<u32>,
    now: u64,
    gc_lifetime: u64,
) -> Map<u32, FragmentBuffer> {
    Map::new(
        |k: u32| seen.contains(k) && b0.contains_key(k) && !buffer_expired(
            b0[k]@,
            now,
            gc_lifetime,
        ),
        |k: u32| b0[k],
    )
}

/// The per-connection reassembler: a buffer per (association, packet) key.
pub struct Reassembler {
    buffers: HashMap<u32, FragmentBuffer>,
    keys: Vec<u32>,
}

impl View for Reassembler {
    type V = Map<u32, FragmentBufferView>;

    closed spec fn view(&self) -> Map<u32, FragmentBufferView> {
        Map::new(|k: u32| self.buffers@.contains_key(k), |k: u32| self.buffers@[k]@)
    }
}

impl Reassembler {
    /// The internal key list mirrors the buffer map, and every buffer is
    /// well formed.
    pub closed spec fn wf(&self) -> bool {
        &&& self.keys@.no_duplicates()
        &&& (forall|k: u32| self.buffers@.contains_key(k) <==> self.keys@.contains(k))
        &&& (forall|k: u32|
            self.buffers@.contains_key(k) ==> wf_buffer(#[trigger] self.buffers@[k]@))
    }

    /// An empty reassembler.
    pub fn new() -> (r: Self)
        ensures
            r.wf(),
            r@ =~= Map::<u32, FragmentBufferView>::empty(),
    {
        Reassembler { buffers: HashMap::new(), keys: Vec::new() }
    }

    /// Stores one fragment and returns the completed packet, if this
    /// fragment was the last missing one, as its payload in fragment-index
    /// order, its target address, and its association id.
    pub fn insert(
        &mut self,
        assoc_id: u16,
        pkt_id: u16,
        frag_total: u8,
        frag_id: u8,
        addr: Address,
        payload: Vec<u8>,
        now: u64,
    ) -> (r: Result<Option<(Vec<u8>, Address, u16)>, Error>)
        requires
            old(self).wf(),
        ensures
            final(self).wf(),
            ({
                let step = insert_transition(
                    old(self)@,
                    assoc_id,
                    pkt_id,
                    frag_total,
                    frag_id,
                    addr@,
                    payload@,
                    now,
                );
                &&& final(self)@ =~= step.map
                &&& match r {
                    Ok(Some((pkt, a, aid))) => step.emit matches Some((pv, av, aidv)) && pkt@ == pv
                        && a@ == av && aid == aidv && !step.malformed,
                    Ok(None) => step.emit is None && !step.malformed,
                    Err(e) => step.malformed && e == Error::Malformed,
                }
            }),
    {
        if frag_id >= frag_total {
            assert(self@ =~= old(self)@);
            return Ok(None);
        }
        let k: u32 = ((assoc_id as u32) << 16) | (pkt_id as u32);
        assert(k == frag_key(assoc_id, pkt_id));
        let ghost m0 = old(self)@;
        let buf_opt = self.buffers.remove(&k);
        let was_present = buf_opt.is_some();
        let mut buf = match buf_opt {
            Some(b) => {
                if b.frag_total != frag_total {
                    self.buffers.insert(k, b);
                    assert(self.buffers@ =~= old(self).buffers@);
                    assert(self@ =~= m0);
                    assert(self.wf()) by {
                        assert(self.keys@ == old(self).keys@);
                    }
                    return Err(Error::Malformed);
                }
                b
            },
            None => {
                let frags = none_frags(frag_total);
                FragmentBuffer { frag_total, frags, addr: Address::Unspecified, created_at: now }
            },
        };
        let ghost base = if m0.contains_key(k) {
            m0[k]
        } else {
            fresh_buffer(frag_total, now)
        };
        let ghost upd = updated_buffer(base, frag_id, addr@, payload@);
        assert(buf@ =~= base);
        assert(wf_buffer(base));
        let idx = frag_id as usize;
        buf.frags[idx] = Some(payload);
        if frag_id == 0 {
            buf.addr = addr;
        }
        assert(buf@ =~= upd) by {
            assert(buf@.frags =~= upd.frags);
        }
        assert(wf_buffer(upd));
        let done = all_present(&buf.frags);
        assert(done == buffer_complete(upd));
        if done {
            if was_present {
                remove_key(&mut self.keys, k);
            }
            proof {
                assert(!self.buffers@.contains_key(k));
                assert(!self.keys@.contains(k));
                assert forall|k2: u32|
                    self.buffers@.contains_key(k2) <==> self.keys@.contains(k2) by {
                    if k2 != k {
                        assert(self.buffers@.contains_key(k2) == old(
                            self,
                        ).buffers@.contains_key(k2));
                        assert(self.keys@.contains(k2) == old(self).keys@.contains(k2));
                    }
                }
                assert(self@ =~= m0.remove(k));
            }
            let FragmentBuffer { frags, addr: target, .. } = buf;
            proof {
                assert forall|i: int| 0 <= i < frags@.len() implies frags@[i] is Some by {
                    assert(frags_view(frags@)[i] is Some);
                }
            }
            let out = concat_frags(frags);
            Ok(Some((out, target, assoc_id)))
        } else {
            if !was_present {
                proof {
                    assert(!old(self).keys@.contains(k));
                    lemma_push_no_duplicates(old(self).keys@, k);
                }
                self.keys.push(k);
            }
            self.buffers.insert(k, buf);
            proof {
                assert(self@ =~= m0.insert(k, upd)) by {
                    assert(self.buffers@ =~= old(self).buffers@.insert(k, buf));
                    assert forall|k2: u32|
                        self@.contains_key(k2) <==> m0.insert(k, upd).contains_key(k2) by {}
                    assert forall|k2: u32| self@.contains_key(k2) implies self@[k2] == m0.insert(
                        k,
                        upd,
                    )[k2] by {
                        if k2 == k {
                            assert(self.buffers@[k] == buf);
                        } else {
                            assert(self.buffers@[k2] == old(self).buffers@[k2]);
                        }
                    }
                }
                assert forall|k2: u32|
                    self.buffers@.contains_key(k2) <==> self.keys@.contains(k2) by {
                    if k2 != k {
                        assert(self.buffers@.contains_key(k2) == old(
                            self,
                        ).buffers@.contains_key(k2));
                        if !was_present {
                            assert(self.keys@.contains(k2) == old(self).keys@.contains(k2));
                        }
                    } else {
                        if !was_present {
                            assert(self.keys@.last() == k);
                        }
                    }
                }
                assert forall|k2: u32|
                    self.buffers@.contains_key(k2) implies wf_buffer(
                    #[trigger] self.buffers@[k2]@,
                ) by {
                    if k2 != k {
                        assert(self.buffers@[k2] == old(self).buffers@[k2]);
                    } else {
                        assert(self.buffers@[k]@ == upd);
                    }
                }
            }
            Ok(None)
        }
    }

    /// Drops every buffer that is older than `gc_lifetime`, and nothing
    /// else; surviving buffers are unchanged.
    #[verifier::loop_isolation(false)]
    pub fn collect_garbage(&mut self, now: u64, gc_lifetime: u64)
        requires
            old(self).wf(),
        ensures
            final(self).wf(),
            final(self)@ == gc_result(old(self)@, now, gc_lifetime),
    {
        let ghost m0 = self@;
        let mut work_buffers: HashMap<u32, FragmentBuffer> = HashMap::new();
        let mut work_keys: Vec<u32> = Vec::new();
        core::mem::swap(&mut self.buffers, &mut work_buffers);
        core::mem::swap(&mut self.keys, &mut work_keys);
        let ghost bufs0 = work_buffers@;
        let ghost all = work_keys@;
        let ghost mut seen: Seq<u32> = all.subrange(0, 0);
        let mut kept_buffers: HashMap<u32, FragmentBuffer> = HashMap::new();
        let mut kept_keys: Vec<u32> = Vec::new();
        let mut i: usize = 0;
        proof {
            assert(work_buffers@ =~= gc_remaining(bufs0, seen));
            assert(kept_buffers@ =~= gc_survivors(bufs0, seen, now, gc_lifetime));
            assert(kept_keys@.to_set() =~= kept_buffers@.dom());
        }
        while i < work_keys.len()
            invariant
                i <= all.len(),
                seen == all.subrange(0, i as int),
                work_buffers@ == gc_remaining(bufs0, seen),
                kept_buffers@ == gc_survivors(bufs0, seen, now, gc_lifetime),
                kept_keys@.no_duplicates(),
                kept_keys@.to_set() == kept_buffers@.dom(),
            decreases all.len() - i,
        {
            let k = work_keys[i];
            let ghost pre = seen;
            let ghost post = seen.push(k);
            proof {
                assert(!pre.contains(k)) by {
                    if pre.contains(k) {
                        let j = choose|j: int| 0 <= j < pre.len() && pre[j] == k;
                        assert(all[j] == all[i as int]);
                        assert(false);
                    }
                }
                assert(all.contains(k));
                assert(bufs0.contains_key(k));
                assert(work_buffers@.contains_key(k));
                assert forall|k2: u32| post.contains(k2) <==> (pre.contains(k2) || k2 == k) by {
                    if post.contains(k2) {
                        let j = choose|j: int| 0 <= j < post.len() && post[j] == k2;
                        if j < pre.len() {
                            assert(pre[j] == k2);
                        }
                    }
                    if pre.contains(k2) {
                        let j = choose|j: int| 0 <= j < pre.len() && pre[j] == k2;
                        assert(post[j] == k2);
                    }
                    assert(post[pre.len() as int] == k);
                }
            }
            let b_opt = work_buffers.remove(&k);
            match b_opt {
                Some(b) => {
                    assert(b == bufs0[k]);
                    let expired = now >= gc_lifetime && b.created_at < now - gc_lifetime;
                    assert(expired == buffer_expired(bufs0[k]@, now, gc_lifetime));
                    if !expired {
                        proof {
                            assert(!kept_keys@.contains(k)) by {
                                assert(kept_keys@.to_set().contains(k)
                                    == kept_buffers@.dom().contains(k));
                            }
                            lemma_push_no_duplicates(kept_keys@, k);
                        }
                        kept_keys.push(k);
                        kept_buffers.insert(k, b);
                    }
                },
                None => {
                    assert(false);
                },
            }
            i = i + 1;
            proof {
                seen = post;
                assert(all.subrange(0, i as int) =~= post);
                assert(work_buffers@ =~= gc_remaining(bufs0, seen));
                assert(kept_buffers@ =~= gc_survivors(bufs0, seen, now, gc_lifetime));
                assert(kept_keys@.to_set() =~= kept_buffers@.dom());
            }
        }
        proof {
            assert(all.subrange(0, all.len() as int) =~= all);
            assert(seen == all);
        }
        self.buffers = kept_buffers;
        self.keys = kept_keys;
        proof {
            assert forall|k: u32| bufs0.contains_key(k) implies all.contains(k) by {}
            assert(self@ =~= gc_result(m0, now, gc_lifetime)) by {
                assert forall|k: u32|
                    self@.contains_key(k) <==> gc_result(m0, now, gc_lifetime).contains_key(
                        k,
                    ) by {
                    assert(self.buffers@.contains_key(k) == gc_survivors(
                        bufs0,
                        all,
                        now,
                        gc_lifetime,
                    ).contains_key(k));
                    if bufs0.contains_key(k) {
                        assert(all.contains(k));
                        assert(m0[k] == bufs0[k]@);
                    }
                }
                assert forall|k: u32| self@.contains_key(k) implies self@[k] == gc_result(
                    m0,
                    now,
                    gc_lifetime,
                )[k] by {
                    assert(self.buffers@[k] == bufs0[k]);
                    assert(m0[k] == bufs0[k]@);
                }
            }
            assert forall|k: u32|
                self.buffers@.contains_key(k) <==> self.keys@.contains(k) by {
                assert(self.keys@.to_set().contains(k) == self.keys@.contains(k));
            }
            assert forall|k: u32|
                self.buffers@.contains_key(k) implies wf_buffer(#[trigger] self.buffers@[k]@) by {
                assert(self.buffers@[k] == bufs0[k]);
                assert(bufs0.contains_key(k));
                assert(wf_buffer(old(self).buffers@[k]@));
            }
        }
    }
}

/// A duplicate-free sequence stays duplicate free when a fresh element is
/// pushed.
proof fn lemma_push_no_duplicates(s: Seq<u32>, x: u32)
    requires
        s.no_duplicates(),
        !s.contains(x),
    ensures
        s.push(x).no_duplicates(),
{
    let t = s.push(x);
    assert forall|p: int, q: int| 0 <= p < q < t.len() implies t[p] != t[q] by {
        if q < s.len() {
            assert(t[p] == s[p] && t[q] == s[q]);
        } else {
            assert(t[q] == x);
            assert(t[p] == s[p]);
            assert(s.contains(s[p]));
        }
    }
}

/// A vector of `n` empty fragment slots.
fn none_frags(n: u8) -> (r: Vec<Option<Vec<u8>>>)
    ensures
        frags_view(r@) =~= Seq::new(n as nat, |i: int| None::<Seq<u8>>),
        r@.len() == n as int,
{
    let mut v: Vec<Option<Vec<u8>>> = Vec::new();
    let mut i: usize = 0;
    while i < n as usize
        invariant
            i <= n as usize,
            v@.len() == i,
            forall|j: int| 0 <= j < i ==> v@[j] is None,
        decreases n as usize - i,
    {
        v.push(None);
        i = i + 1;
    }
    v
}

/// Whether every fragment slot is filled, stated over the slots' models.
fn all_present(frags: &Vec<Option<Vec<u8>>>) -> (r: bool)
    ensures
        r == (forall|i: int|
            0 <= i < frags_view(frags@).len() ==> frags_view(frags@)[i] is Some),
{
    let mut i: usize = 0;
    while i < frags.len()
        invariant
            i <= frags@.len(),
            forall|j: int| 0 <= j < i ==> frags_view(frags@)[j] is Some,
        decreases frags@.len() - i,
    {
        if frags[i].is_none() {
            assert(frags_view(frags@)[i as int] is None);
            return false;
        }
        i = i + 1;
    }
    true
}

/// Joins the fragments of a complete buffer in index order.
fn concat_frags(frags: Vec<Option<Vec<u8>>>) -> (r: Vec<u8>)
    requires
        forall|i: int| 0 <= i < frags@.len() ==> frags@[i] is Some,
    ensures
        r@ == assembled(frags_view(frags@)),
{
    let ghost fv = frags_view(frags@);
    let mut out: Vec<u8> = Vec::new();
    let mut i: usize = 0;
    while i < frags.len()
        invariant
            i <= frags@.len(),
            fv == frags_view(frags@),
            forall|j: int| 0 <= j < frags@.len() ==> frags@[j] is Some,
            out@ == assembled(fv.subrange(0, i as int)),
        decreases frags@.len() - i,
    {
        match &frags[i] {
            Some(b) => {
                crate::address::push_bytes(&mut out, b.as_slice());
            },
            None => {},
        }
        i = i + 1;
        proof {
            let p = fv.subrange(0, i as int);
            assert(p.drop_last() =~= fv.subrange(0, i as int - 1));
            assert(p.last() == fv[i as int - 1]);
        }
    }
    proof {
        assert(fv.subrange(0, frags@.len() as int) =~= fv);
    }
    out
}

/// Removes the one occurrence of `k` from a duplicate-free key list.
fn remove_key(keys: &mut Vec<u32>, k: u32)
    requires
        old(keys)@.no_duplicates(),
        old(keys)@.contains(k),
    ensures
        final(keys)@.no_duplicates(),
        !final(keys)@.contains(k),
        forall|k2: u32| k2 != k ==> final(keys)@.contains(k2) == old(keys)@.contains(k2),
{
    let ghost s = old(keys)@;
    let mut i: usize = 0;
    let n = keys.len();
    while i < n
        invariant
            s == old(keys)@,
            keys@ == s,
            n == s.len(),
            i <= n,
            s.contains(k),
            s.no_duplicates(),
            forall|j: int| 0 <= j < i ==> s[j] != k,
        decreases n - i,
    {
        if keys[i] == k {
            keys.remove(i);
            proof {
                let t = keys@;
                s.remove_ensures(i as int);
                assert(t == s.remove(i as int));
                assert(t.len() == s.len() - 1);
                assert(t.no_duplicates()) by {
                    assert forall|p: int, q: int| 0 <= p < q < t.len() implies t[p] != t[q] by {
                        let sp: int = if p < i { p } else { p + 1 };
                        let sq: int = if q < i { q } else { q + 1 };
                        assert(t[p] == s[sp]);
                        assert(t[q] == s[sq]);
                        assert(sp < sq);
                    }
                }
                assert(!t.contains(k)) by {
                    if t.contains(k) {
                        let j = choose|j: int| 0 <= j < t.len() && t[j] == k;
                        let sj: int = if j < i { j } else { j + 1 };
                        assert(s[sj] == k);
                        assert(s[i as int] == k);
                        assert(sj != i);
                        assert(false);
                    }
                }
                assert forall|k2: u32| k2 != k implies t.contains(k2) == s.contains(k2) by {
                    if t.contains(k2) {
                        let j = choose|j: int| 0 <= j < t.len() && t[j] == k2;
                        let sj: int = if j < i { j } else { j + 1 };
                        assert(s[sj] == k2);
                        assert(s.contains(k2));
                    }
                    if s.contains(k2) {
                        let j = choose|j: int| 0 <= j < s.len() && s[j] == k2;
                        assert(j != i);
                        if j < i {
                            assert(t[j] == k2);
                        } else {
                            assert(t[j - 1] == k2);
                        }
                        assert(t.contains(k2));
                    }
                }
            }
            return ;
        }
        i = i + 1;
    }
    proof {
        let j = choose|j: int| 0 <= j < s.len() && s[j] == k;
        assert(s[j] != k);
        assert(false);
    }
}

/// The fragment payloads joined in index order.
pub open spec fn concat_frag_payloads(frags: Seq<Seq<u8>>) -> Seq<u8>
    decreases frags.len(),
{
    if frags.len() == 0 {
        Seq::empty()
    } else {
        concat_frag_payloads(frags.drop_last()) + frags.last()
    }
}

/// The state after delivering the fragments named by `order`, one
/// `insert_transition` each, starting from buffer map `m`. Fragment `f` of
/// the packet carries payload `frags[f]`; the target address rides on
/// fragment 0.
pub open spec fn deliver_all(
    m: Map<u32, FragmentBufferView>,
    assoc_id: u16,
    pkt_id: u16,
    frag_total: u8,
    frags: Seq<Seq<u8>>,
    addr: AddressView,
    order: Seq<u8>,
    now: u64,
) -> StepResult
    decreases order.len(),
{
    if order.len() == 0 {
        StepResult { map: m, emit: None, malformed: false }
    } else {
        let prev = deliver_all(m, assoc_id, pkt_id, frag_total, frags, addr, order.drop_last(), now);
        insert_transition(
            prev.map,
            assoc_id,
            pkt_id,
            frag_total,
            order.last(),
            addr,
            frags[order.last() as int],
            now,
        )
    }
}

/// The buffer holding exactly the fragments named by `ids`.
spec fn partial_buffer(
    frag_total: u8,
    frags: Seq<Seq<u8>>,
    addr: AddressView,
    ids: Seq<u8>,
    now: u64,
) -> FragmentBufferView {
    FragmentBufferView {
        frag_total,
        frags: Seq::new(
            frag_total as nat,
            |i: int|
                if ids.contains(i as u8) {
                    Some(frags[i])
                } else {
                    None
                },
        ),
        addr: if ids.contains(0u8) {
            addr
        } else {
            AddressView::Unspecified
        },
        created_at: now,
    }
}

/// A prefix of a duplicate-free sequence is duplicate free.
proof fn lemma_subrange_no_duplicates(s: Seq<u8>, j: int)
    requires
        s.no_duplicates(),
        0 <= j <= s.len(),
    ensures
        s.subrange(0, j).no_duplicates(),
{
    let p = s.subrange(0, j);
    assert forall|a: int, b: int| 0 <= a < b < p.len() implies p[a] != p[b] by {
        assert(p[a] == s[a] && p[b] == s[b]);
    }
}

/// The fragment ids below `total`, as a set.
spec fn id_set(total: u8) -> Set<u8> {
    vstd::set_lib::set_int_range(0, total as int).map(|i: int| i as u8)
}

/// The distinct fragment ids below `total`, as a set, with its size.
proof fn lemma_id_range(total: u8)
    ensures
        id_set(total).finite(),
        id_set(total).len() == total as int,
        forall|b: u8| #[trigger] id_set(total).contains(b) <==> b < total,
{
    let r = vstd::set_lib::set_int_range(0, total as int);
    let f = |i: int| i as u8;
    let ru = id_set(total);
    assert(ru == r.map(f));
    vstd::set_lib::lemma_int_range(0, total as int);
    assert(vstd::relations::injective_on(f, r)) by {
        assert forall|x1: int, x2: int|
            #![trigger r.contains(x1), r.contains(x2)]
            r.contains(x1) && r.contains(x2) && f(x1) == f(x2) implies x1 == x2 by {}
    }
    vstd::set_lib::lemma_map_size(r, ru, f);
    assert forall|b: u8| ru.contains(b) <==> b < total by {
        if b < total {
            assert(r.contains(b as int) && f(b as int) == b);
        }
    }
}

/// A permutation of the fragment ids contains every id below `total`.
proof fn lemma_ids_coverage(order: Seq<u8>, total: u8)
    requires
        order.no_duplicates(),
        order.len() == total as int,
        forall|l: int| 0 <= l < order.len() ==> order[l] < total,
    ensures
        forall|b: u8| b < total ==> order.contains(b),
{
    let ru = id_set(total);
    lemma_id_range(total);
    order.unique_seq_to_set();
    assert(order.to_set().subset_of(ru)) by {
        assert forall|b: u8| order.to_set().contains(b) implies ru.contains(b) by {
            assert(order.contains(b));
            let j = choose|j: int| 0 <= j < order.len() && order[j] == b;
        }
    }
    vstd::set_lib::lemma_subset_equality(order.to_set(), ru);
    assert forall|b: u8| b < total implies order.contains(b) by {
        assert(ru.contains(b));
        assert(order.to_set().contains(b));
    }
}

/// A proper prefix of a permutation of the fragment ids misses some id.
proof fn lemma_prefix_missing(order: Seq<u8>, total: u8, j: int)
    requires
        order.no_duplicates(),
        order.len() == total as int,
        forall|l: int| 0 <= l < order.len() ==> order[l] < total,
        0 <= j < total as int,
    ensures
        exists|b: u8| b < total && !order.subrange(0, j).contains(b),
{
    let pre = order.subrange(0, j);
    let ru = id_set(total);
    lemma_id_range(total);
    lemma_subrange_no_duplicates(order, j);
    pre.unique_seq_to_set();
    if forall|b: u8| b < total ==> #[trigger] pre.contains(b) {
        assert(ru.subset_of(pre.to_set())) by {
            assert forall|b: u8| ru.contains(b) implies pre.to_set().contains(b) by {
                assert(b < total);
                assert(pre.contains(b));
            }
        }
        vstd::set_lib::lemma_len_subset(ru, pre.to_set());
        assert(false);
    }
}

/// Joining all-present fragments equals joining the payloads directly.
proof fn lemma_assembled_all_some(frags: Seq<Seq<u8>>)
    ensures
        assembled(Seq::new(frags.len(), |i: int| Some(frags[i]))) == concat_frag_payloads(frags),
    decreases frags.len(),
{
    let full = Seq::new(frags.len(), |i: int| Some(frags[i]));
    if frags.len() == 0 {
        assert(full.len() == 0);
    } else {
        let sub = frags.drop_last();
        lemma_assembled_all_some(sub);
        assert(full.drop_last() =~= Seq::new(sub.len(), |i: int| Some(sub[i])));
        assert(full.last() == Some(frags.last()));
    }
}

/// After the fragments named by a proper prefix of a permutation, the
/// buffer map holds exactly the one partial buffer, nothing was emitted,
/// and no step was a protocol error.
proof fn lemma_deliver_prefix(
    m0: Map<u32, FragmentBufferView>,
    assoc_id: u16,
    pkt_id: u16,
    frag_total: u8,
    frags: Seq<Seq<u8>>,
    addr: AddressView,
    order: Seq<u8>,
    now: u64,
    j: int,
)
    requires
        1 <= frag_total,
        frags.len() == frag_total as int,
        order.len() == frag_total as int,
        order.no_duplicates(),
        forall|l: int| 0 <= l < order.len() ==> order[l] < frag_total,
        !m0.contains_key(frag_key(assoc_id, pkt_id)),
        1 <= j < frag_total as int,
    ensures
        ({
            let st = deliver_all(m0, assoc_id, pkt_id, frag_total, frags, addr, order.subrange(0, j), now);
            &&& st.map =~= m0.insert(
                frag_key(assoc_id, pkt_id),
                partial_buffer(frag_total, frags, addr, order.subrange(0, j), now),
            )
            &&& st.emit is None
            &&& !st.malformed
        }),
    decreases j,
{
    let k = frag_key(assoc_id, pkt_id);
    let pre = order.subrange(0, j - 1);
    let cur = order.subrange(0, j);
    let fid = order[j - 1];
    assert(cur.drop_last() =~= pre);
    assert(cur.last() == fid);
    assert(cur =~= pre.push(fid));
    let prev = deliver_all(m0, assoc_id, pkt_id, frag_total, frags, addr, pre, now);
    let base: FragmentBufferView;
    if j == 1 {
        assert(pre.len() == 0);
        assert(prev.map == m0);
        base = fresh_buffer(frag_total, now);
        assert(base =~= partial_buffer(frag_total, frags, addr, pre, now)) by {
            assert(base.frags =~= partial_buffer(frag_total, frags, addr, pre, now).frags);
        }
    } else {
        lemma_deliver_prefix(m0, assoc_id, pkt_id, frag_total, frags, addr, order, now, j - 1);
        base = partial_buffer(frag_total, frags, addr, pre, now);
        assert(prev.map.contains_key(k) && prev.map[k] == base);
    }
    let upd = updated_buffer(base, fid, addr, frags[fid as int]);
    let goal = partial_buffer(frag_total, frags, addr, cur, now);
    assert(upd =~= goal) by {
        assert(upd.frags =~= goal.frags) by {
            assert forall|i: int| 0 <= i < frag_total as int implies upd.frags[i] == goal.frags[i] by {
                assert(cur.contains(i as u8) <==> (pre.contains(i as u8) || i as u8 == fid));
                if i == fid as int {
                    assert(i as u8 == fid);
                } else {
                    assert(i as u8 != fid);
                }
            }
        }
        assert(cur.contains(0u8) <==> (pre.contains(0u8) || fid == 0));
    }
    lemma_prefix_missing(order, frag_total, j);
    let miss = choose|b: u8| b < frag_total && !order.subrange(0, j).contains(b);
    assert(goal.frags[miss as int] is None);
    assert(!buffer_complete(upd));
    let st = deliver_all(m0, assoc_id, pkt_id, frag_total, frags, addr, cur, now);
    assert(st == insert_transition(prev.map, assoc_id, pkt_id, frag_total, fid, addr, frags[fid as int], now));
    assert(st.map =~= m0.insert(k, goal));
}

/// Delivering the fragments of one packet in any order: no step before the
/// last emits anything or is an error; the last step emits exactly one
/// packet, whose payload is the fragments' bytes in index order and whose
/// target is the address carried by fragment 0; the buffer is gone after.
pub proof fn lemma_fragments_reassemble(
    m0: Map<u32, FragmentBufferView>,
    assoc_id: u16,
    pkt_id: u16,
    frag_total: u8,
    frags: Seq<Seq<u8>>,
    addr: AddressView,
    order: Seq<u8>,
    now: u64,
)
    requires
        1 <= frag_total,
        frags.len() == frag_total as int,
        order.len() == frag_total as int,
        order.no_duplicates(),
        forall|l: int| 0 <= l < order.len() ==> order[l] < frag_total,
        !m0.contains_key(frag_key(assoc_id, pkt_id)),
    ensures
        forall|j: int|
            1 <= j < frag_total as int ==> {
                let st = #[trigger] deliver_all(
                    m0,
                    assoc_id,
                    pkt_id,
                    frag_total,
                    frags,
                    addr,
                    order.subrange(0, j),
                    now,
                );
                st.emit is None && !st.malformed
            },
        ({
            let st = deliver_all(m0, assoc_id, pkt_id, frag_total, frags, addr, order, now);
            &&& st.emit == Some((concat_frag_payloads(frags), addr, assoc_id))
            &&& !st.malformed
            &&& st.map =~= m0
        }),
{
    let k = frag_key(assoc_id, pkt_id);
    let total = frag_total as int;
    assert forall|j: int| 1 <= j < total implies {
        let st = #[trigger] deliver_all(
            m0,
            assoc_id,
            pkt_id,
            frag_total,
            frags,
            addr,
            order.subrange(0, j),
            now,
        );
        st.emit is None && !st.malformed
    } by {
        lemma_deliver_prefix(m0, assoc_id, pkt_id, frag_total, frags, addr, order, now, j);
    }
    let pre = order.subrange(0, total - 1);
    let fid = order[total - 1];
    assert(order.subrange(0, total) =~= order);
    assert(order.drop_last() =~= pre);
    assert(order.last() == fid);
    assert(order =~= pre.push(fid));
    let prev = deliver_all(m0, assoc_id, pkt_id, frag_total, frags, addr, pre, now);
    let base: FragmentBufferView;
    if total == 1 {
        assert(pre.len() == 0);
        assert(prev.map == m0);
        base = fresh_buffer(frag_total, now);
        assert(base =~= partial_buffer(frag_total, frags, addr, pre, now)) by {
            assert(base.frags =~= partial_buffer(frag_total, frags, addr, pre, now).frags);
        }
    } else {
        lemma_deliver_prefix(m0, assoc_id, pkt_id, frag_total, frags, addr, order, now, total - 1);
        base = partial_buffer(frag_total, frags, addr, pre, now);
        assert(prev.map.contains_key(k) && prev.map[k] == base);
    }
    let upd = updated_buffer(base, fid, addr, frags[fid as int]);
    let goal = partial_buffer(frag_total, frags, addr, order, now);
    lemma_ids_coverage(order, frag_total);
    assert(upd =~= goal) by {
        assert(upd.frags =~= goal.frags) by {
            assert forall|i: int| 0 <= i < total implies upd.frags[i] == goal.frags[i] by {
                assert(order.contains(i as u8) <==> (pre.contains(i as u8) || i as u8 == fid));
                if i == fid as int {
                    assert(i as u8 == fid);
                } else {
                    assert(i as u8 != fid);
                }
            }
        }
        assert(order.contains(0u8)) by {
            assert(0u8 < frag_total);
        }
        assert(pre.contains(0u8) || fid == 0) by {
            assert(order.contains(0u8) <==> (pre.contains(0u8) || fid == 0));
        }
    }
    assert(buffer_complete(upd)) by {
        assert forall|i: int| 0 <= i < goal.frags.len() implies goal.frags[i] is Some by {
            assert((i as u8) < frag_total);
            assert(order.contains(i as u8));
        }
    }
    assert(goal.frags =~= Seq::new(frags.len(), |i: int| Some(frags[i])));
    lemma_assembled_all_some(frags);
    assert(assembled(upd.frags) == concat_frag_payloads(frags));
    let st = deliver_all(m0, assoc_id, pkt_id, frag_total, frags, addr, order, now);
    assert(st == insert_transition(prev.map, assoc_id, pkt_id, frag_total, fid, addr, frags[fid as int], now));
    assert(st.map =~= m0);
    assert(upd.addr == addr);
}

} // verus!
