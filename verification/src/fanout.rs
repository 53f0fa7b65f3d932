use vstd::prelude::*;

verus! {

/// The channels that survive a broadcast pass: `ok[i]` reports whether the
/// delivery to `chans[i]` succeeded, and exactly the successful ones stay,
/// in their original order.
pub open spec fn kept_channels(chans: Seq<u64>, ok: Seq<bool>) -> Seq<u64>
    decreases chans.len(),
{
    if chans.len() == 0 || chans.len() != ok.len() {
        Seq::empty()
    } else {
        let rest = kept_channels(chans.drop_last(), ok.drop_last());
        if ok.last() {
            rest.push(chans.last())
        } else {
            rest
        }
    }
}

/// The set of live viewer channels, identified by the order they arrived in.
/// A channel is added on registration and removed exactly when a delivery to
/// it fails; there is no other way out of the set.
pub struct FanoutRegistry {
    channels: Vec<u64>,
    next_id: u64,
}

impl FanoutRegistry {
    /// The registered channel ids, in registration order.
    pub closed spec fn channels_model(&self) -> Seq<u64> {
        self.channels@
    }

    /// The id the next registration will hand out.
    pub closed spec fn spec_next_id(&self) -> u64 {
        self.next_id
    }

    /// Ids grow strictly along the registration order and stay below
    /// `next_id`, so every id is handed out at most once.
    pub open spec fn wf(&self) -> bool {
        &&& forall|i: int| 0 <= i < self.channels_model().len() ==> #[trigger] self.channels_model()[i]
            < self.spec_next_id()
        &&& forall|i: int, j: int| 0 <= i < j < self.channels_model().len()
            ==> #[trigger] self.channels_model()[i] < #[trigger] self.channels_model()[j]
    }

    pub fn new() -> (r: Self)
        ensures
            r.wf(),
            r.channels_model() == Seq::<u64>::empty(),
            r.spec_next_id() == 0u64,
    {
        FanoutRegistry { channels: Vec::new(), next_id: 0 }
    }

    /// The id the next registration will hand out.
    pub fn next_id(&self) -> (r: u64)
        ensures
            r == self.spec_next_id(),
    {
        self.next_id
    }

    /// Add a viewer channel to the active set; no deduplication, no upper
    /// bound. The returned id is fresh: no earlier registration produced it.
    pub fn register(&mut self) -> (id: u64)
        requires
            old(self).wf(),
            old(self).spec_next_id() < u64::MAX,
        ensures
            final(self).wf(),
            id == old(self).spec_next_id(),
            final(self).channels_model() == old(self).channels_model().push(id),
            final(self).spec_next_id() == old(self).spec_next_id() + 1,
    {
        let id = self.next_id;
        self.channels.push(id);
        self.next_id = self.next_id + 1;
        proof {
            let chans = self.channels@;
            assert forall|i: int| 0 <= i < chans.len() implies #[trigger] chans[i]
                < self.next_id by {
                if i < chans.len() - 1 {
                    assert(chans[i] == old(self).channels_model()[i]);
                }
            }
            assert forall|i: int, j: int| 0 <= i < j < chans.len() implies #[trigger] chans[i]
                < #[trigger] chans[j] by {
                if j < chans.len() - 1 {
                    assert(chans[i] == old(self).channels_model()[i]);
                    assert(chans[j] == old(self).channels_model()[j]);
                } else {
                    assert(chans[i] == old(self).channels_model()[i]);
                    assert(chans[j] == id);
                }
            }
        }
        id
    }

    /// The channels one broadcast pass must attempt, in registration order:
    /// exactly those registered strictly before this call.
    pub fn broadcast_targets(&self) -> (t: Vec<u64>)
        ensures
            t@ == self.channels_model(),
    {
        let n = self.channels.len();
        let mut t: Vec<u64> = Vec::new();
        let mut i: usize = 0;
        while i < n
            invariant
                i <= n,
                n == self.channels@.len(),
                t@ == self.channels@.take(i as int),
            decreases n - i,
        {
            t.push(self.channels[i]);
            proof {
                assert(t@ =~= self.channels@.take(i + 1));
            }
            i = i + 1;
        }
        proof {
            assert(self.channels@.take(n as int) =~= self.channels@);
        }
        t
    }

    /// Prune after a broadcast pass: `send_ok[i]` reports the delivery to the
    /// i-th target, and exactly the channels whose delivery succeeded stay.
    pub fn apply_send_results(&mut self, send_ok: &Vec<bool>)
        requires
            old(self).wf(),
            send_ok@.len() == old(self).channels_model().len(),
        ensures
            final(self).wf(),
            final(self).channels_model() == kept_channels(old(self).channels_model(), send_ok@),
            final(self).spec_next_id() == old(self).spec_next_id(),
    {
        let n = self.channels.len();
        let mut kept: Vec<u64> = Vec::new();
        let mut i: usize = 0;
        while i < n
            invariant
                i <= n,
                n == self.channels@.len(),
                send_ok@.len() == n,
                kept@ == kept_channels(self.channels@.take(i as int), send_ok@.take(i as int)),
            decreases n - i,
        {
            let ghost chans_pre = self.channels@.take(i + 1);
            let ghost ok_pre = send_ok@.take(i + 1);
            proof {
                assert(chans_pre.drop_last() =~= self.channels@.take(i as int));
                assert(ok_pre.drop_last() =~= send_ok@.take(i as int));
                assert(chans_pre.last() == self.channels@[i as int]);
                assert(ok_pre.last() == send_ok@[i as int]);
            }
            if send_ok[i] {
                kept.push(self.channels[i]);
            }
            proof {
                assert(kept@ == kept_channels(chans_pre, ok_pre));
            }
            i = i + 1;
        }
        proof {
            assert(self.channels@.take(n as int) =~= self.channels@);
            assert(send_ok@.take(n as int) =~= send_ok@);
            lemma_kept_channels_membership(self.channels@, send_ok@);
            lemma_kept_channels_increasing(self.channels@, send_ok@);
        }
        self.channels = kept;
    }
}

/// Whether `v` stands at some position of `chans` whose delivery succeeded.
pub open spec fn delivered_position(chans: Seq<u64>, ok: Seq<bool>, v: u64) -> bool {
    exists|i: int| 0 <= i < chans.len() && #[trigger] chans[i] == v && ok[i]
}

/// Every surviving channel comes from some position of the original list
/// whose delivery succeeded.
pub proof fn lemma_kept_channels_membership(chans: Seq<u64>, ok: Seq<bool>)
    requires
        chans.len() == ok.len(),
    ensures
        forall|k: int| 0 <= k < kept_channels(chans, ok).len() ==> delivered_position(
            chans,
            ok,
            #[trigger] kept_channels(chans, ok)[k],
        ),
    decreases chans.len(),
{
    if chans.len() > 0 {
        lemma_kept_channels_membership(chans.drop_last(), ok.drop_last());
        let sub = kept_channels(chans.drop_last(), ok.drop_last());
        let out = kept_channels(chans, ok);
        assert forall|k: int| 0 <= k < kept_channels(chans, ok).len() implies delivered_position(
            chans,
            ok,
            #[trigger] kept_channels(chans, ok)[k],
        ) by {
            if k < sub.len() {
                assert(out[k] == sub[k]);
                assert(delivered_position(chans.drop_last(), ok.drop_last(), sub[k]));
                let i = choose|i: int|
                    0 <= i < chans.drop_last().len() && #[trigger] chans.drop_last()[i] == sub[k]
                        && ok.drop_last()[i];
                assert(0 <= i < chans.len() && chans[i] == out[k] && ok[i]);
            } else {
                assert(ok.last());
                assert(out[k] == chans.last());
                let i = chans.len() - 1;
                assert(0 <= i < chans.len() && chans[i] == out[k] && ok[i]);
            }
        }
    }
}

/// Pruning keeps the registration order strictly increasing.
pub proof fn lemma_kept_channels_increasing(chans: Seq<u64>, ok: Seq<bool>)
    requires
        chans.len() == ok.len(),
        forall|i: int, j: int| 0 <= i < j < chans.len() ==> #[trigger] chans[i] < #[trigger] chans[j],
    ensures
        forall|i: int, j: int| 0 <= i < j < kept_channels(chans, ok).len()
            ==> #[trigger] kept_channels(chans, ok)[i] < #[trigger] kept_channels(chans, ok)[j],
    decreases chans.len(),
{
    if chans.len() > 0 {
        assert(forall|i: int, j: int| 0 <= i < j < chans.drop_last().len()
            ==> #[trigger] chans.drop_last()[i] < #[trigger] chans.drop_last()[j]);
        lemma_kept_channels_increasing(chans.drop_last(), ok.drop_last());
        lemma_kept_channels_membership(chans.drop_last(), ok.drop_last());
        let sub = kept_channels(chans.drop_last(), ok.drop_last());
        let out = kept_channels(chans, ok);
        assert forall|i: int, j: int|
            0 <= i < j < kept_channels(chans, ok).len() implies #[trigger] kept_channels(
            chans,
            ok,
        )[i] < #[trigger] kept_channels(chans, ok)[j] by {
            if j < sub.len() {
                assert(out[i] == sub[i] && out[j] == sub[j]);
            } else if ok.last() && j == sub.len() {
                assert(out[i] == sub[i]);
                assert(out[j] == chans.last());
                assert(delivered_position(chans.drop_last(), ok.drop_last(), sub[i]));
                let w = choose|w: int|
                    0 <= w < chans.drop_last().len() && #[trigger] chans.drop_last()[w] == sub[i]
                        && ok.drop_last()[w];
                assert(chans[w] < chans[chans.len() - 1]);
            }
        }
    }
}

/// A channel whose delivery failed is absent from the pruned set, so the next
/// broadcast pass will not target it.
pub proof fn lemma_failed_channel_absent(chans: Seq<u64>, ok: Seq<bool>, i: int)
    requires
        chans.len() == ok.len(),
        forall|a: int, b: int| 0 <= a < b < chans.len() ==> #[trigger] chans[a] < #[trigger] chans[b],
        0 <= i < chans.len(),
        !ok[i],
    ensures
        !kept_channels(chans, ok).contains(chans[i]),
{
    lemma_kept_channels_membership(chans, ok);
    let out = kept_channels(chans, ok);
    assert forall|k: int| 0 <= k < out.len() implies #[trigger] out[k] != chans[i] by {
        assert(delivered_position(chans, ok, out[k]));
        let w = choose|w: int| 0 <= w < chans.len() && #[trigger] chans[w] == out[k] && ok[w];
        if w < i {
            assert(chans[w] < chans[i]);
        } else if w > i {
            assert(chans[i] < chans[w]);
        }
    }
}

/// A channel registered only after a broadcast took its target list carries
/// an id no earlier registration produced, so that pass did not target it.
pub proof fn lemma_fresh_channel_not_targeted(r: FanoutRegistry, id: u64)
    requires
        r.wf(),
        id >= r.spec_next_id(),
    ensures
        !r.channels_model().contains(id),
{
    assert(forall|k: int| 0 <= k < r.channels_model().len() ==> #[trigger] r.channels_model()[k]
        != id);
}

} // verus!
