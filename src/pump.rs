use vstd::prelude::*;

verus! {

/// Frames that a message must have to pass the ingress stage.
pub const INGRESS_MIN_FRAMES: usize = 2;

/// Frames that a message must have to pass the transform stage.
pub const TRANSFORM_MIN_FRAMES: usize = 3;

/// The reserved source tag of control messages, `changer.ack`, as bytes.
pub open spec fn ack_tag() -> Seq<u8> {
    seq![99u8, 104u8, 97u8, 110u8, 103u8, 101u8, 114u8, 46u8, 97u8, 99u8, 107u8]
}

/// Decimal ASCII text of a number, without leading zeros.
pub open spec fn decimal(n: nat) -> Seq<u8>
    decreases n,
{
    if n < 10 {
        seq![(48 + n) as u8]
    } else {
        decimal(n / 10).push((48 + n % 10) as u8)
    }
}

/// Decimal ASCII text of `n`.
pub fn decimal_ascii(n: u64) -> (r: Vec<u8>)
    ensures
        r@ == decimal(n as nat),
    decreases n,
{
    if n < 10 {
        let mut r: Vec<u8> = Vec::new();
        r.push(48u8 + n as u8);
        assert(r@ =~= decimal(n as nat));
        r
    } else {
        let mut r = decimal_ascii(n / 10);
        r.push(48u8 + (n % 10) as u8);
        r
    }
}

/// Whether a frame is the reserved control tag.
pub fn is_ack_tag(frame: &Vec<u8>) -> (r: bool)
    ensures
        r == (frame@ == ack_tag()),
{
    let tag: Vec<u8> = vec![99u8, 104u8, 97u8, 110u8, 103u8, 101u8, 114u8, 46u8, 97u8, 99u8, 107u8];
    assert(tag@ =~= ack_tag());
    if frame.len() != tag.len() {
        return false;
    }
    let mut i: usize = 0;
    while i < tag.len()
        invariant
            i <= tag@.len(),
            frame@.len() == tag@.len(),
            tag@ == ack_tag(),
            forall|m: int| 0 <= m < i ==> frame@[m] == tag@[m],
        decreases tag.len() - i,
    {
        if frame[i] != tag[i] {
            return false;
        }
        i += 1;
    }
    assert(frame@ =~= tag@);
    true
}

/// The counters of the ingress stage after one more message of `n` frames.
pub open spec fn ingress_next(state: (nat, nat), n: nat) -> (nat, nat) {
    if n < INGRESS_MIN_FRAMES {
        (state.0, state.1 + 1)
    } else {
        (state.0 + 1, state.1)
    }
}

/// The counters of the ingress stage after messages of the given frame
/// counts, starting from zero.
pub open spec fn ingress_run(ns: Seq<nat>) -> (nat, nat)
    decreases ns.len(),
{
    if ns.len() == 0 {
        (0, 0)
    } else {
        ingress_next(ingress_run(ns.drop_last()), ns.last())
    }
}

/// The sequence numbers that the ingress stage assigns, in the order of the
/// messages it accepts.
pub open spec fn assigned(ns: Seq<nat>) -> Seq<nat>
    decreases ns.len(),
{
    if ns.len() == 0 {
        Seq::empty()
    } else if ns.last() < INGRESS_MIN_FRAMES {
        assigned(ns.drop_last())
    } else {
        assigned(ns.drop_last()).push(ingress_run(ns).0)
    }
}

/// The sequence numbers assigned to the messages that are not dropped run
/// 1, 2, 3, ... : strictly increasing, starting at one, one per message.
pub proof fn lemma_sequence_numbers(ns: Seq<nat>)
    ensures
        assigned(ns).len() == ingress_run(ns).0,
        forall|i: int| 0 <= i < assigned(ns).len() ==> #[trigger] assigned(ns)[i] == i + 1,
    decreases ns.len(),
{
    if ns.len() > 0 {
        lemma_sequence_numbers(ns.drop_last());
    }
}

/// What the ingress stage does with one message.
pub enum IngressAction {
    /// Too few frames: the message is counted as dropped.
    Drop,
    /// A control message acknowledging the given message id.
    Ack { message_id: Vec<u8> },
    /// The frames to publish: source tag, sequence number, first payload frame.
    Publish { frames: Vec<Vec<u8>> },
}

/// Counters of the ingress stage: messages accepted and messages dropped.
pub struct IngressPump {
    pub count: u64,
    pub dropped: u64,
}

impl IngressPump {
    pub fn new() -> (r: IngressPump)
        ensures
            r.count == 0,
            r.dropped == 0,
    {
        IngressPump { count: 0, dropped: 0 }
    }

    /// Takes one message from the ingress socket. One of fewer than two
    /// frames is dropped. Otherwise it gets the next sequence number; one
    /// tagged `changer.ack` acknowledges its payload frame, any other is
    /// published as `[src, sequence, frames[1]]`.
    pub fn accept(&mut self, frames: Vec<Vec<u8>>) -> (r: IngressAction)
        requires
            old(self).count < u64::MAX,
            old(self).dropped < u64::MAX,
        ensures
            (final(self).count as nat, final(self).dropped as nat) == ingress_next(
                (old(self).count as nat, old(self).dropped as nat),
                frames@.len(),
            ),
            frames@.len() < INGRESS_MIN_FRAMES <==> r is Drop,
            r is Ack <==> frames@.len() >= INGRESS_MIN_FRAMES && frames@[0]@ == ack_tag(),
            r matches IngressAction::Ack { message_id } ==> message_id@ == (if frames@.len() < 3 {
                frames@[1]@
            } else {
                frames@[2]@
            }),
            r matches IngressAction::Publish { frames: out } ==> out.deep_view() == seq![
                frames@[0]@,
                decimal(final(self).count as nat),
                frames@[1]@,
            ],
            r matches IngressAction::Publish { frames: out } ==> out.deep_view()[0] != ack_tag(),
    {
        if frames.len() < INGRESS_MIN_FRAMES {
            self.dropped = self.dropped + 1;
            return IngressAction::Drop;
        }
        self.count = self.count + 1;
        if is_ack_tag(&frames[0]) {
            let message_id = if frames.len() < 3 {
                frames[1].clone()
            } else {
                frames[2].clone()
            };
            assert(message_id@ =~= (if frames@.len() < 3 {
                frames@[1]@
            } else {
                frames@[2]@
            }));
            return IngressAction::Ack { message_id };
        }
        let src = frames[0].clone();
        let payload = frames[1].clone();
        let seq_text = decimal_ascii(self.count);
        assert(src@ =~= frames@[0]@);
        assert(payload@ =~= frames@[1]@);
        assert(src.deep_view() =~= src@);
        assert(payload.deep_view() =~= payload@);
        assert(seq_text.deep_view() =~= seq_text@);
        let ghost parts = (src.deep_view(), seq_text.deep_view(), payload.deep_view());
        let mut out: Vec<Vec<u8>> = Vec::new();
        out.push(src);
        out.push(seq_text);
        out.push(payload);
        assert(out.deep_view() =~= seq![parts.0, parts.1, parts.2]);
        IngressAction::Publish { frames: out }
    }
}

/// Counters of the transform stage: messages handed on and messages dropped.
pub struct TransformPump {
    pub count: u64,
    pub dropped: u64,
}

impl TransformPump {
    pub fn new() -> (r: TransformPump)
        ensures
            r.count == 0,
            r.dropped == 0,
    {
        TransformPump { count: 0, dropped: 0 }
    }

    /// Takes one message from the loopback subscriber. Returns whether it
    /// has the three frames `[src, id, payload]` that the transform needs;
    /// one with fewer is counted as dropped.
    pub fn accept(&mut self, frames: &Vec<Vec<u8>>) -> (r: bool)
        requires
            old(self).count < u64::MAX,
            old(self).dropped < u64::MAX,
        ensures
            r == (frames@.len() >= TRANSFORM_MIN_FRAMES),
            r ==> final(self).count == old(self).count + 1 && final(self).dropped == old(
                self,
            ).dropped,
            !r ==> final(self).dropped == old(self).dropped + 1 && final(self).count == old(
                self,
            ).count,
    {
        if frames.len() < TRANSFORM_MIN_FRAMES {
            self.dropped = self.dropped + 1;
            return false;
        }
        self.count = self.count + 1;
        true
    }
}

} // verus!
