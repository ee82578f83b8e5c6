//! The inbox pump's memory: which messages have been handed on already.

use std::collections::hash_map::DefaultHasher;
use std::collections::{HashSet, VecDeque};

use vstd::prelude::*;
use vstd::std_specs::hash::DefaultHasherAdditionalSpecFns;

use crate::coord::{Coord, CoordView};
use crate::message;
use crate::message::{AppMessage, MessageView};

verus! {

broadcast use vstd::std_specs::hash::group_hash_axioms;

/// How many fingerprints the pump remembers.
pub const SEEN_LIMIT: usize = 8192;

/// How long the pump sleeps between two polls of the inbox, in milliseconds.
pub const POLL_INTERVAL_MS: u64 = 250;

/// The fingerprint of a message.
pub open spec fn fingerprint_of(m: MessageView) -> u64 {
    DefaultHasher::spec_finish(message::fingerprint_writes(m))
}

/// The remembered fingerprints, oldest first, after one more was seen. One that is remembered
/// changes nothing; a new one goes to the end, and the oldest goes when there are too many.
pub open spec fn remembered(order: Seq<u64>, fp: u64) -> Seq<u64> {
    if order.contains(fp) {
        order
    } else if order.len() == SEEN_LIMIT {
        order.push(fp).drop_first()
    } else {
        order.push(fp)
    }
}

/// The remembered fingerprints after a list of further ones.
pub open spec fn remembered_all(order: Seq<u64>, fps: Seq<u64>) -> Seq<u64>
    decreases fps.len(),
{
    if fps.len() == 0 {
        order
    } else {
        remembered(remembered_all(order, fps.drop_last()), fps.last())
    }
}

/// Those among a list of further fingerprints that are new when they come, in order.
pub open spec fn accepted(order: Seq<u64>, fps: Seq<u64>) -> Seq<u64>
    decreases fps.len(),
{
    if fps.len() == 0 {
        Seq::empty()
    } else {
        let earlier = accepted(order, fps.drop_last());
        if remembered_all(order, fps.drop_last()).contains(fps.last()) {
            earlier
        } else {
            earlier.push(fps.last())
        }
    }
}

/// The last ones of a list, up to the limit.
pub open spec fn latest(fps: Seq<u64>) -> Seq<u64> {
    if fps.len() <= SEEN_LIMIT {
        fps
    } else {
        fps.skip(fps.len() - SEEN_LIMIT)
    }
}

/// The handler that a message goes to: the one registered for its topic, unless its fingerprint is
/// remembered.
pub open spec fn handler_for<H>(order: Seq<u64>, coord: CoordView<H>, m: MessageView) -> Option<H> {
    if order.contains(fingerprint_of(m)) {
        None
    } else {
        coord.handler_of(m.topic)
    }
}

/// The token and the bytes of the reply to a message for which a handler gave `answer`, if a reply
/// is due.
pub open spec fn reply_for(m: MessageView, answer: Option<Seq<u8>>) -> Option<(u64, Seq<u8>)> {
    match (m.reply_token, answer) {
        (Some(token), Some(bytes)) => Some((token, bytes)),
        _ => None,
    }
}

/// Bounded de-dup, so that a message seen across two polls is not handed on twice.
pub struct Pump {
    seen_order: VecDeque<u64>,
    seen: HashSet<u64>,
}

impl View for Pump {
    type V = Seq<u64>;

    /// The remembered fingerprints, oldest first.
    closed spec fn view(&self) -> Seq<u64> {
        self.seen_order@
    }
}

impl Pump {
    /// Nothing is remembered twice, no more than the limit is, and the two collections agree.
    pub closed spec fn wf(&self) -> bool {
        &&& self.seen_order@.no_duplicates()
        &&& self.seen_order@.len() <= SEEN_LIMIT
        &&& self.seen@ == self.seen_order@.to_set()
    }

    /// The pump's memory is bounded.
    pub proof fn memory_is_bounded(&self)
        requires
            self.wf(),
        ensures
            self@.len() <= SEEN_LIMIT,
            self@.no_duplicates(),
    {
    }

    /// A pump that has seen nothing.
    pub fn new() -> (pump: Self)
        ensures
            pump.wf(),
            pump@ == Seq::<u64>::empty(),
    {
        let pump = Pump { seen_order: VecDeque::new(), seen: HashSet::new() };
        assert(pump.seen@ =~= pump.seen_order@.to_set());
        pump
    }

    /// Takes note of a fingerprint, and says whether it is a new one.
    pub fn observe(&mut self, fp: u64) -> (fresh: bool)
        requires
            old(self).wf(),
        ensures
            final(self).wf(),
            fresh == !old(self)@.contains(fp),
            final(self)@ == remembered(old(self)@, fp),
    {
        let ghost order = self.seen_order@;
        if !self.seen.insert(fp) {
            assert(self.seen@ =~= order.to_set());
            return false;
        }
        self.seen_order.push_back(fp);
        assert(self.seen@ =~= self.seen_order@.to_set()) by {
            lemma_push_to_set(order, fp);
        }
        if self.seen_order.len() > SEEN_LIMIT {
            let ghost longer = self.seen_order@;
            if let Some(oldest) = self.seen_order.pop_front() {
                self.seen.remove(&oldest);
                assert(self.seen_order@ =~= longer.drop_first());
                assert(self.seen@ =~= self.seen_order@.to_set()) by {
                    lemma_drop_first_to_set(longer);
                }
            }
        }
        true
    }

    /// Takes one message out of the inbox, and picks the handler it goes to: the one registered
    /// for its topic, unless the message was handed on before.
    pub fn dispatch<'a, H>(&mut self, coord: &'a Coord<H>, msg: &AppMessage) -> (handler: Option<
        &'a H,
    >)
        requires
            old(self).wf(),
        ensures
            final(self).wf(),
            final(self)@ == remembered(old(self)@, fingerprint_of(msg@)),
            match handler {
                Some(h) => handler_for(old(self)@, coord@, msg@) == Some(*h),
                None => handler_for(old(self)@, coord@, msg@) is None,
            },
            match handler {
                Some(h) => {
                    &&& !old(self)@.contains(fingerprint_of(msg@))
                    &&& coord@.handler_of(msg@.topic) == Some(*h)
                },
                None => {
                    ||| old(self)@.contains(fingerprint_of(msg@))
                    ||| coord@.handler_of(msg@.topic) is None
                },
            },
    {
        let fp: u64 = message::fingerprint(msg);
        if !self.observe(fp) {
            return None;
        }
        coord.handler(msg.topic.as_str())
    }
}

/// An answer on its way back to the sender of a message.
#[derive(Debug)]
pub struct Reply {
    pub token: u64,
    pub bytes: Vec<u8>,
}

/// Addresses what a handler answered. There is nothing to send when the handler gave no answer or
/// the sender of the message waits for none.
pub fn reply_to(msg: &AppMessage, answer: Option<Vec<u8>>) -> (reply: Option<Reply>)
    ensures
        match reply {
            Some(r) => {
                &&& answer matches Some(a)
                &&& a@ == r.bytes@
                &&& msg@.reply_token == Some(r.token)
            },
            None => answer is None || msg@.reply_token is None,
        },
        match reply {
            Some(r) => Some((r.token, r.bytes@)),
            None => None,
        } == reply_for(
            msg@,
            match answer {
                Some(a) => Some(a@),
                None => None,
            },
        ),
{
    match answer {
        Some(bytes) => match msg.reply_token {
            Some(token) => Some(Reply { token, bytes }),
            None => None,
        },
        None => None,
    }
}

/// A message whose fingerprint is not remembered goes to the handler of its topic, whatever it
/// holds. One that is remembered goes to none, and so does the same message right after it came.
pub proof fn new_messages_are_handed_on<H>(order: Seq<u64>, coord: CoordView<H>, m: MessageView)
    requires
        order.len() <= SEEN_LIMIT,
    ensures
        !order.contains(fingerprint_of(m)) ==> handler_for(order, coord, m) == coord.handler_of(
            m.topic,
        ),
        order.contains(fingerprint_of(m)) ==> handler_for(order, coord, m) is None,
        handler_for(remembered(order, fingerprint_of(m)), coord, m) is None,
{
    let fp = fingerprint_of(m);
    let after = remembered(order, fp);
    if !order.contains(fp) {
        assert(after[after.len() - 1] == fp);
    }
}

/// A reply goes out exactly when the handler gave an answer and the sender waits for one. It is
/// that answer, under the sender's token.
pub proof fn answers_reach_those_who_wait(m: MessageView, answer: Option<Seq<u8>>)
    ensures
        reply_for(m, answer) is Some <==> answer is Some && m.reply_token is Some,
        reply_for(m, answer) matches Some((token, bytes)) ==> {
            &&& m.reply_token == Some(token)
            &&& answer == Some(bytes)
        },
{
}

/// The pump remembers exactly the latest fingerprints it accepted, up to the limit.
pub proof fn the_latest_are_remembered(order: Seq<u64>, fps: Seq<u64>)
    requires
        order.len() <= SEEN_LIMIT,
    ensures
        remembered_all(order, fps) == latest(order + accepted(order, fps)),
    decreases fps.len(),
{
    if fps.len() == 0 {
        assert(latest(order + accepted(order, fps)) =~= order);
    } else {
        let shorter = fps.drop_last();
        let fp = fps.last();
        the_latest_are_remembered(order, shorter);
        let all = order + accepted(order, shorter);
        let before = remembered_all(order, shorter);
        assert(remembered_all(order, fps) == remembered(before, fp));
        if before.contains(fp) {
            assert(accepted(order, fps) == accepted(order, shorter));
        } else {
            assert(order + accepted(order, fps) =~= all.push(fp));
            assert(remembered(before, fp) =~= latest(all.push(fp)));
        }
    }
}

/// A message that was handed on is not handed on again before the limit of further messages has
/// been accepted, however many repeated ones come in between. Once that many have been, it is
/// forgotten, and would be handed on again.
pub proof fn handed_on_once(order: Seq<u64>, fp: u64, further: Seq<u64>)
    requires
        order.len() <= SEEN_LIMIT,
        !order.contains(fp),
        accepted(remembered(order, fp), further).len() <= SEEN_LIMIT,
    ensures
        remembered_all(remembered(order, fp), further).contains(fp) <==> accepted(
            remembered(order, fp),
            further,
        ).len() < SEEN_LIMIT,
{
    let start = remembered(order, fp);
    assert(start.last() == fp);
    let news = accepted(start, further);
    the_latest_are_remembered(start, further);
    if news.len() < SEEN_LIMIT {
        lemma_still_remembered(start, further);
    } else {
        lemma_not_accepted_again(start, further);
        assert(latest(start + news) =~= news);
    }
}

/// The newest fingerprint stays remembered while fewer than the limit of others are accepted.
proof fn lemma_still_remembered(start: Seq<u64>, further: Seq<u64>)
    requires
        0 < start.len() <= SEEN_LIMIT,
        accepted(start, further).len() < SEEN_LIMIT,
    ensures
        remembered_all(start, further).contains(start.last()),
{
    the_latest_are_remembered(start, further);
    let all = start + accepted(start, further);
    let place = start.len() - 1;
    assert(all[place] == start.last());
    if all.len() <= SEEN_LIMIT {
        assert(latest(all)[place] == start.last());
    } else {
        assert(latest(all)[place - (all.len() - SEEN_LIMIT)] == start.last());
    }
}

/// The newest fingerprint is not among the limit of those accepted next.
proof fn lemma_not_accepted_again(start: Seq<u64>, further: Seq<u64>)
    requires
        0 < start.len() <= SEEN_LIMIT,
        accepted(start, further).len() <= SEEN_LIMIT,
    ensures
        !accepted(start, further).contains(start.last()),
    decreases further.len(),
{
    if further.len() > 0 {
        let shorter = further.drop_last();
        lemma_not_accepted_again(start, shorter);
        if !remembered_all(start, shorter).contains(further.last()) {
            let earlier = accepted(start, shorter);
            lemma_still_remembered(start, shorter);
            assert(accepted(start, further) == earlier.push(further.last()));
            assert forall|k: int| 0 <= k < earlier.push(further.last()).len() implies earlier.push(
                further.last(),
            )[k] != start.last() by {
                if k < earlier.len() {
                    assert(earlier.contains(earlier[k]));
                }
            }
        }
    }
}

proof fn lemma_push_to_set(s: Seq<u64>, x: u64)
    ensures
        s.push(x).to_set() =~= s.to_set().insert(x),
{
    assert forall|y: u64| s.to_set().insert(x).contains(y) implies s.push(x).to_set().contains(
        y,
    ) by {
        if y == x {
            assert(s.push(x)[s.len() as int] == x);
        } else {
            let k = choose|k: int| 0 <= k < s.len() && s[k] == y;
            assert(s.push(x)[k] == y);
        }
    }
}

proof fn lemma_drop_first_to_set(s: Seq<u64>)
    requires
        s.len() > 0,
        s.no_duplicates(),
    ensures
        s.drop_first().to_set() =~= s.to_set().remove(s[0]),
{
    assert forall|y: u64|
        s.to_set().remove(s[0]).contains(y) implies s.drop_first().to_set().contains(y) by {
        let k = choose|k: int| 0 <= k < s.len() && s[k] == y;
        assert(s.drop_first()[k - 1] == y);
    }
}

} // verus!
