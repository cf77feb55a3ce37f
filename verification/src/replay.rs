//! An operation that is run again, with more replies, goes on where it stopped.

use vstd::prelude::*;

use crate::bus::{Delay, I2cBus};
use crate::determinism;
use crate::faults;
use crate::interface;
use crate::interface::{Entry, I2cInterface, Transfer, Transport};
use crate::link::Link;
use crate::playback::{NoReply, Playback};
use crate::trace;
use crate::trace::{Event, Trace};
use crate::types::Error;

verus! {

/// The history `t` is what was done over `iface` since nothing was asked of its
/// bus.
pub open spec fn served(iface: I2cInterface<Playback>, t: Trace<NoReply>) -> bool {
    &&& iface.log() == trace::entries(iface.target(), t)
    &&& trace::plain(t)
}

/// This is so of a link that was made on a bus of which nothing was asked before.
pub proof fn fresh_link_served<D: Delay>(link: Link<I2cInterface<Playback>, D>)
    requires
        link.wf(),
        link.origin().entries.len() == 0,
    ensures
        served(*link.iface(), link.history()),
{
    assert(link.iface().log() =~= trace::entries(link.iface().target(), link.history()));
}

/// Where the access `t[i]` stands among the accesses.
proof fn lemma_index<X>(target: int, t: Seq<Event<X>>, i: int)
    requires
        0 <= i < t.len(),
        t[i] is Access,
    ensures
        trace::entries(target, t.take(i)).len() < trace::entries(target, t).len(),
        trace::entries(target, t)[trace::entries(target, t.take(i)).len() as int] == (Entry {
            target,
            transfer: t[i]->Access_0,
        }),
    decreases t.len(),
{
    if i == t.len() - 1 {
        assert(t.take(i) =~= t.drop_last());
    } else {
        assert(t.drop_last().take(i) =~= t.take(i));
        lemma_index(target, t.drop_last(), i);
    }
}

/// The access with number `m`.
proof fn lemma_find<X>(target: int, t: Seq<Event<X>>, m: int) -> (i: int)
    requires
        0 <= m < trace::entries(target, t).len(),
    ensures
        0 <= i < t.len(),
        t[i] is Access,
        trace::entries(target, t.take(i)).len() == m,
    decreases t.len(),
{
    let less = t.drop_last();
    if m < trace::entries(target, less).len() {
        let i = lemma_find(target, less, m);
        assert(less.take(i) =~= t.take(i));
        i
    } else {
        assert(t.take(t.len() - 1) =~= less);
        t.len() - 1
    }
}

/// A beginning of a history has the beginning of its pauses.
proof fn lemma_pauses<X>(a: Seq<Event<X>>, t: Seq<Event<X>>)
    requires
        a.is_prefix_of(t),
    ensures
        trace::pauses(a).is_prefix_of(trace::pauses(t)),
    decreases t.len(),
{
    if a.len() == t.len() {
        assert(a =~= t);
    } else {
        lemma_pauses(a, t.drop_last());
    }
}

/// A request beyond the replies is the last of its run.
proof fn lemma_unserved<T>(
    iface: I2cInterface<Playback>,
    s: Trace<NoReply>,
    q: Result<T, Error<NoReply>>,
    verdicts: Set<Error<NoReply>>,
    i: int,
)
    requires
        served(iface, s),
        faults::ends(s, faults::error_of(q), verdicts),
        0 <= i < s.len(),
        s[i] is Access,
        trace::entries(iface.target(), s.take(i)).len() >= iface.i2c().replies@.len(),
    ensures
        i == s.len() - 1,
        determinism::same_action(s[i], s[i]),
        trace::pauses(s) == trace::pauses(s.drop_last()),
{
    let m = trace::entries(iface.target(), s.take(i)).len() as int;
    lemma_index(iface.target(), s, i);
    assert(iface.log()[m] == interface::access(iface.i2c().event(m), iface.buffer(m)));
    assert(s[i] != Event::<Error<NoReply>>::Access(Transfer::Other));
    assert(trace::fault(s[i]) is Some);
}

/// An operation ran on a bus with too few replies. Run again on a bus with the
/// same replies and more, it does the same, with the same outcomes, up to the
/// request that had no reply, and then makes that request again; the pauses
/// before that are the same. Both runs are of one operation, so that the answers
/// decide what it does, and no access follows one that failed.
pub proof fn replay_continues<T>(
    first: I2cInterface<Playback>,
    s: Trace<NoReply>,
    q: Result<T, Error<NoReply>>,
    second: I2cInterface<Playback>,
    t: Trace<NoReply>,
    r: Result<T, Error<NoReply>>,
    verdicts: Set<Error<NoReply>>,
)
    requires
        first.address() == second.address(),
        served(first, s),
        served(second, t),
        first.i2c().replies@.is_prefix_of(second.i2c().replies@),
        first.i2c().asked@.len() > first.i2c().replies@.len(),
        faults::ends(s, faults::error_of(q), verdicts),
        determinism::decided(s, q, t, r),
    ensures
        0 < s.len() <= t.len(),
        forall|j: int| 0 <= j < s.len() - 1 ==> s[j] == #[trigger] t[j],
        determinism::same_action(s.last(), t[s.len() - 1]),
        first.i2c().asked@.len() == first.i2c().replies@.len() + 1,
        trace::pauses(s).is_prefix_of(trace::pauses(t)),
{
    let target = first.target();
    let (a, b) = (*first.i2c(), *second.i2c());
    let n = a.replies@.len() as int;
    assert(first.log().len() == a.asked@.len());
    let k = lemma_find(target, s, n);
    lemma_unserved(first, s, q, verdicts, k);
    assert(s.take(k) =~= s.drop_last());
    if determinism::part(s, t) {
        let i = choose|i: int| #[trigger] determinism::part_at(s, t, i);
        let m = trace::entries(target, s.take(i)).len() as int;
        assert(s.take(i) =~= t.take(i)) by {
            assert forall|j: int| 0 <= j < i implies s[j] == t[j] by {}
        }
        lemma_index(target, s, i);
        lemma_index(target, t, i);
        assert(first.log()[m] == interface::access(a.event(m), first.buffer(m)));
        assert(second.log()[m] == interface::access(b.event(m), second.buffer(m)));
        if m < n {
            assert(a.replies@[m] == b.replies@[m]);
            assert(s[i] == t[i]);
        }
        lemma_unserved(first, s, q, verdicts, i);
        assert(s.drop_last().is_prefix_of(t));
        lemma_pauses(s.drop_last(), t);
    }
}

} // verus!
