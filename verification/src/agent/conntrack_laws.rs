//! What holds of the timeouts, and what the idle sweep does to the tables of flows.
use vstd::prelude::*;

use crate::agent::conntrack::{
    expired_count, ns_of_secs, opposite, secs_setting, sweep_removals, CtEntry, CtTimeouts,
};
use crate::common::{NatKey, NatVal, CT_EST, CT_FIN_FWD, CT_FIN_REV};
use crate::datapath::forward::{Effect, Half};
use crate::datapath::laws::{linked, lookup, Tables};
use crate::datapath::packet::{IPPROTO_TCP, IPPROTO_UDP};
use crate::text::{decimal, law_numerals, unsigned_value};

verus! {

/// More seconds make no shorter timeout: the nanoseconds grow with the seconds, up to the largest
/// number of 64 bits, and are exact below it.
pub proof fn law_timeouts_grow(a: u64, b: u64)
    requires
        a <= b,
    ensures
        ns_of_secs(a) <= ns_of_secs(b),
        ns_of_secs(a) as int == (if a * 1_000_000_000 <= u64::MAX {
            a * 1_000_000_000
        } else {
            u64::MAX as int
        }),
{
}

/// The table of a half.
pub open spec fn table(t: Tables, half: Half) -> Map<NatKey, NatVal> {
    match half {
        Half::Forward => t.forward,
        Half::Reverse => t.reverse,
    }
}

/// What a sweep sees of the entry under a key.
pub open spec fn entry_of(t: Tables, half: Half, k: NatKey) -> CtEntry {
    let val = table(t, half)[k];
    CtEntry { half, key: k, val, other: lookup(table(t, opposite(half)), val.partner) }
}

/// Whether the flow of the entry under a key has been idle for too long.
pub open spec fn idle(t: Tables, half: Half, k: NatKey, now: u64, timeouts: CtTimeouts) -> bool {
    entry_of(t, half, k).expired(now, timeouts)
}

/// Whether a sweep sees all entries of the tables, and nothing else.
pub open spec fn snapshot(entries: Seq<CtEntry>, t: Tables) -> bool {
    &&& forall|i: int|
        0 <= i < entries.len() ==> {
            let e = #[trigger] entries[i];
            &&& table(t, e.half).dom().contains(e.key)
            &&& e == entry_of(t, e.half, e.key)
        }
    &&& forall|half: Half, k: NatKey| #[trigger]
        table(t, half).dom().contains(k) ==> entries.contains(entry_of(t, half, k))
}

spec fn only_removals(effects: Seq<Effect>) -> bool {
    forall|i: int| 0 <= i < effects.len() ==> #[trigger] effects[i] is Remove
}

proof fn lemma_removed(t: Tables, effects: Seq<Effect>)
    requires
        only_removals(effects),
    ensures
        ({
            let r = t.apply_all(effects);
            &&& r.services == t.services
            &&& r.backends == t.backends
            &&& forall|half: Half, k: NatKey| #[trigger]
                table(r, half).dom().contains(k) <==> table(t, half).dom().contains(k)
                    && !effects.contains(Effect::Remove { half, key: k })
            &&& forall|half: Half, k: NatKey| #[trigger]
                table(r, half).dom().contains(k) ==> table(r, half)[k] == table(t, half)[k]
        }),
    decreases effects.len(),
{
    if effects.len() > 0 {
        let front = effects.drop_last();
        assert forall|i: int| 0 <= i < front.len() implies #[trigger] front[i] is Remove by {
            assert(front[i] == effects[i]);
        }
        lemma_removed(t, front);
        let m = t.apply_all(front);
        let last = effects[effects.len() - 1];
        assert(last is Remove);
        let r = m.apply(last);
        assert forall|half: Half, k: NatKey| #[trigger]
            table(r, half).dom().contains(k) <==> table(t, half).dom().contains(k)
                && !effects.contains(Effect::Remove { half, key: k }) by {
            let e = Effect::Remove { half, key: k };
            if front.contains(e) {
                let i = choose|i: int| 0 <= i < front.len() && front[i] == e;
                assert(effects[i] == e);
            }
            if effects.contains(e) && e != last {
                let i = choose|i: int| 0 <= i < effects.len() && effects[i] == e;
                assert(front[i] == e);
            }
            assert(table(m, half).dom().contains(k) <==> table(t, half).dom().contains(k)
                && !front.contains(e));
        }
        assert forall|half: Half, k: NatKey| #[trigger]
            table(r, half).dom().contains(k) implies table(r, half)[k] == table(t, half)[k] by {
            assert(table(m, half).dom().contains(k));
        }
    }
}

proof fn lemma_sweep(entries: Seq<CtEntry>, now: u64, timeouts: CtTimeouts)
    ensures
        only_removals(sweep_removals(entries, now, timeouts)),
        forall|e: Effect| #[trigger]
            sweep_removals(entries, now, timeouts).contains(e) ==> exists|i: int|
                0 <= i < entries.len() && (#[trigger] entries[i]).expired(now, timeouts)
                    && entries[i].removals().contains(e),
        forall|i: int, e: Effect|
            0 <= i < entries.len() && entries[i].expired(now, timeouts)
                && #[trigger] entries[i].removals().contains(e) ==> sweep_removals(
                entries,
                now,
                timeouts,
            ).contains(e),
    decreases entries.len(),
{
    let s = sweep_removals(entries, now, timeouts);
    if entries.len() > 0 {
        let front = entries.drop_last();
        let last = entries[entries.len() - 1];
        lemma_sweep(front, now, timeouts);
        let s0 = sweep_removals(front, now, timeouts);
        let add = if last.expired(now, timeouts) {
            last.removals()
        } else {
            Seq::empty()
        };
        assert(s == s0 + add);
        assert forall|i: int| 0 <= i < s.len() implies #[trigger] s[i] is Remove by {
            if i < s0.len() {
                assert(s[i] == s0[i]);
            } else {
                assert(s[i] == add[i - s0.len()]);
            }
        }
        assert forall|e: Effect| #[trigger] s.contains(e) implies exists|i: int|
            0 <= i < entries.len() && (#[trigger] entries[i]).expired(now, timeouts)
                && entries[i].removals().contains(e) by {
            let j = choose|j: int| 0 <= j < s.len() && s[j] == e;
            if j < s0.len() {
                assert(s0[j] == e);
                assert(s0.contains(e));
                let i = choose|i: int|
                    0 <= i < front.len() && (#[trigger] front[i]).expired(now, timeouts)
                        && front[i].removals().contains(e);
                assert(entries[i] == front[i]);
            } else {
                assert(add[j - s0.len()] == e);
                assert(add.contains(e));
                assert(entries[entries.len() - 1].removals().contains(e));
            }
        }
        assert forall|i: int, e: Effect|
            0 <= i < entries.len() && entries[i].expired(now, timeouts)
                && #[trigger] entries[i].removals().contains(e) implies s.contains(e) by {
            if i < front.len() {
                assert(front[i] == entries[i]);
                assert(front[i].removals().contains(e));
                assert(s0.contains(e));
                let j = choose|j: int| 0 <= j < s0.len() && s0[j] == e;
                assert(s[j] == e);
            } else {
                let j = choose|j: int| 0 <= j < add.len() && add[j] == e;
                assert(s[s0.len() + j] == e);
            }
        }
    }
}

/// The two halves of a flow are idle together.
proof fn lemma_halves_agree(t: Tables, half: Half, k: NatKey, now: u64, timeouts: CtTimeouts)
    requires
        linked(t),
        table(t, half).dom().contains(k),
        entry_of(t, half, k).sibling() is Some,
    ensures
        ({
            let p = table(t, half)[k].partner;
            &&& table(t, opposite(half)).dom().contains(p)
            &&& entry_of(t, opposite(half), p).sibling() == Some(table(t, half)[k])
            &&& table(t, opposite(half))[p].partner == k
            &&& idle(t, opposite(half), p, now, timeouts) == idle(t, half, k, now, timeouts)
        }),
{
    let v = table(t, half)[k];
    let p = v.partner;
    let o = table(t, opposite(half))[p];
    let (a, b) = (v.state, o.state);
    assert(a | b == b | a) by (bit_vector);
    assert(opposite(opposite(half)) == half);
    assert(entry_of(t, opposite(half), p).sibling() == Some(v));
    assert(p.proto == k.proto);
}

/// A sweep forgets exactly the flows that have been idle for too long: an entry stays if and only if
/// its flow has not been, and what stays is not changed. So no flow is forgotten that had a packet in
/// either direction within its time, and none stays that had not.
pub proof fn law_sweep_forgets_idle_flows(
    t: Tables,
    entries: Seq<CtEntry>,
    now: u64,
    timeouts: CtTimeouts,
)
    requires
        linked(t),
        snapshot(entries, t),
    ensures
        ({
            let r = t.apply_all(sweep_removals(entries, now, timeouts));
            &&& forall|half: Half, k: NatKey| #[trigger]
                table(r, half).dom().contains(k) <==> table(t, half).dom().contains(k) && !idle(
                    t,
                    half,
                    k,
                    now,
                    timeouts,
                )
            &&& forall|half: Half, k: NatKey| #[trigger]
                table(r, half).dom().contains(k) ==> table(r, half)[k] == table(t, half)[k]
            &&& r.services == t.services
            &&& r.backends == t.backends
        }),
{
    let s = sweep_removals(entries, now, timeouts);
    let r = t.apply_all(s);
    lemma_sweep(entries, now, timeouts);
    lemma_removed(t, s);
    assert forall|half: Half, k: NatKey| #[trigger] table(r, half).dom().contains(k) <==> table(
        t,
        half,
    ).dom().contains(k) && !idle(t, half, k, now, timeouts) by {
        let e = Effect::Remove { half, key: k };
        if table(t, half).dom().contains(k) {
            let own = entry_of(t, half, k);
            assert(entries.contains(own));
            let i = choose|i: int| 0 <= i < entries.len() && entries[i] == own;
            if idle(t, half, k, now, timeouts) {
                assert(own.removals()[0] == e);
                assert(entries[i].removals().contains(e));
                assert(s.contains(e));
            }
            if s.contains(e) {
                let j = choose|j: int|
                    0 <= j < entries.len() && (#[trigger] entries[j]).expired(now, timeouts)
                        && entries[j].removals().contains(e);
                let x = entries[j];
                assert(x == entry_of(t, x.half, x.key));
                if x.half != half || x.key != k {
                    assert(x.sibling() is Some);
                    assert(x.val.partner == k);
                    lemma_halves_agree(t, x.half, x.key, now, timeouts);
                    assert(opposite(x.half) == half);
                }
                assert(idle(t, half, k, now, timeouts));
            }
        }
    }
}

/// A sweep leaves the halves in the tables linked.
pub proof fn law_sweep_keeps_links(
    t: Tables,
    entries: Seq<CtEntry>,
    now: u64,
    timeouts: CtTimeouts,
)
    requires
        linked(t),
        snapshot(entries, t),
    ensures
        linked(t.apply_all(sweep_removals(entries, now, timeouts))),
{
    law_sweep_forgets_idle_flows(t, entries, now, timeouts);
    let r = t.apply_all(sweep_removals(entries, now, timeouts));
    assert forall|k: NatKey| #[trigger] r.forward.dom().contains(k) implies t.forward.dom().contains(
        k,
    ) && r.forward[k] == t.forward[k] by {
        assert(table(r, Half::Forward).dom().contains(k));
    }
    assert forall|k: NatKey| #[trigger] r.reverse.dom().contains(k) implies t.reverse.dom().contains(
        k,
    ) && r.reverse[k] == t.reverse[k] by {
        assert(table(r, Half::Reverse).dom().contains(k));
    }
}

/// A sweep never splits a flow: the two halves stay or go together.
pub proof fn law_sweep_takes_flows_whole(
    t: Tables,
    entries: Seq<CtEntry>,
    now: u64,
    timeouts: CtTimeouts,
    k: NatKey,
)
    requires
        linked(t),
        snapshot(entries, t),
        t.forward.dom().contains(k),
        t.reverse.dom().contains(t.forward[k].partner),
        t.reverse[t.forward[k].partner].partner == k,
    ensures
        ({
            let r = t.apply_all(sweep_removals(entries, now, timeouts));
            r.forward.dom().contains(k) <==> r.reverse.dom().contains(t.forward[k].partner)
        }),
{
    law_sweep_forgets_idle_flows(t, entries, now, timeouts);
    let r = t.apply_all(sweep_removals(entries, now, timeouts));
    assert(table(t, Half::Forward).dom().contains(k));
    lemma_halves_agree(t, Half::Forward, k, now, timeouts);
    assert(table(r, Half::Forward).dom().contains(k) == r.forward.dom().contains(k));
    let p = t.forward[k].partner;
    assert(table(r, Half::Reverse).dom().contains(p) == r.reverse.dom().contains(p));
}

/// A flow that was seen in either direction within the short time is never forgotten, and one that
/// was not within the long time always is, given that the long time is not the shorter one.
pub proof fn law_idle_between_the_times(e: CtEntry, now: u64, t: CtTimeouts)
    requires
        t.short_ns <= t.established_ns,
    ensures
        now <= e.val.last_seen + t.short_ns ==> !e.expired(now, t),
        e.sibling() matches Some(o) ==> (now <= o.last_seen + t.short_ns ==> !e.expired(now, t)),
        e.sibling() is None && now > e.val.last_seen + t.established_ns ==> e.expired(now, t),
        e.sibling() matches Some(o) ==> (now > e.val.last_seen + t.established_ns && now
            > o.last_seen + t.established_ns ==> e.expired(now, t)),
{
}

/// Only a TCP flow with traffic in both directions and no FIN on either half gets the long time; a
/// UDP flow never does.
pub proof fn law_long_time_is_for_established(e: CtEntry, o: NatVal, now: u64, t: CtTimeouts)
    requires
        e.sibling() == Some(o),
    ensures
        e.key.proto == IPPROTO_UDP || (e.val.state | o.state) & CT_EST == 0 || e.val.state
            & CT_FIN_FWD != 0 || e.val.state & CT_FIN_REV != 0 || o.state & CT_FIN_FWD != 0
            || o.state & CT_FIN_REV != 0 ==> e.expired(now, t) == (now > e.val.last_seen
            + t.short_ns && now > o.last_seen + t.short_ns),
        e.key.proto == IPPROTO_TCP && (e.val.state & CT_EST != 0 || o.state & CT_EST != 0)
            && e.val.state & (CT_FIN_FWD | CT_FIN_REV) == 0 && o.state & (CT_FIN_FWD | CT_FIN_REV)
            == 0 ==> e.expired(now, t) == (now > e.val.last_seen + t.established_ns && now
            > o.last_seen + t.established_ns),
{
    let (a, b) = (e.val.state, o.state);
    assert(a & 0x02u8 != 0 || a & 0x04u8 != 0 || b & 0x02u8 != 0 || b & 0x04u8 != 0 ==> (a | b) & (0x02u8
        | 0x04u8) != 0) by (bit_vector);
    assert(a & 0x01u8 != 0 || b & 0x01u8 != 0 ==> (a | b) & 0x01u8 != 0) by (bit_vector);
    assert(a & (0x02u8 | 0x04u8) == 0 && b & (0x02u8 | 0x04u8) == 0 ==> (a | b) & (0x02u8 | 0x04u8) == 0)
        by (bit_vector);
}

/// A setting is taken where it is the numeral of a positive number of 64 bits; a setting that is not
/// there, is zero, does not fit or is no numeral counts as the default.
pub proof fn law_settings_are_numerals(value: &str, n: nat, default: u64)
    ensures
        secs_setting(None, default) == default,
        value@ == decimal(n) && 0 < n <= u64::MAX ==> secs_setting(Some(value), default) == n,
        value@ == decimal(n) && (n == 0 || n > u64::MAX) ==> secs_setting(Some(value), default)
            == default,
        unsigned_value(value@) is None ==> secs_setting(Some(value), default) == default,
        default > 0 ==> secs_setting(Some(value), default) > 0,
{
    law_numerals(value@, n);
}

/// The entries of flows that have been idle for too long are counted, each once.
pub proof fn law_expired_entries_are_counted(
    a: Seq<CtEntry>,
    b: Seq<CtEntry>,
    e: CtEntry,
    now: u64,
    t: CtTimeouts,
)
    ensures
        expired_count(a + b, now, t) == expired_count(a, now, t) + expired_count(b, now, t),
        expired_count(seq![e], now, t) == (if e.expired(now, t) {
            1nat
        } else {
            0nat
        }),
        expired_count(Seq::empty(), now, t) == 0,
    decreases b.len(),
{
    assert(seq![e].drop_last() =~= Seq::<CtEntry>::empty());
    assert(expired_count(Seq::<CtEntry>::empty(), now, t) == 0);
    if b.len() > 0 {
        law_expired_entries_are_counted(a, b.drop_last(), e, now, t);
        assert((a + b).drop_last() =~= a + b.drop_last());
        assert((a + b).last() == b.last());
    } else {
        assert(a + b =~= a);
    }
}


/// A half without its other half goes by its own state: a TCP half with traffic in both directions and
/// no FIN gets the long time, any other the short time.
pub proof fn law_lone_halves_go_by_themselves(e: CtEntry, now: u64, t: CtTimeouts)
    requires
        e.sibling() is None,
    ensures
        ({
            let s = e.val.state;
            let long = e.key.proto == 6 && s % 2 == 1 && (s / 2) % 2 == 0 && (s / 4) % 2 == 0;
            e.expired(now, t) == (now > e.val.last_seen + if long {
                t.established_ns
            } else {
                t.short_ns
            })
        }),
{
    let s = e.val.state;
    assert(s & 1u8 != 0 <==> s % 2 == 1) by (bit_vector);
    assert(s & (2u8 | 4u8) == 0 <==> (s / 2) % 2 == 0 && (s / 4) % 2 == 0) by (bit_vector);
}

/// Two halves belong together exactly where the one found under the other's partner key names it as
/// its own partner.
pub proof fn law_halves_name_each_other(e: CtEntry, o: NatVal)
    ensures
        e.sibling() == Some(o) <==> e.other == Some(o) && o.partner == e.key,
{
}


}
