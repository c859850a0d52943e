//! Connection-tracking timeouts and the idle sweep.
use vstd::prelude::*;

use crate::common::{NatKey, NatVal, CT_EST, CT_FIN_FWD, CT_FIN_REV};
use crate::datapath::forward::{Effect, Half};
use crate::datapath::packet::IPPROTO_TCP;
use crate::text::{decimal, decimal_text, join2, parse_unsigned, unsigned_value};

verus! {

/// Idle timeout of an established TCP flow, in seconds. Large, because an idle but live
/// connection must survive a quiet period.
pub const DEFAULT_CT_IDLE_SECS: u64 = 86_400;

/// Idle timeout of everything else, in seconds: half-open and closing TCP flows, and UDP.
pub const DEFAULT_CT_SHORT_SECS: u64 = 60;

/// How often the sweep runs, in seconds.
pub const DEFAULT_CT_GC_SECS: u64 = 30;

/// The idle timeouts of the sweep, in nanoseconds.
#[derive(Clone, Copy, Debug, PartialEq, Eq, Structural)]
pub struct CtTimeouts {
    pub established_ns: u64,
    pub short_ns: u64,
}

/// The seconds that a setting gives: its value where it is a positive number of 64 bits, else the
/// default.
pub open spec fn secs_setting(value: Option<&str>, default: u64) -> u64 {
    match value {
        Some(s) => match unsigned_value(s@) {
            Some(v) => if 0 < v <= u64::MAX {
                v as u64
            } else {
                default
            },
            None => default,
        },
        None => default,
    }
}

/// Nanoseconds in `secs` seconds, or the largest number where they are more.
pub open spec fn ns_of_secs(secs: u64) -> u64 {
    if secs * 1_000_000_000 <= u64::MAX {
        (secs * 1_000_000_000) as u64
    } else {
        u64::MAX
    }
}

/// Nanoseconds in `secs` seconds, or the largest number where they are more.
pub fn secs_to_ns(secs: u64) -> (r: u64)
    ensures
        r == ns_of_secs(secs),
{
    match secs.checked_mul(1_000_000_000) {
        Some(ns) => ns,
        None => u64::MAX,
    }
}

fn env_secs(value: Option<&str>, default: u64) -> (r: u64)
    ensures
        r == secs_setting(value, default),
{
    match value {
        Some(s) => match parse_unsigned(s, u64::MAX) {
            Some(v) => if v > 0 {
                v
            } else {
                default
            },
            None => default,
        },
        None => default,
    }
}

/// The configured idle timeouts: `idle` is the setting for established TCP flows, `short` the one
/// for everything else.
pub fn timeouts(idle: Option<&str>, short: Option<&str>) -> (r: CtTimeouts)
    ensures
        r.established_ns == ns_of_secs(secs_setting(idle, DEFAULT_CT_IDLE_SECS)),
        r.short_ns == ns_of_secs(secs_setting(short, DEFAULT_CT_SHORT_SECS)),
{
    CtTimeouts {
        established_ns: secs_to_ns(env_secs(idle, DEFAULT_CT_IDLE_SECS)),
        short_ns: secs_to_ns(env_secs(short, DEFAULT_CT_SHORT_SECS)),
    }
}

/// How often the sweep runs, in seconds; never zero.
pub fn gc_interval(value: Option<&str>) -> (secs: u64)
    ensures
        secs == secs_setting(value, DEFAULT_CT_GC_SECS),
        secs > 0,
{
    env_secs(value, DEFAULT_CT_GC_SECS)
}


// ── The idle sweep ───────────────────────────────────────────────────────────

/// An entry of one of the tables, and what its partner's key leads to in the other table.
#[derive(Clone, Copy, Debug, PartialEq, Eq)]
pub struct CtEntry {
    pub half: Half,
    pub key: NatKey,
    pub val: NatVal,
    pub other: Option<NatVal>,
}

/// What a sweep has looked at, and what it has reclaimed.
#[derive(Clone, Copy, Debug, PartialEq, Eq, Structural)]
pub struct GcStats {
    pub scanned: usize,
    pub evicted: usize,
}

/// What a sweep comes to: the removals in order, and the counts.
pub struct Sweep {
    pub removals: Vec<Effect>,
    pub stats: GcStats,
}

/// The table of the other direction.
pub open spec fn opposite(half: Half) -> Half {
    match half {
        Half::Forward => Half::Reverse,
        Half::Reverse => Half::Forward,
    }
}

/// When the later of two halves was last seen.
pub open spec fn latest(a: u64, b: u64) -> u64 {
    if a < b {
        b
    } else {
        a
    }
}

/// How long ago `since` is: nothing where it is yet to come.
pub open spec fn age(now: u64, since: u64) -> int {
    if now < since {
        0
    } else {
        now - since
    }
}

/// How long a flow may be idle, given the state of its halves taken together: long where it is a
/// TCP flow with traffic in both directions and no FIN, else short.
pub open spec fn allowance(proto: u8, state: u8, t: CtTimeouts) -> u64 {
    if proto == IPPROTO_TCP && state & CT_EST != 0 && state & (CT_FIN_FWD | CT_FIN_REV) == 0 {
        t.established_ns
    } else {
        t.short_ns
    }
}

impl CtEntry {
    /// The other half of the flow: the entry under the partner's key, where it names this one as
    /// its partner.
    pub open spec fn sibling(self) -> Option<NatVal> {
        match self.other {
            Some(o) => if o.partner == self.key {
                Some(o)
            } else {
                None
            },
            None => None,
        }
    }

    /// Whether the flow was idle in both directions for longer than it may be.
    pub open spec fn expired(self, now: u64, t: CtTimeouts) -> bool {
        match self.sibling() {
            Some(o) => age(now, latest(self.val.last_seen, o.last_seen)) > allowance(
                self.key.proto,
                self.val.state | o.state,
                t,
            ),
            None => age(now, self.val.last_seen) > allowance(self.key.proto, self.val.state, t),
        }
    }

    /// The removals that forget the flow: this half, and the other where there is one.
    pub open spec fn removals(self) -> Seq<Effect> {
        let own = Effect::Remove { half: self.half, key: self.key };
        if self.sibling() is Some {
            seq![own, Effect::Remove { half: opposite(self.half), key: self.val.partner }]
        } else {
            seq![own]
        }
    }
}

/// The removals for the entries whose flow has expired, in order.
pub open spec fn sweep_removals(entries: Seq<CtEntry>, now: u64, t: CtTimeouts) -> Seq<Effect>
    decreases entries.len(),
{
    if entries.len() == 0 {
        Seq::empty()
    } else {
        let front = sweep_removals(entries.drop_last(), now, t);
        if entries.last().expired(now, t) {
            front + entries.last().removals()
        } else {
            front
        }
    }
}

/// How many entries belong to flows that have expired.
pub open spec fn expired_count(entries: Seq<CtEntry>, now: u64, t: CtTimeouts) -> nat
    decreases entries.len(),
{
    if entries.len() == 0 {
        0
    } else {
        expired_count(entries.drop_last(), now, t) + if entries.last().expired(now, t) {
            1nat
        } else {
            0nat
        }
    }
}

fn same_key(a: NatKey, b: NatKey) -> (r: bool)
    ensures
        r == (a == b),
{
    let r: bool = a.src_ip == b.src_ip && a.dst_ip == b.dst_ip && a.src_port == b.src_port
        && a.dst_port == b.dst_port && a.proto == b.proto && a._pad[0] == b._pad[0] && a._pad[1]
        == b._pad[1] && a._pad[2] == b._pad[2];
    proof {
        if r {
            assert(a._pad@ =~= b._pad@);
            assert(a._pad =~= b._pad);
        }
    }
    r
}

fn entry_expired(e: &CtEntry, now: u64, t: CtTimeouts) -> (r: bool)
    ensures
        r == e.expired(now, t),
{
    let mut seen: u64 = e.val.last_seen;
    let mut state: u8 = e.val.state;
    if let Some(o) = e.other {
        if same_key(o.partner, e.key) {
            if seen < o.last_seen {
                seen = o.last_seen;
            }
            state = state | o.state;
        }
    }
    let idle: u64 = if now < seen {
        0
    } else {
        now - seen
    };
    let allowed: u64 = if e.key.proto == IPPROTO_TCP && state & CT_EST != 0 && state & (CT_FIN_FWD
        | CT_FIN_REV) == 0 {
        t.established_ns
    } else {
        t.short_ns
    };
    idle > allowed
}

/// Looks at every entry of the tables, and gives the removals of the flows that have been idle for
/// too long.
pub fn ct_gc(entries: &Vec<CtEntry>, now: u64, timeouts: CtTimeouts) -> (r: Sweep)
    ensures
        r.removals@ == sweep_removals(entries@, now, timeouts),
        r.stats.scanned == entries@.len(),
        r.stats.evicted == expired_count(entries@, now, timeouts),
{
    let mut removals: Vec<Effect> = Vec::new();
    let mut evicted: usize = 0;
    let mut i: usize = 0;
    assert(entries@.take(0) == Seq::<CtEntry>::empty());
    while i < entries.len()
        invariant
            i <= entries.len(),
            evicted <= i,
            removals@ == sweep_removals(entries@.take(i as int), now, timeouts),
            evicted == expired_count(entries@.take(i as int), now, timeouts),
        decreases entries.len() - i,
    {
        assert(entries@.take(i + 1).drop_last() == entries@.take(i as int));
        assert(entries@.take(i + 1).last() == entries@[i as int]);
        let e: CtEntry = entries[i];
        if entry_expired(&e, now, timeouts) {
            let ghost before = removals@;
            evicted = evicted + 1;
            removals.push(Effect::Remove { half: e.half, key: e.key });
            if let Some(o) = e.other {
                if same_key(o.partner, e.key) {
                    let half: Half = match e.half {
                        Half::Forward => Half::Reverse,
                        Half::Reverse => Half::Forward,
                    };
                    removals.push(Effect::Remove { half, key: e.val.partner });
                }
            }
            assert(removals@ == before + e.removals());
        }
        i = i + 1;
    }
    assert(entries@.take(i as int) == entries@);
    Sweep { removals, stats: GcStats { scanned: entries.len(), evicted } }
}

/// What is reported of a sweep: what it reclaimed, where it reclaimed something, or why it failed.
pub fn gc_tick(result: &Result<GcStats, String>) -> (r: Option<String>)
    ensures
        match *result {
            Ok(stats) => if stats.evicted > 0 {
                r matches Some(m) && m@ == "conntrack gc: scanned="@ + decimal(
                    stats.scanned as nat,
                ) + " evicted="@ + decimal(stats.evicted as nat)
            } else {
                r is None
            },
            Err(e) => r matches Some(m) && m@ == "conntrack gc: failed: "@ + e@,
        },
{
    match result {
        Ok(stats) => {
            if stats.evicted > 0 {
                let mut m: String = join2(
                    "conntrack gc: scanned=",
                    decimal_text(stats.scanned as u64).as_str(),
                );
                m.append(" evicted=");
                m.append(decimal_text(stats.evicted as u64).as_str());
                Some(m)
            } else {
                None
            }
        },
        Err(e) => Some(join2("conntrack gc: failed: ", e.as_str())),
    }
}

}
