//! Tickets: what a proxy gets when it has proved that it knows the pairing token, and shows with
//! every request after that. A ticket stands for the process that the proxy said it is.
use vstd::prelude::*;
use vstd::string::*;

use crate::keys::pair_nonce;
use crate::text::{hex_of, same};

verus! {

/// A ticket that was not used for this long is void: seven days, in milliseconds.
pub const IDLE_EXPIRY: u64 = 604_800_000;

/// The most tickets that are kept.
pub const CAP: usize = 4096;

/// One ticket.
pub struct Entry {
    pub ticket: String,
    pub actor: String,
    /// When it was last used, in milliseconds.
    pub last_used: u64,
}

/// The tickets that were issued.
pub struct Tickets {
    pub entries: Vec<Entry>,
}

/// The position of a ticket.
pub open spec fn ticket_pos(es: Seq<Entry>, ticket: Seq<char>) -> Option<int>
    decreases es.len(),
{
    if es.len() == 0 {
        None
    } else {
        match ticket_pos(es.drop_last(), ticket) {
            Some(i) => Some(i),
            None => if es.last().ticket@ == ticket {
                Some(es.len() - 1)
            } else {
                None
            },
        }
    }
}

/// What [`ticket_pos`] finds.
pub proof fn lemma_ticket_pos(es: Seq<Entry>, ticket: Seq<char>)
    ensures
        match ticket_pos(es, ticket) {
            Some(i) => 0 <= i < es.len() && es[i].ticket@ == ticket && forall|j: int|
                0 <= j < i ==> (#[trigger] es[j]).ticket@ != ticket,
            None => forall|j: int| 0 <= j < es.len() ==> (#[trigger] es[j]).ticket@ != ticket,
        },
    decreases es.len(),
{
    if es.len() > 0 {
        lemma_ticket_pos(es.drop_last(), ticket);
        assert(forall|j: int| 0 <= j < es.len() - 1 ==> es.drop_last()[j] == es[j]);
    }
}

/// Whether an entry is still good at `now`.
pub open spec fn is_fresh(e: Entry, now: u64) -> bool {
    now - e.last_used < IDLE_EXPIRY
}

/// The entries that are still good at `now`.
pub open spec fn fresh_entries(es: Seq<Entry>, now: u64) -> Seq<Entry>
    decreases es.len(),
{
    if es.len() == 0 {
        Seq::empty()
    } else {
        let rest = fresh_entries(es.drop_last(), now);
        if is_fresh(es.last(), now) {
            rest.push(es.last())
        } else {
            rest
        }
    }
}

/// The first of the entries that were used longest ago.
pub open spec fn oldest(es: Seq<Entry>) -> int
    decreases es.len(),
{
    if es.len() <= 1 {
        0
    } else {
        let i = oldest(es.drop_last());
        if es.last().last_used < es[i].last_used {
            es.len() - 1
        } else {
            i
        }
    }
}

/// The entries with room for one more: a full store loses the one that was used longest ago.
pub open spec fn with_room(es: Seq<Entry>) -> Seq<Entry> {
    if es.len() >= CAP {
        es.remove(oldest(es))
    } else {
        es
    }
}

/// The entries but for those of a ticket.
pub open spec fn without_ticket(es: Seq<Entry>, ticket: Seq<char>) -> Seq<Entry> {
    match ticket_pos(es, ticket) {
        Some(i) => es.remove(i),
        None => es,
    }
}

/// The store after a ticket was issued at `now`.
pub open spec fn recorded(
    before: Tickets,
    after: Tickets,
    ticket: Seq<char>,
    actor: Seq<char>,
    now: u64,
) -> bool {
    let kept = without_ticket(with_room(fresh_entries(before.entries@, now)), ticket);
    let es = after.entries@;
    &&& es.len() == kept.len() + 1
    &&& es.drop_last() == kept
    &&& es.last().ticket@ == ticket
    &&& es.last().actor@ == actor
    &&& es.last().last_used == now
}

/// The process that a ticket stands for at `now`.
pub open spec fn actor_of(t: Tickets, ticket: Seq<char>, now: u64) -> Option<Seq<char>> {
    match ticket_pos(t.entries@, ticket) {
        Some(i) => if is_fresh(t.entries@[i], now) {
            Some(t.entries@[i].actor@)
        } else {
            None
        },
        None => None,
    }
}

/// The store after a good ticket was used at `now`.
pub open spec fn touched(before: Tickets, after: Tickets, ticket: Seq<char>, now: u64) -> bool {
    let i = ticket_pos(before.entries@, ticket)->0;
    after.entries@ == before.entries@.update(i, Entry { last_used: now, ..before.entries@[i] })
}

/// No two entries have the same ticket, and there are not too many.
pub open spec fn well_formed(t: Tickets) -> bool {
    t.entries@.len() <= CAP && distinct_tickets(t.entries@)
}

fn find(es: &Vec<Entry>, ticket: &str) -> (r: Option<usize>)
    ensures
        match r {
            Some(i) => ticket_pos(es@, ticket@) == Some(i as int) && i < es@.len(),
            None => ticket_pos(es@, ticket@) is None,
        },
{
    proof {
        lemma_ticket_pos(es@, ticket@);
    }
    let mut i: usize = 0;
    while i < es.len()
        invariant
            i <= es@.len(),
            forall|j: int| 0 <= j < i ==> (#[trigger] es@[j]).ticket@ != ticket@,
            match ticket_pos(es@, ticket@) {
                Some(k) => 0 <= k < es@.len() && es@[k].ticket@ == ticket@ && forall|j: int|
                    0 <= j < k ==> (#[trigger] es@[j]).ticket@ != ticket@,
                None => forall|j: int| 0 <= j < es@.len() ==> (#[trigger] es@[j]).ticket@ != ticket@,
            },
        decreases es@.len() - i,
    {
        if same(es[i].ticket.as_str(), ticket) {
            return Some(i);
        }
        i = i + 1;
    }
    None
}

proof fn lemma_fresh_entries(es: Seq<Entry>, now: u64)
    requires
        distinct_tickets(es),
    ensures
        distinct_tickets(fresh_entries(es, now)),
        fresh_entries(es, now).len() <= es.len(),
        forall|i: int|
            0 <= i < fresh_entries(es, now).len() ==> exists|k: int|
                0 <= k < es.len() && #[trigger] es[k] == #[trigger] fresh_entries(es, now)[i],
    decreases es.len(),
{
    if es.len() > 0 {
        let front = es.drop_last();
        assert(forall|j: int| 0 <= j < front.len() ==> front[j] == es[j]);
        lemma_fresh_entries(front, now);
        let rest = fresh_entries(front, now);
        let all = fresh_entries(es, now);
        assert forall|i: int| 0 <= i < all.len() implies exists|k: int|
            0 <= k < es.len() && #[trigger] es[k] == #[trigger] all[i] by {
            if i < rest.len() {
                assert(all[i] == rest[i]);
                let k = choose|k: int| 0 <= k < front.len() && #[trigger] front[k] == rest[i];
                assert(es[k] == all[i]);
            } else {
                assert(all[i] == es[es.len() - 1]);
            }
        }
        assert forall|i: int, j: int| 0 <= i < j < all.len() implies (
        #[trigger] all[i]).ticket@ != (#[trigger] all[j]).ticket@ by {
            assert(all[i] == rest[i]);
            if j < rest.len() {
                assert(all[j] == rest[j]);
            } else {
                let k = choose|k: int| 0 <= k < front.len() && #[trigger] front[k] == rest[i];
                assert(es[k] == all[i]);
            }
        }
    }
}

proof fn lemma_oldest(es: Seq<Entry>)
    requires
        es.len() > 0,
    ensures
        0 <= oldest(es) < es.len(),
        forall|j: int| 0 <= j < es.len() ==> es[oldest(es)].last_used <= (#[trigger] es[j]).last_used,
    decreases es.len(),
{
    if es.len() > 1 {
        lemma_oldest(es.drop_last());
        assert(forall|j: int| 0 <= j < es.len() - 1 ==> es.drop_last()[j] == es[j]);
    }
}

/// No two entries have the same ticket.
pub open spec fn distinct_tickets(es: Seq<Entry>) -> bool {
    forall|i: int, j: int|
        0 <= i < j < es.len() ==> (#[trigger] es[i]).ticket@ != (#[trigger] es[j]).ticket@
}

proof fn lemma_remove_distinct(es: Seq<Entry>, p: int)
    requires
        distinct_tickets(es),
        0 <= p < es.len(),
    ensures
        distinct_tickets(es.remove(p)),
        forall|i: int|
            0 <= i < es.len() - 1 ==> (#[trigger] es.remove(p)[i]).ticket@ != es[p].ticket@,
{
    let kept = es.remove(p);
    assert forall|i: int, j: int| 0 <= i < j < kept.len() implies (#[trigger] kept[i]).ticket@ != (
    #[trigger] kept[j]).ticket@ by {
        let a = if i < p {
            i
        } else {
            i + 1
        };
        let b = if j < p {
            j
        } else {
            j + 1
        };
        assert(kept[i] == es[a] && kept[j] == es[b]);
    }
    assert forall|i: int| 0 <= i < es.len() - 1 implies (#[trigger] kept[i]).ticket@
        != es[p].ticket@ by {
        if i < p {
            assert(kept[i] == es[i]);
        } else {
            assert(kept[i] == es[i + 1]);
        }
    }
}

fn drop_void(es: &mut Vec<Entry>, now: u64)
    ensures
        final(es)@ == fresh_entries(old(es)@, now),
{
    let ghost all = es@;
    let ghost mut k: int = 0;
    let mut i: usize = 0;
    assert(fresh_entries(all.take(0), now) + all.skip(0) =~= all);
    while i < es.len()
        invariant
            0 <= k <= all.len(),
            i == fresh_entries(all.take(k), now).len(),
            es@ == fresh_entries(all.take(k), now) + all.skip(k),
        decreases all.len() - k,
    {
        let ghost good = fresh_entries(all.take(k), now);
        assert(k < all.len());
        assert(all.take(k + 1).drop_last() =~= all.take(k));
        assert(all.take(k + 1).last() == all[k]);
        assert(es@[i as int] == all[k]);
        let used: u64 = es[i].last_used;
        if now < used || now - used < IDLE_EXPIRY {
            assert(good.push(all[k]) + all.skip(k + 1) =~= good + all.skip(k));
            i = i + 1;
        } else {
            let ghost held = es@;
            let _ = es.remove(i);
            assert(held.remove(i as int) =~= good + all.skip(k + 1));
        }
        proof {
            k = k + 1;
        }
    }
    assert(k == all.len()) by {
        assert(es@.len() == fresh_entries(all.take(k), now).len() + (all.len() - k));
    }
    assert(all.take(k) =~= all);
    assert(fresh_entries(all, now) + all.skip(k) =~= fresh_entries(all, now));
}

fn make_room(es: &mut Vec<Entry>)
    requires
        distinct_tickets(old(es)@),
    ensures
        final(es)@ == with_room(old(es)@),
        distinct_tickets(final(es)@),
        old(es)@.len() <= CAP ==> final(es)@.len() < CAP,
{
    let ghost good = es@;
    if es.len() >= CAP {
        let mut low: usize = 0;
        let mut j: usize = 1;
        assert(good.take(1).len() == 1);
        while j < es.len()
            invariant
                es@ == good,
                good.len() >= CAP,
                1 <= j <= good.len(),
                low == oldest(good.take(j as int)),
                low < j,
            decreases good.len() - j,
        {
            assert(good.take(j + 1).drop_last() =~= good.take(j as int));
            assert(good.take(j + 1).last() == good[j as int]);
            assert(good.take(j + 1)[low as int] == good[low as int]);
            if es[j].last_used < es[low].last_used {
                low = j;
            }
            j = j + 1;
        }
        assert(good.take(good.len() as int) =~= good);
        let _ = es.remove(low);
        proof {
            lemma_oldest(good);
            lemma_remove_distinct(good, low as int);
        }
    }
}

fn drop_ticket(es: &mut Vec<Entry>, ticket: &str)
    requires
        distinct_tickets(old(es)@),
    ensures
        final(es)@ == without_ticket(old(es)@, ticket@),
        distinct_tickets(final(es)@),
        final(es)@.len() <= old(es)@.len(),
        forall|i: int| 0 <= i < final(es)@.len() ==> (#[trigger] final(es)@[i]).ticket@ != ticket@,
{
    proof {
        lemma_ticket_pos(es@, ticket@);
    }
    match find(es, ticket) {
        Some(i) => {
            let ghost had = es@;
            let _ = es.remove(i);
            proof {
                lemma_remove_distinct(had, i as int);
            }
        },
        None => {},
    }
}

/// Two 32-byte numbers in hexadecimal, one behind the other.
pub open spec fn is_ticket(s: Seq<char>) -> bool {
    exists|a: Seq<u8>, b: Seq<u8>|
        a.len() == 32 && b.len() == 32 && s == #[trigger] hex_of(a) + #[trigger] hex_of(b)
}

proof fn lemma_hex_len(b: Seq<u8>)
    ensures
        hex_of(b).len() == 2 * b.len(),
    decreases b.len(),
{
    if b.len() > 0 {
        lemma_hex_len(b.drop_last());
    }
}

/// No ticket is empty or short: each has 128 characters.
pub proof fn a_ticket_is_long(ticket: Seq<char>)
    requires
        is_ticket(ticket),
    ensures
        ticket.len() == 128,
{
    let (a, b) = choose|a: Seq<u8>, b: Seq<u8>|
        a.len() == 32 && b.len() == 32 && ticket == #[trigger] hex_of(a) + #[trigger] hex_of(b);
    lemma_hex_len(a);
    lemma_hex_len(b);
}

impl Tickets {
    /// No tickets.
    pub fn new() -> (r: Tickets)
        ensures
            r.entries@.len() == 0,
            well_formed(r),
    {
        Tickets { entries: Vec::new() }
    }

    /// Records a ticket: tickets that are void are dropped first, and a full store loses the one
    /// that was used longest ago.
    pub fn record(&mut self, ticket: String, actor: String, now: u64)
        requires
            well_formed(*old(self)),
        ensures
            recorded(*old(self), *final(self), ticket@, actor@, now),
            well_formed(*final(self)),
    {
        proof {
            lemma_fresh_entries(self.entries@, now);
        }
        drop_void(&mut self.entries, now);
        make_room(&mut self.entries);
        drop_ticket(&mut self.entries, ticket.as_str());
        let ghost kept = self.entries@;
        self.entries.push(Entry { ticket, actor, last_used: now });
        assert(self.entries@.drop_last() =~= kept);
    }

    /// Issues a ticket to the process `actor` from what the random source gave: the two numbers one
    /// behind the other. Where either is missing there is no ticket, and nothing changes.
    pub fn issue_from(
        &mut self,
        first: Option<String>,
        second: Option<String>,
        actor: String,
        now: u64,
    ) -> (r: Option<String>)
        requires
            well_formed(*old(self)),
        ensures
            well_formed(*final(self)),
            r is Some <==> first is Some && second is Some,
            match r {
                Some(t) => {
                    &&& t@ == first->0@ + second->0@
                    &&& recorded(*old(self), *final(self), t@, actor@, now)
                },
                None => *final(self) == *old(self),
            },
    {
        match (first, second) {
            (Some(a), Some(b)) => {
                let mut ticket = a;
                ticket.append(b.as_str());
                let r = ticket.clone();
                self.record(ticket, actor, now);
                Some(r)
            },
            _ => None,
        }
    }

    /// Issues a ticket to the process `actor`, `None` where the random source fails.
    pub fn issue(&mut self, actor: String, now: u64) -> (r: Option<String>)
        requires
            well_formed(*old(self)),
        ensures
            well_formed(*final(self)),
            match r {
                Some(t) => {
                    &&& is_ticket(t@)
                    &&& recorded(*old(self), *final(self), t@, actor@, now)
                },
                None => *final(self) == *old(self),
            },
    {
        let first = pair_nonce();
        let second = match &first {
            Some(_) => pair_nonce(),
            None => None,
        };
        self.issue_from(first, second, actor, now)
    }

    /// The process that a ticket stands for. A good ticket counts as used.
    pub fn redeem(&mut self, ticket: &str, now: u64) -> (r: Option<String>)
        ensures
            match r {
                Some(a) => {
                    &&& actor_of(*old(self), ticket@, now) == Some(a@)
                    &&& touched(*old(self), *final(self), ticket@, now)
                },
                None => actor_of(*old(self), ticket@, now) is None && *final(self) == *old(self),
            },
            well_formed(*old(self)) ==> well_formed(*final(self)),
    {
        match find(&self.entries, ticket) {
            Some(i) => {
                let used: u64 = self.entries[i].last_used;
                if now >= used && now - used >= IDLE_EXPIRY {
                    return None;
                }
                self.entries[i].last_used = now;
                Some(self.entries[i].actor.clone())
            },
            None => None,
        }
    }
}

/// A ticket stands for the process that it was issued to, until it was not used for seven days.
pub proof fn issued_ticket_pins_its_actor(
    before: Tickets,
    after: Tickets,
    ticket: Seq<char>,
    actor: Seq<char>,
    now: u64,
    later: u64,
)
    requires
        well_formed(after),
        recorded(before, after, ticket, actor, now),
        later - now < IDLE_EXPIRY,
    ensures
        actor_of(after, ticket, later) == Some(actor),
{
    lemma_ticket_pos(after.entries@, ticket);
    let es = after.entries@;
    let n = es.len() - 1;
    assert(es[n].ticket@ == ticket);
    match ticket_pos(es, ticket) {
        Some(i) => {
            if i < n {
                assert(es[i].ticket@ != es[n].ticket@);
            }
        },
        None => {},
    }
}

/// A ticket that was neither issued nor known before stands for nobody.
pub proof fn unknown_ticket_stands_for_nobody(
    before: Tickets,
    after: Tickets,
    ticket: Seq<char>,
    actor: Seq<char>,
    now: u64,
    other: Seq<char>,
    later: u64,
)
    requires
        well_formed(before),
        recorded(before, after, ticket, actor, now),
        other != ticket,
        ticket_pos(before.entries@, other) is None,
    ensures
        actor_of(after, other, later) is None,
{
    let es = after.entries@;
    let good = fresh_entries(before.entries@, now);
    let room = with_room(good);
    lemma_ticket_pos(before.entries@, other);
    lemma_fresh_entries(before.entries@, now);
    lemma_ticket_pos(es, other);
    lemma_ticket_pos(room, ticket);
    if good.len() > 0 {
        lemma_oldest(good);
    }
    assert forall|j: int| 0 <= j < es.len() implies (#[trigger] es[j]).ticket@ != other by {
        if j < es.len() - 1 {
            assert(es[j] == es.drop_last()[j]);
            let p = match ticket_pos(room, ticket) {
                Some(i) => if j < i {
                    j
                } else {
                    j + 1
                },
                None => j,
            };
            assert(es[j] == room[p]);
            let q = if good.len() >= CAP && p >= oldest(good) {
                p + 1
            } else {
                p
            };
            assert(room[p] == good[q]);
            let k = choose|k: int|
                0 <= k < before.entries@.len() && #[trigger] before.entries@[k] == good[q];
            assert(before.entries@[k].ticket@ != other);
        }
    }
}

} // verus!
