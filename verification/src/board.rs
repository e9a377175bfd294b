//! The contact board: an ordered map from integer identity to contact,
//! with the fusion rules that merge or reject new observations against
//! the live ones.

use vstd::prelude::*;

use crate::contacts::contact::Contact;
use crate::contacts::interface::CONTACT_TIME_LIM;
use crate::contacts::track::TrackedContact;

verus! {

/// Largest identity the board hands out.
pub const ID_LIM: u64 = 0x1000_0000_0000_0000;

/// Whether an existing contact `e` counts as the same object as an
/// incoming contact `c` at time `now`.  The existing region containing
/// the new position always counts; for a search observation
/// (`symmetric`) the reverse containment counts too.
pub open spec fn spec_match(c: Contact, e: Contact, now: int, symmetric: bool) -> bool {
    e.spec_class() == c.spec_class() && (e.spec_area_now(now).spec_contains(c.spec_pos()) || (
    symmetric && c.spec_area_now(now).spec_contains(e.spec_pos())))
}

/// Two live contacts mutually overlap when each one's current region
/// contains the other's position and their classes agree.
pub open spec fn spec_mutual_overlap(a: Contact, b: Contact, now: int) -> bool {
    a.spec_class() == b.spec_class() && a.spec_area_now(now).spec_contains(b.spec_pos())
        && b.spec_area_now(now).spec_contains(a.spec_pos())
}

/// No two distinct live contacts of the same class mutually overlap.
pub open spec fn spec_separated(s: Seq<(u64, Contact)>, now: int) -> bool {
    forall|i: int, j: int|
        0 <= i < s.len() && 0 <= j < s.len() && i != j ==> !spec_mutual_overlap(
            #[trigger] s[i].1,
            #[trigger] s[j].1,
            now,
        )
}

/// What one `add` leaves of the existing entries when a match was found:
/// walking oldest identity first, the first match takes the incoming
/// contact under its identity and every later match is dropped.
pub open spec fn spec_merge(
    s: Seq<(u64, Contact)>,
    c: Contact,
    now: int,
    symmetric: bool,
    replaced: bool,
) -> Seq<(u64, Contact)>
    decreases s.len(),
{
    if s.len() == 0 {
        Seq::empty()
    } else {
        let head = s[0];
        let rest = spec_merge(
            s.drop_first(),
            c,
            now,
            symmetric,
            replaced || spec_match(c, head.1, now, symmetric),
        );
        if spec_match(c, head.1, now, symmetric) {
            if !replaced {
                seq![(head.0, c)] + rest
            } else {
                rest
            }
        } else {
            seq![head] + rest
        }
    }
}

/// Whether any entry matches the incoming contact.
pub open spec fn spec_has_match(
    s: Seq<(u64, Contact)>,
    c: Contact,
    now: int,
    symmetric: bool,
) -> bool {
    exists|i: int| 0 <= i < s.len() && spec_match(c, #[trigger] s[i].1, now, symmetric)
}

/// Whether any matching entry is a tracked contact.
pub open spec fn spec_has_tracked_match(s: Seq<(u64, Contact)>, c: Contact, now: int) -> bool {
    exists|i: int|
        0 <= i < s.len() && spec_match(c, #[trigger] s[i].1, now, true) && (s[i].1 is Track)
}

/// The identity a brand-new contact gets: one past the largest live one,
/// or zero on an empty board.
pub open spec fn spec_fresh_id(s: Seq<(u64, Contact)>) -> u64 {
    if s.len() == 0 {
        0u64
    } else {
        (s[s.len() - 1].0 + 1) as u64
    }
}

/// Everything one `add` leaves on the board: unchanged when a tracked
/// contact already covers a search observation; the merge when any
/// contact matches; the old entries plus a fresh identity otherwise.
pub open spec fn spec_add_result(s: Seq<(u64, Contact)>, c: Contact, now: int) -> Seq<
    (u64, Contact),
> {
    let symmetric = c is Search;
    if symmetric && spec_has_tracked_match(s, c, now) {
        s
    } else if spec_has_match(s, c, now, symmetric) {
        spec_merge(s, c, now, symmetric, false)
    } else {
        s.push((spec_fresh_id(s), c))
    }
}

/// Whether a purge keeps an entry: everything but a search contact of
/// the purged contact's class whose current region contains it.
pub open spec fn spec_purge_keeps(e: (u64, Contact), c: Contact, now: int) -> bool {
    !(e.1.spec_class() == c.spec_class() && e.1.spec_area_now(now).spec_contains(c.spec_pos())
        && (e.1 is Search))
}

/// What a purge leaves of the entries, in order.
pub open spec fn spec_purge(s: Seq<(u64, Contact)>, c: Contact, now: int) -> Seq<(u64, Contact)>
    decreases s.len(),
{
    if s.len() == 0 {
        Seq::empty()
    } else {
        let rest = spec_purge(s.drop_first(), c, now);
        if spec_purge_keeps(s[0], c, now) {
            seq![s[0]] + rest
        } else {
            rest
        }
    }
}

/// Every purge survivor is an untouched old entry, in the old order.
proof fn lemma_purge_members(s: Seq<(u64, Contact)>, c: Contact, now: int)
    requires
        forall|i: int, j: int| 0 <= i < j < s.len() ==> s[i].0 < s[j].0,
    ensures
        ({
            let r = spec_purge(s, c, now);
            &&& r.len() <= s.len()
            &&& forall|i: int|
                0 <= i < r.len() ==> exists|j: int| 0 <= j < s.len() && s[j] == #[trigger] r[i]
            &&& forall|i1: int, i2: int| 0 <= i1 < i2 < r.len() ==> r[i1].0 < r[i2].0
        }),
    decreases s.len(),
{
    let r = spec_purge(s, c, now);
    if s.len() > 0 {
        let head = s[0];
        lemma_purge_members(s.drop_first(), c, now);
        let rest = spec_purge(s.drop_first(), c, now);
        assert(forall|j: int|
            0 <= j < s.drop_first().len() ==> #[trigger] s.drop_first()[j] == s[j + 1]);
        assert forall|i: int| 0 <= i < rest.len() implies (#[trigger] rest[i]).0 > head.0 by {
            let j = choose|j: int|
                0 <= j < s.drop_first().len() && s.drop_first()[j] == rest[i];
            assert(s[j + 1].0 > s[0].0);
        }
        if spec_purge_keeps(head, c, now) {
            assert(r == seq![head] + rest);
            assert(r[0] == head);
            assert(forall|i: int| 1 <= i < r.len() ==> #[trigger] r[i] == rest[i - 1]);
        } else {
            assert(r == rest);
        }
    }
}

/// Removing an entry and inserting a replacement at the same position
/// is an in-place update.
pub proof fn lemma_remove_insert_is_update(s: Seq<(u64, Contact)>, i: int, x: (u64, Contact))
    requires
        0 <= i < s.len(),
    ensures
        s.remove(i).insert(i, x) =~= s.update(i, x),
{
    let r = s.remove(i).insert(i, x);
    assert forall|k: int| 0 <= k < s.len() implies r[k] == s.update(i, x)[k] by {
        if k < i {
            assert(r[k] == s.remove(i)[k]);
        } else if k == i {
            assert(r[k] == x);
        } else {
            assert(r[k] == s.remove(i)[k - 1]);
            assert(s.remove(i)[k - 1] == s[k]);
        }
    }
}

/// A board with nothing on it is trivially separated: the starting
/// point of the no-mutual-overlap invariant that `add` preserves.
pub proof fn lemma_empty_separated(now: int)
    ensures
        spec_separated(Seq::<(u64, Contact)>::empty(), now),
{
}

/// An identity-keyed collection of contacts, ascending by identity, in
/// which fused observations replace their originals.
#[derive(Clone, Debug, PartialEq)]
pub struct ContactBoard {
    /// The live contacts, keyed and sorted by identity.
    pub entries: Vec<(u64, Contact)>,
}

impl ContactBoard {
    /// The identity part of the board invariant: strictly ascending,
    /// bounded identities.
    pub open spec fn ids_wf(self) -> bool {
        &&& forall|i: int, j: int|
            0 <= i < j < self.entries@.len() ==> self.entries@[i].0 < self.entries@[j].0
        &&& forall|i: int| 0 <= i < self.entries@.len() ==> (#[trigger] self.entries@[i]).0 < ID_LIM
    }

    /// The board's structural invariant at time `now`: well-bounded
    /// identities, every contact well formed and observed no later than
    /// `now`.
    pub open spec fn wf_at(self, now: int) -> bool {
        &&& self.ids_wf()
        &&& forall|i: int| 0 <= i < self.entries@.len() ==> (#[trigger] self.entries@[i]).1.wf()
        &&& forall|i: int|
            0 <= i < self.entries@.len() ==> 0 <= (#[trigger] self.entries@[i]).1.spec_time()
                <= now
    }

    /// An empty board.
    pub fn new() -> (b: ContactBoard)
        ensures
            b.entries@.len() == 0,
    {
        ContactBoard { entries: Vec::new() }
    }

    /// Number of live contacts.
    pub fn count(&self) -> (n: usize)
        ensures
            n == self.entries@.len(),
    {
        self.entries.len()
    }

    /// The live entries, keyed and ascending by identity.
    pub fn iter(&self) -> (r: &Vec<(u64, Contact)>)
        ensures
            r@ == self.entries@,
    {
        &self.entries
    }

    /// The live contact under an identity, if any.
    pub fn get(&self, id: u64) -> (r: Option<&Contact>)
        ensures
            match r {
                Some(c) => exists|i: int|
                    0 <= i < self.entries@.len() && #[trigger] self.entries@[i] == (id, *c),
                None => forall|i: int|
                    0 <= i < self.entries@.len() ==> (#[trigger] self.entries@[i]).0 != id,
            },
    {
        let mut i: usize = 0;
        while i < self.entries.len()
            invariant
                i <= self.entries@.len(),
                forall|k: int| 0 <= k < i ==> (#[trigger] self.entries@[k]).0 != id,
            decreases self.entries@.len() - i,
        {
            if self.entries[i].0 == id {
                return Some(&self.entries[i].1);
            }
            i = i + 1;
        }
        None
    }

    /// Remove and return the contact under an identity.
    pub fn take(&mut self, id: u64) -> (r: Option<Contact>)
        ensures
            match r {
                Some(c) => exists|i: int|
                    0 <= i < old(self).entries@.len() && #[trigger] old(self).entries@[i] == (
                        id,
                        c,
                    ) && final(self).entries@ == old(self).entries@.remove(i),
                None => final(self).entries@ == old(self).entries@ && (forall|i: int|
                    0 <= i < old(self).entries@.len() ==> (#[trigger] old(self).entries@[i]).0 != id),
            },
    {
        let mut i: usize = 0;
        while i < self.entries.len()
            invariant
                i <= self.entries@.len(),
                self.entries@ == old(self).entries@,
                forall|k: int| 0 <= k < i ==> (#[trigger] self.entries@[k]).0 != id,
            decreases self.entries@.len() - i,
        {
            if self.entries[i].0 == id {
                let (_, c) = self.entries.remove(i);
                return Some(c);
            }
            i = i + 1;
        }
        None
    }

    /// Drop the contact under an identity, if any.
    pub fn remove(&mut self, id: u64)
        ensures
            (exists|i: int|
                0 <= i < old(self).entries@.len() && (#[trigger] old(self).entries@[i]).0 == id
                    && final(self).entries@ == old(self).entries@.remove(i)) || (final(self).entries@ == old(self).entries@ && (forall|i: int|
                0 <= i < old(self).entries@.len() ==> (#[trigger] old(self).entries@[i]).0
                    != id)),
    {
        let taken = self.take(id);
    }

    /// Store a contact under a given identity, replacing any current
    /// holder and keeping identities ascending.
    pub fn insert(&mut self, id: u64, contact: Contact)
        requires
            id < ID_LIM,
            forall|i: int, j: int|
                0 <= i < j < old(self).entries@.len() ==> old(self).entries@[i].0 < old(self).entries@[j].0,
        ensures
            (exists|i: int|
                0 <= i < old(self).entries@.len() && (#[trigger] old(self).entries@[i]).0 == id
                    && final(self).entries@ == old(self).entries@.update(i, (id, contact))) || (
            exists|i: int|
                0 <= i <= old(self).entries@.len() && final(self).entries@ == old(self).entries@.insert(i, (id, contact)) && (forall|k: int|
                    0 <= k < i ==> (#[trigger] old(self).entries@[k]).0 < id) && (forall|k: int|
                    i <= k < old(self).entries@.len() ==> (#[trigger] old(self).entries@[k]).0
                        > id)),
            old(self).ids_wf() ==> final(self).ids_wf(),
            forall|k: int|
                0 <= k < final(self).entries@.len() ==> #[trigger] final(self).entries@[k] == (
                id,
                contact,
            ) || old(self).entries@.contains(final(self).entries@[k]),
    {
        let mut i: usize = 0;
        while i < self.entries.len() && self.entries[i].0 < id
            invariant
                i <= self.entries@.len(),
                self.entries@ == old(self).entries@,
                forall|k: int| 0 <= k < i ==> (#[trigger] self.entries@[k]).0 < id,
            decreases self.entries@.len() - i,
        {
            i = i + 1;
        }
        if i < self.entries.len() && self.entries[i].0 == id {
            self.entries.set(i, (id, contact));
            proof {
                assert(final(self).entries@ == old(self).entries@.update(i as int, (id, contact)));
                let t = final(self).entries@;
                let s0 = old(self).entries@;
                assert(forall|k: int| 0 <= k < t.len() && k != i ==> t[k] == s0[k]);
                assert forall|k: int| 0 <= k < t.len() implies t[k] == (id, contact)
                    || s0.contains(t[k]) by {
                    if k != i {
                        assert(s0[k] == t[k]);
                    }
                }
                if old(self).ids_wf() {
                    assert(forall|k: int| 0 <= k < t.len() ==> (#[trigger] t[k]).0 == s0[k].0);
                }
            }
        } else {
            proof {
                assert(forall|k: int|
                    i <= k < old(self).entries@.len() ==> (#[trigger] old(self).entries@[k]).0
                        > id) by {
                    assert(forall|k: int|
                        i < k < old(self).entries@.len() ==> old(self).entries@[i as int].0 < (
                        #[trigger] old(self).entries@[k]).0);
                }
            }
            self.entries.insert(i, (id, contact));
            proof {
                let t = final(self).entries@;
                let s0 = old(self).entries@;
                assert(t == s0.insert(i as int, (id, contact)));
                assert(forall|k: int| 0 <= k < i ==> t[k] == s0[k]);
                assert(t[i as int] == (id, contact));
                assert(forall|k: int| i < k < t.len() ==> t[k] == s0[k - 1]);
                assert forall|k: int| 0 <= k < t.len() implies t[k] == (id, contact)
                    || s0.contains(t[k]) by {
                    if k < i {
                        assert(s0[k] == t[k]);
                    } else if k > i {
                        assert(s0[k - 1] == t[k]);
                    }
                }
                if old(self).ids_wf() {
                    assert forall|a: int, b: int| 0 <= a < b < t.len() implies t[a].0 < t[b].0 by {
                        if b < i {
                        } else if a < i && b == i {
                            assert(s0[a].0 < id);
                        } else if a < i {
                            assert(s0[b - 1].0 > id);
                            assert(s0[a].0 < id);
                        } else if a == i {
                            assert(s0[b - 1].0 > id);
                        } else {
                            assert(s0[a - 1].0 < s0[b - 1].0);
                        }
                    }
                }
            }
        }
    }

    /// Promote the search contact under an identity to a tracked
    /// contact in place; any other kind of holder is left alone.  The
    /// promoted contact keeps the observation's class, position and
    /// time, seeding a one-sample history.
    pub fn track(&mut self, id: u64)
        requires
            id < ID_LIM,
            forall|a: int, b: int|
                0 <= a < b < old(self).entries@.len() ==> (#[trigger] old(self).entries@[a]).0 < (
                #[trigger] old(self).entries@[b]).0,
        ensures
            (exists|i: int|
                0 <= i < old(self).entries@.len() && (#[trigger] old(self).entries@[i]).0 == id
                    && old(self).entries@[i].1 is Search) ==> (exists|i: int, t: TrackedContact|
                0 <= i < old(self).entries@.len() && (old(self).entries@[i]).0 == id
                    && old(self).entries@[i].1 is Search && final(self).entries@ == #[trigger] old(self).entries@.update(i, (id, Contact::Track(t))) && (match old(self).entries@[i].1 {
                    Contact::Search(sc) => crate::contacts::track::spec_promotion(sc, t),
                    Contact::Track(..) => false,
                }) && (old(self).entries@[i].1.wf() ==> t.wf()) && (
                forall|tm: int|
                    #[trigger] Contact::Track(t).spec_area_after(tm) == old(self).entries@[i].1.spec_area_after(tm))),
            !(exists|i: int|
                0 <= i < old(self).entries@.len() && (#[trigger] old(self).entries@[i]).0 == id
                    && old(self).entries@[i].1 is Search) ==> final(self).entries@ == old(self).entries@,
    {
        let mut i: usize = 0;
        while i < self.entries.len()
            invariant
                i <= self.entries@.len(),
                self.entries@ == old(self).entries@,
                forall|a: int, b: int|
                    0 <= a < b < old(self).entries@.len() ==> (#[trigger] old(self).entries@[a]).0
                        < (#[trigger] old(self).entries@[b]).0,
                forall|k: int| 0 <= k < i ==> (#[trigger] self.entries@[k]).0 != id,
            decreases self.entries@.len() - i,
        {
            if self.entries[i].0 == id {
                proof {
                    assert(forall|m: int|
                        i < m < old(self).entries@.len() ==> old(self).entries@[i as int].0 < (
                        #[trigger] old(self).entries@[m]).0);
                }
                let replacement: Option<Contact> = match &self.entries[i].1 {
                    Contact::Search(c) => Some(Contact::Track(TrackedContact::from_search(c))),
                    Contact::Track(..) => None,
                };
                match replacement {
                    Some(p) => {
                        self.entries.set(i, (id, p));
                    },
                    None => {},
                }
                return ;
            }
            i = i + 1;
        }
    }

    /// Demote the tracked contact under an identity back to a search
    /// contact in place, keeping only its newest observation; any other
    /// kind of holder is left alone.  The demoted contact's projected
    /// region is the one its newest observation already gave it.
    pub fn demote(&mut self, id: u64)
        requires
            id < ID_LIM,
            forall|i: int| 0 <= i < old(self).entries@.len() ==> (#[trigger] old(self).entries@[i]).1.wf(),
            forall|a: int, b: int|
                0 <= a < b < old(self).entries@.len() ==> (#[trigger] old(self).entries@[a]).0 < (
                #[trigger] old(self).entries@[b]).0,
        ensures
            (exists|i: int|
                0 <= i < old(self).entries@.len() && (#[trigger] old(self).entries@[i]).0 == id
                    && old(self).entries@[i].1 is Track) ==> (exists|
                i: int,
                sc: crate::contacts::search::SearchContact,
            |
                0 <= i < old(self).entries@.len() && (old(self).entries@[i]).0 == id
                    && old(self).entries@[i].1 is Track && final(self).entries@ == #[trigger] old(self).entries@.update(i, (id, Contact::Search(sc))) && (match old(self).entries@[i].1 {
                    Contact::Track(t) => crate::contacts::track::spec_demotion(t, sc),
                    Contact::Search(..) => false,
                }) && sc.wf() && (forall|tm: int|
                    #[trigger] Contact::Search(sc).spec_area_after(tm) == old(self).entries@[i].1.spec_area_after(tm))),
            !(exists|i: int|
                0 <= i < old(self).entries@.len() && (#[trigger] old(self).entries@[i]).0 == id
                    && old(self).entries@[i].1 is Track) ==> final(self).entries@ == old(self).entries@,
    {
        let mut i: usize = 0;
        while i < self.entries.len()
            invariant
                i <= self.entries@.len(),
                self.entries@ == old(self).entries@,
                forall|k: int| 0 <= k < old(self).entries@.len() ==> (#[trigger] old(self).entries@[k]).1.wf(),
                forall|a: int, b: int|
                    0 <= a < b < old(self).entries@.len() ==> (#[trigger] old(self).entries@[a]).0
                        < (#[trigger] old(self).entries@[b]).0,
                forall|k: int| 0 <= k < i ==> (#[trigger] self.entries@[k]).0 != id,
            decreases self.entries@.len() - i,
        {
            if self.entries[i].0 == id {
                proof {
                    assert(forall|m: int|
                        i < m < old(self).entries@.len() ==> old(self).entries@[i as int].0 < (
                        #[trigger] old(self).entries@[m]).0);
                }
                let replacement: Option<Contact> = match &self.entries[i].1 {
                    Contact::Track(t) => Some(
                        Contact::Search(crate::contacts::search::SearchContact::from_tracked(t)),
                    ),
                    Contact::Search(..) => None,
                };
                match replacement {
                    Some(p) => {
                        self.entries.set(i, (id, p));
                    },
                    None => {},
                }
                return ;
            }
            i = i + 1;
        }
    }

    /// Remove every search contact of the given contact's class whose
    /// current region contains it; tracked contacts, being the more
    /// trusted record, stay.
    pub fn remove_matching(&mut self, contact: &Contact, now: i64)
        requires
            old(self).wf_at(now as int),
            contact.wf(),
            0 <= contact.spec_time() <= now <= CONTACT_TIME_LIM,
        ensures
            final(self).entries@ == spec_purge(old(self).entries@, *contact, now as int),
            final(self).wf_at(now as int),
    {
        let ghost s = self.entries@;
        let cpos = contact.position();
        let cclass = contact.class();
        let total = self.entries.len();
        let mut src_v: Vec<(u64, Contact)> = Vec::new();
        core::mem::swap(&mut src_v, &mut self.entries);
        let mut out: Vec<(u64, Contact)> = Vec::new();
        let mut j: usize = 0;
        proof {
            assert(s.skip(0) =~= s);
        }
        while src_v.len() > 0
            invariant
                old(self).wf_at(now as int),
                s == old(self).entries@,
                contact.wf(),
                0 <= contact.spec_time() <= now <= CONTACT_TIME_LIM,
                cpos == contact.spec_pos(),
                cclass == contact.spec_class(),
                j <= s.len(),
                total == s.len(),
                src_v@ == s.skip(j as int),
                out@ + spec_purge(s.skip(j as int), *contact, now as int) == spec_purge(
                    s,
                    *contact,
                    now as int,
                ),
            decreases src_v@.len(),
        {
            proof {
                assert(s.skip(j as int).len() == s.len() - j);
                assert(j < s.len());
                assert(s.skip(j as int)[0] == s[j as int]);
                assert(s.skip(j as int).drop_first() =~= s.skip(j as int + 1));
            }
            let ghost out_before = out@;
            let entry = src_v.remove(0);
            proof {
                assert(src_v@ =~= s.skip(j as int + 1));
            }
            let ea = entry.1.get_area_now(now);
            let mut drop_it = entry.1.is_class(cclass);
            if drop_it {
                drop_it = ea.contains(&cpos) && !entry.1.is_tracked();
            }
            if !drop_it {
                out.push(entry);
            }
            proof {
                let m0 = spec_purge(s.skip(j as int), *contact, now as int);
                let m1 = spec_purge(s.skip(j as int + 1), *contact, now as int);
                assert(drop_it == !spec_purge_keeps(s[j as int], *contact, now as int));
                if spec_purge_keeps(s[j as int], *contact, now as int) {
                    assert(m0 == seq![s[j as int]] + m1);
                    assert(out@ + m1 =~= out_before + m0);
                } else {
                    assert(m0 == m1);
                }
            }
            j = j + 1;
        }
        proof {
            assert(s.skip(s.len() as int) =~= Seq::empty());
            assert(out@ + Seq::<(u64, Contact)>::empty() =~= out@);
            assert(out@ == spec_purge(s, *contact, now as int));
        }
        self.entries = out;
        proof {
            lemma_purge_members(s, *contact, now as int);
            let t = final(self).entries@;
            assert forall|k: int| 0 <= k < t.len() implies (#[trigger] t[k]).1.wf() && 0 <= t[
            k].1.spec_time() <= now && t[k].0 < ID_LIM by {
                let w = choose|w: int| 0 <= w < s.len() && s[w] == t[k];
            }
        }
    }

    /// Fold a new observation into the board.
    ///
    /// A search observation that any matching tracked contact already
    /// covers is dropped.  Otherwise the first matching live contact's
    /// identity is reused for the new observation and every other match
    /// is removed; with no match at all the observation gets a fresh
    /// identity.  Folding never makes two live same-class contacts
    /// mutually overlap at `now` if none did before.
    #[verifier::rlimit(100)]
    pub fn add(&mut self, contact: Contact, now: i64)
        requires
            old(self).wf_at(now as int),
            contact.wf(),
            0 <= contact.spec_time() <= now <= CONTACT_TIME_LIM,
            spec_fresh_id(old(self).entries@) < ID_LIM,
        ensures
            final(self).wf_at(now as int),
            final(self).entries@ == spec_add_result(old(self).entries@, contact, now as int),
            spec_separated(old(self).entries@, now as int) ==> spec_separated(
                final(self).entries@,
                now as int,
            ),
    {
        let symmetric = !contact.is_tracked();
        let ghost s = self.entries@;
        let carea = contact.get_area_now(now);
        let cpos = contact.position();
        let cclass = contact.class();

        let mut flags: Vec<bool> = Vec::new();
        let mut any_match = false;
        let mut any_tracked = false;
        let mut i: usize = 0;
        while i < self.entries.len()
            invariant
                self.entries@ == s,
                old(self).wf_at(now as int),
                s == old(self).entries@,
                contact.wf(),
                0 <= contact.spec_time() <= now <= CONTACT_TIME_LIM,
                symmetric == (contact is Search),
                carea == contact.spec_area_now(now as int),
                carea.wf(),
                cpos == contact.spec_pos(),
                cclass == contact.spec_class(),
                i <= s.len(),
                flags@.len() == i,
                forall|k: int|
                    0 <= k < i ==> flags@[k] == spec_match(
                        contact,
                        (#[trigger] s[k]).1,
                        now as int,
                        symmetric,
                    ),
                any_match == exists|k: int|
                    0 <= k < i && spec_match(contact, (#[trigger] s[k]).1, now as int, symmetric),
                symmetric ==> (any_tracked == exists|k: int|
                    0 <= k < i && spec_match(contact, (#[trigger] s[k]).1, now as int, true) && (
                    s[k].1 is Track)),
            decreases s.len() - i,
        {
            let e = &self.entries[i].1;
            let ea = e.get_area_now(now);
            let mut m = e.is_class(cclass);
            if m {
                let epos = e.position();
                m = ea.contains(&cpos) || (symmetric && carea.contains(&epos));
            }
            proof {
                if !symmetric {
                    assert(m == spec_match(contact, s[i as int].1, now as int, symmetric));
                }
            }
            if m && e.is_tracked() {
                any_tracked = true;
            }
            if m {
                any_match = true;
            }
            flags.push(m);
            i = i + 1;
        }

        if symmetric && any_tracked {
            // A tracked contact already covers this observation; trust it.
            return ;
        }
        if !any_match {
            let fresh: u64 = if self.entries.len() == 0 {
                0
            } else {
                self.entries[self.entries.len() - 1].0 + 1
            };
            proof {
                assert(forall|k: int|
                    0 <= k < s.len() - 1 ==> (#[trigger] s[k]).0 < s[s.len() - 1].0);
            }
            self.entries.push((fresh, contact));
            proof {
                let t = final(self).entries@;
                assert(t == s.push((spec_fresh_id(s), contact)));
                assert forall|a: int, b: int|
                    0 <= a < t.len() && 0 <= b < t.len() && a != b implies !spec_mutual_overlap(
                    t[a].1,
                    t[b].1,
                    now as int,
                ) || !spec_separated(s, now as int) by {
                    if spec_separated(s, now as int) {
                        if a < s.len() && b < s.len() {
                        } else if a == s.len() {
                            assert(!spec_match(contact, s[b].1, now as int, symmetric));
                        } else {
                            assert(!spec_match(contact, s[a].1, now as int, symmetric));
                        }
                    }
                }
            }
            return ;
        }

        let mut out: Vec<(u64, Contact)> = Vec::new();
        let total = self.entries.len();
        let mut src_v: Vec<(u64, Contact)> = Vec::new();
        core::mem::swap(&mut src_v, &mut self.entries);
        let mut pending: Option<Contact> = Some(contact);
        let mut replaced = false;
        let mut j: usize = 0;
        proof {
            assert(s.skip(0) =~= s);
        }
        while src_v.len() > 0
            invariant
                old(self).wf_at(now as int),
                s == old(self).entries@,
                contact.wf(),
                0 <= contact.spec_time() <= now <= CONTACT_TIME_LIM,
                symmetric == (contact is Search),
                j <= s.len(),
                total == s.len(),
                src_v@ == s.skip(j as int),
                flags@.len() == s.len(),
                forall|k: int|
                    0 <= k < s.len() ==> flags@[k] == spec_match(
                        contact,
                        (#[trigger] s[k]).1,
                        now as int,
                        symmetric,
                    ),
                replaced == exists|k: int|
                    0 <= k < j && spec_match(contact, (#[trigger] s[k]).1, now as int, symmetric),
                pending == (if replaced {
                    Option::<Contact>::None
                } else {
                    Option::<Contact>::Some(contact)
                }),
                out@ + spec_merge(s.skip(j as int), contact, now as int, symmetric, replaced)
                    == spec_merge(s, contact, now as int, symmetric, false),
            decreases s.len() - j,
        {
            proof {
                assert(s.skip(j as int).len() == s.len() - j);
                assert(j < s.len());
                assert(s.skip(j as int)[0] == s[j as int]);
                assert(s.skip(j as int).drop_first() =~= s.skip(j as int + 1));
                assert(src_v@.len() > 0);
            }
            let entry = src_v.remove(0);
            proof {
                assert(src_v@ =~= s.skip(j as int + 1));
            }
            let ghost out_before = out@;
            let ghost replaced_before = replaced;
            if flags[j] {
                if !replaced {
                    let c = pending.take().unwrap();
                    out.push((entry.0, c));
                    replaced = true;
                }
            } else {
                out.push(entry);
            }
            proof {
                let m0 = spec_merge(s.skip(j as int), contact, now as int, symmetric,
                    replaced_before);
                let m1 = spec_merge(s.skip(j as int + 1), contact, now as int, symmetric,
                    replaced_before || spec_match(contact, s[j as int].1, now as int, symmetric));
                if spec_match(contact, s[j as int].1, now as int, symmetric) {
                    if !replaced_before {
                        assert(m0 == seq![(s[j as int].0, contact)] + m1);
                        assert(out@ + m1 =~= out_before + m0);
                    } else {
                        assert(m0 == m1);
                    }
                } else {
                    assert(m0 == seq![s[j as int]] + m1);
                    assert(out@ + m1 =~= out_before + m0);
                }
            }
            j = j + 1;
        }
        proof {
            assert(s.skip(s.len() as int) =~= Seq::empty());
            assert(out@ + Seq::<(u64, Contact)>::empty() =~= out@);
            assert(out@ == spec_merge(s, contact, now as int, symmetric, false));
        }
        self.entries = out;
        proof {
            lemma_merge_members(s, contact, now as int, symmetric, false);
            let t = final(self).entries@;
            assert forall|a: int, b: int|
                0 <= a < t.len() && 0 <= b < t.len() && a != b implies !spec_mutual_overlap(
                t[a].1,
                t[b].1,
                now as int,
            ) || !spec_separated(s, now as int) by {
                if spec_separated(s, now as int) {
                    lemma_merge_pair_separated(s, contact, now as int, symmetric, a, b);
                }
            }
        }
    }
}

/// What survives a merge: every remaining entry is either the incoming
/// contact under a reused identity, or an untouched non-matching entry;
/// identities stay a strictly ascending selection of the old ones.
proof fn lemma_merge_members(s: Seq<(u64, Contact)>, c: Contact, now: int, symmetric: bool,
    replaced: bool)
    requires
        forall|i: int, j: int| 0 <= i < j < s.len() ==> s[i].0 < s[j].0,
    ensures
        ({
            let r = spec_merge(s, c, now, symmetric, replaced);
            &&& r.len() <= s.len()
            &&& forall|i: int|
                0 <= i < r.len() ==> ((#[trigger] r[i]).1 == c && exists|j: int|
                    0 <= j < s.len() && s[j].0 == r[i].0) || (exists|j: int|
                    0 <= j < s.len() && s[j] == #[trigger] r[i] && !spec_match(
                        c,
                        s[j].1,
                        now,
                        symmetric,
                    ))
            &&& forall|i1: int, i2: int| 0 <= i1 < i2 < r.len() ==> r[i1].0 < r[i2].0
            &&& replaced ==> forall|i: int| 0 <= i < r.len() ==> (#[trigger] r[i]).1 == c
                ==> exists|j: int|
                    0 <= j < s.len() && s[j] == r[i] && !spec_match(c, s[j].1, now, symmetric)
            &&& forall|i: int| 0 <= i < r.len() ==> exists|j: int|
                0 <= j < s.len() && s[j].0 == (#[trigger] r[i]).0
        }),
    decreases s.len(),
{
    let r = spec_merge(s, c, now, symmetric, replaced);
    if s.len() == 0 {
    } else {
        let head = s[0];
        let hm = spec_match(c, head.1, now, symmetric);
        lemma_merge_members(s.drop_first(), c, now, symmetric, replaced || hm);
        let rest = spec_merge(s.drop_first(), c, now, symmetric, replaced || hm);
        assert(forall|j: int|
            0 <= j < s.drop_first().len() ==> #[trigger] s.drop_first()[j] == s[j + 1]);
        assert forall|i: int| 0 <= i < rest.len() implies (#[trigger] rest[i]).0 > head.0 by {
            let j = choose|j: int|
                0 <= j < s.drop_first().len() && s.drop_first()[j].0 == rest[i].0;
            assert(s[j + 1].0 > s[0].0);
        }
        if hm && !replaced {
            assert(r == seq![(head.0, c)] + rest);
            assert(r[0] == (head.0, c));
            assert(forall|i: int| 1 <= i < r.len() ==> #[trigger] r[i] == rest[i - 1]);
        } else if hm {
            assert(r == rest);
        } else {
            assert(r == seq![head] + rest);
            assert(r[0] == head);
            assert(forall|i: int| 1 <= i < r.len() ==> #[trigger] r[i] == rest[i - 1]);
        }
    }
}

/// Any two distinct survivors of a merge are not mutually overlapping,
/// provided the old entries were pairwise separated.
proof fn lemma_merge_pair_separated(
    s: Seq<(u64, Contact)>,
    c: Contact,
    now: int,
    symmetric: bool,
    a: int,
    b: int,
)
    requires
        forall|i: int, j: int| 0 <= i < j < s.len() ==> s[i].0 < s[j].0,
        spec_separated(s, now),
        0 <= a < spec_merge(s, c, now, symmetric, false).len(),
        0 <= b < spec_merge(s, c, now, symmetric, false).len(),
        a != b,
    ensures
        !spec_mutual_overlap(
            spec_merge(s, c, now, symmetric, false)[a].1,
            spec_merge(s, c, now, symmetric, false)[b].1,
            now,
        ),
{
    lemma_merge_members(s, c, now, symmetric, false);
    let r = spec_merge(s, c, now, symmetric, false);
    let ea = r[a].1;
    let eb = r[b].1;
    // Each survivor is the incoming contact or an untouched non-match.
    if ea == c || eb == c {
        let (x, y) = if ea == c {
            (a, b)
        } else {
            (b, a)
        };
        // The other one of the pair: the inserted contact appears under
        // a single identity, so the other entry is an old non-match.
        if r[y].1 == c {
            // Two entries would both carry `c`; their identities differ,
            // and at most one old identity took the replacement.  If the
            // second came from an old entry, it failed to match, so the
            // containment that mutual overlap needs is absent.
            if exists|j: int| 0 <= j < s.len() && s[j] == r[y] && !spec_match(c, s[j].1, now,
                symmetric) {
                let j = choose|j: int|
                    0 <= j < s.len() && s[j] == r[y] && !spec_match(c, s[j].1, now, symmetric);
                assert(!spec_mutual_overlap(r[x].1, r[y].1, now));
            } else {
                if exists|j: int| 0 <= j < s.len() && s[j] == r[x] && !spec_match(c, s[j].1, now,
                    symmetric) {
                    let j = choose|j: int|
                        0 <= j < s.len() && s[j] == r[x] && !spec_match(c, s[j].1, now, symmetric);
                    assert(!spec_mutual_overlap(r[x].1, r[y].1, now));
                } else {
                    lemma_merge_single_replacement(s, c, now, symmetric, false, x, y);
                }
            }
        } else {
            let j = choose|j: int|
                0 <= j < s.len() && s[j] == r[y] && !spec_match(c, s[j].1, now, symmetric);
            assert(!spec_mutual_overlap(c, r[y].1, now));
        }
    } else {
        let ja = choose|j: int|
            0 <= j < s.len() && s[j] == r[a] && !spec_match(c, s[j].1, now, symmetric);
        let jb = choose|j: int|
            0 <= j < s.len() && s[j] == r[b] && !spec_match(c, s[j].1, now, symmetric);
        if ja == jb {
            assert(r[a].0 != r[b].0);
            assert(false);
        }
    }
}

/// At most one merge survivor takes the incoming contact by
/// replacement: two distinct entries cannot both be fresh copies of it.
proof fn lemma_merge_single_replacement(
    s: Seq<(u64, Contact)>,
    c: Contact,
    now: int,
    symmetric: bool,
    replaced: bool,
    x: int,
    y: int,
)
    requires
        forall|i: int, j: int| 0 <= i < j < s.len() ==> s[i].0 < s[j].0,
        0 <= x < spec_merge(s, c, now, symmetric, replaced).len(),
        0 <= y < spec_merge(s, c, now, symmetric, replaced).len(),
        x != y,
        !(exists|j: int|
            0 <= j < s.len() && s[j] == spec_merge(s, c, now, symmetric, replaced)[x]
                && !spec_match(c, s[j].1, now, symmetric)),
        !(exists|j: int|
            0 <= j < s.len() && s[j] == spec_merge(s, c, now, symmetric, replaced)[y]
                && !spec_match(c, s[j].1, now, symmetric)),
    ensures
        x == y,
    decreases s.len(),
{
    let r = spec_merge(s, c, now, symmetric, replaced);
    lemma_merge_members(s, c, now, symmetric, replaced);
    if s.len() == 0 {
    } else {
        let head = s[0];
        let hm = spec_match(c, head.1, now, symmetric);
        let rest = spec_merge(s.drop_first(), c, now, symmetric, replaced || hm);
        lemma_merge_members(s.drop_first(), c, now, symmetric, replaced || hm);
        assert(forall|j: int|
            0 <= j < s.drop_first().len() ==> #[trigger] s.drop_first()[j] == s[j + 1]);
        if hm && !replaced {
            assert(r == seq![(head.0, c)] + rest);
            assert(forall|i: int| 1 <= i < r.len() ==> #[trigger] r[i] == rest[i - 1]);
            let (lo, hi) = if x < y {
                (x, y)
            } else {
                (y, x)
            };
            if lo == 0 {
                // The later entry carries `c` without being an old
                // non-match, yet past the head the merge is already in
                // replaced mode, where every survivor is old.
                if rest[hi - 1].1 == c {
                    assert(exists|j: int|
                        0 <= j < s.drop_first().len() && s.drop_first()[j] == rest[hi - 1]
                            && !spec_match(c, s.drop_first()[j].1, now, symmetric));
                } else {
                    assert(exists|j: int|
                        0 <= j < s.drop_first().len() && s.drop_first()[j] == rest[hi - 1]
                            && !spec_match(c, s.drop_first()[j].1, now, symmetric));
                }
                let j = choose|j: int|
                    0 <= j < s.drop_first().len() && s.drop_first()[j] == rest[hi - 1]
                        && !spec_match(c, s.drop_first()[j].1, now, symmetric);
                assert(s[j + 1] == r[hi]);
            } else {
                lemma_merge_single_replacement(
                    s.drop_first(),
                    c,
                    now,
                    symmetric,
                    true,
                    lo - 1,
                    hi - 1,
                );
            }
        } else if hm {
            lemma_merge_single_replacement(s.drop_first(), c, now, symmetric, true, x, y);
        } else {
            assert(r == seq![head] + rest);
            assert(forall|i: int| 1 <= i < r.len() ==> #[trigger] r[i] == rest[i - 1]);
            if x == 0 || y == 0 {
                assert(false);
            } else {
                lemma_merge_single_replacement(
                    s.drop_first(),
                    c,
                    now,
                    symmetric,
                    replaced,
                    x - 1,
                    y - 1,
                );
            }
        }
    }
}

} // verus!
