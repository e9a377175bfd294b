//! The one-sensor scheduler: a rotation of one search duty and any
//! number of tracking duties, one sensor operation per tick.

use vstd::prelude::*;

use crate::board::ContactBoard;
use crate::contacts::contact::Contact;
use crate::contacts::emitter::Emitter;
use crate::contacts::interface::CONTACT_TIME_LIM;
use crate::contacts::scan::ScanData;
use crate::contacts::search::SearchContact;
use crate::contacts::track::{spec_promotion, spec_updated, TrackedContact};
use crate::kinematics::{Acceleration, KIN_ACC_LIM};
use crate::radar::config::RadarConfig;
use crate::radar::search::{spec_search_config, ScanningRadar};
use crate::radar::track::{spec_track_config, TrackingRadar};

verus! {

/// A scheduler request that cannot be met.
#[derive(Clone, Copy, Debug, PartialEq, Eq, Structural)]
pub enum Error {
    /// The identity names no live contact.
    ContactNotFound,
}

/// The sensor scheduler: the contact board, the identities under track,
/// a rotation cursor, and the two sweep policies.
#[derive(Clone, Debug, PartialEq)]
pub struct RadarManager {
    /// The fused contact picture.
    pub contacts: ContactBoard,
    /// Identities under track, ascending.
    pub tracked_ids: Vec<u64>,
    /// Cursor into the rotation.
    pub track_index: usize,
    /// The search sweep policy.
    pub search: ScanningRadar,
    /// The tracking sweep policy.
    pub track: TrackingRadar,
}

impl RadarManager {
    /// The scheduler invariant: the tracked_ids identities are strictly
    /// ascending and the search state is well formed.
    pub open spec fn wf(self) -> bool {
        &&& forall|i: int, j: int|
            0 <= i < j < self.tracked_ids@.len() ==> self.tracked_ids@[i] < self.tracked_ids@[j]
        &&& forall|i: int|
            0 <= i < self.tracked_ids@.len() ==> (#[trigger] self.tracked_ids@[i])
                < crate::board::ID_LIM
        &&& self.search.wf()
    }

    /// A scheduler over an initial board, with nothing under track.
    pub fn new(board: ContactBoard) -> (m: RadarManager)
        ensures
            m.contacts == board,
            m.tracked_ids@.len() == 0,
            m.track_index == 0,
            m.wf(),
    {
        RadarManager {
            contacts: board,
            tracked_ids: Vec::new(),
            track_index: 0,
            search: ScanningRadar::new(),
            track: TrackingRadar::new(),
        }
    }

    /// Begin tracking an identity; it must name a live contact.
    /// Returns the error exactly when it does not.
    pub fn start_tracking(&mut self, id: u64) -> (r: Result<(), Error>)
        requires
            old(self).wf(),
            old(self).contacts.ids_wf(),
        ensures
            final(self).wf(),
            final(self).contacts == old(self).contacts,
            final(self).track_index == old(self).track_index,
            r is Err <==> (forall|i: int|
                0 <= i < old(self).contacts.entries@.len() ==> (#[trigger] old(self).contacts.entries@[i]).0 != id),
            r is Err ==> r == Result::<(), Error>::Err(Error::ContactNotFound) && final(self).tracked_ids@ == old(self).tracked_ids@,
            r is Ok ==> forall|v: u64|
                final(self).tracked_ids@.contains(v) <==> (old(self).tracked_ids@.contains(v) || v == id),
    {
        let found = self.contacts.get(id);
        if found.is_none() {
            return Err(Error::ContactNotFound);
        }
        proof {
            let w = choose|w: int|
                0 <= w < self.contacts.entries@.len() && (#[trigger] self.contacts.entries@[
                w]).0 == id;
            assert(id < crate::board::ID_LIM);
        }
        let ghost t0 = self.tracked_ids@;
        let mut i: usize = 0;
        while i < self.tracked_ids.len() && self.tracked_ids[i] < id
            invariant
                old(self).wf(),
                self.tracked_ids@ == t0,
                self.contacts == old(self).contacts,
                self.search == old(self).search,
                self.track == old(self).track,
                self.track_index == old(self).track_index,
                t0 == old(self).tracked_ids@,
                i <= t0.len(),
                forall|k: int| 0 <= k < i ==> (#[trigger] t0[k]) < id,
            decreases t0.len() - i,
        {
            i = i + 1;
        }
        if i < self.tracked_ids.len() && self.tracked_ids[i] == id {
            proof {
                assert(self.tracked_ids@.contains(id));
                assert(forall|v: u64|
                    final(self).tracked_ids@.contains(v) <==> (old(self).tracked_ids@.contains(v) || v
                        == id));
            }
            return Ok(());
        }
        proof {
            assert(forall|k: int| i < k < t0.len() ==> t0[i as int] < #[trigger] t0[k]);
        }
        self.tracked_ids.insert(i, id);
        proof {
            let t1 = self.tracked_ids@;
            assert(t1 == t0.insert(i as int, id));
            assert(forall|k: int| 0 <= k < i ==> t1[k] == t0[k]);
            assert(t1[i as int] == id);
            assert(forall|k: int| i < k < t1.len() ==> t1[k] == t0[k - 1]);
            assert forall|v: u64| t1.contains(v) implies (t0.contains(v) || v == id) by {
                let w = choose|w: int| 0 <= w < t1.len() && t1[w] == v;
                if w < i {
                    assert(t0[w] == v);
                } else if w > i {
                    assert(t0[w - 1] == v);
                }
            }
            assert forall|v: u64| t0.contains(v) || v == id implies t1.contains(v) by {
                if t0.contains(v) {
                    let w = choose|w: int| 0 <= w < t0.len() && t0[w] == v;
                    if w < i {
                        assert(t1[w] == v);
                    } else {
                        assert(t1[w + 1] == v);
                    }
                } else {
                    assert(t1[i as int] == v);
                }
            }
            assert forall|k: int| 0 <= k < t1.len() implies (#[trigger] t1[k])
                < crate::board::ID_LIM by {
                if k < i {
                    assert(t0[k] < crate::board::ID_LIM);
                } else if k > i {
                    assert(t0[k - 1] < crate::board::ID_LIM);
                }
            }
            assert forall|a: int, b: int| 0 <= a < b < t1.len() implies t1[a] < t1[b] by {
                if b < i {
                } else if a < i && b == i {
                    assert(t0[a] < id);
                } else if a < i {
                    assert(t0[a] < id);
                    assert(t0[b - 1] > id);
                } else if a == i {
                    assert(t0[b - 1] > id);
                } else {
                    assert(t0[a - 1] < t0[b - 1]);
                }
            }
        }
        Ok(())
    }

    /// The current duty rotation: the identities under track, ascending.
    pub fn get_job_rotation(&self) -> (r: &Vec<u64>)
        ensures
            r@ == self.tracked_ids@,
    {
        &self.tracked_ids
    }

    /// Replace the duty rotation.  Every identity that was under track
    /// and is absent from the new rotation has its contact demoted in
    /// place to a search record, losing its history; everything else on
    /// the board stands.
    pub fn set_job_rotation(&mut self, rotation: Vec<u64>)
        requires
            old(self).wf(),
            old(self).contacts.ids_wf(),
            forall|i: int, j: int| 0 <= i < j < rotation@.len() ==> rotation@[i] < rotation@[j],
            forall|i: int|
                0 <= i < rotation@.len() ==> (#[trigger] rotation@[i]) < crate::board::ID_LIM,
            forall|i: int|
                0 <= i < old(self).contacts.entries@.len() ==> (#[trigger] old(self).contacts.entries@[i]).1.wf(),
        ensures
            final(self).wf(),
            final(self).tracked_ids@ == rotation@,
            final(self).track_index == old(self).track_index,
            final(self).search == old(self).search,
            final(self).contacts.entries@.len() == old(self).contacts.entries@.len(),
            forall|k: int|
                0 <= k < old(self).contacts.entries@.len() ==> (if old(
                    self,
                ).tracked_ids@.contains((#[trigger] old(self).contacts.entries@[k]).0)
                    && !rotation@.contains(old(self).contacts.entries@[k].0) {
                    spec_demoted_entry(
                        old(self).contacts.entries@[k],
                        final(self).contacts.entries@[k],
                    )
                } else {
                    final(self).contacts.entries@[k] == old(self).contacts.entries@[k]
                }),
    {
        let ghost s0 = self.contacts.entries@;
        let ghost t0 = self.tracked_ids@;
        let total = self.tracked_ids.len();
        let mut i: usize = 0;
        while i < total
            invariant
                old(self).wf(),
                t0 == old(self).tracked_ids@,
                s0 == old(self).contacts.entries@,
                total == t0.len(),
                i <= total,
                self.tracked_ids@ == t0,
                self.search == old(self).search,
                self.track == old(self).track,
                self.track_index == old(self).track_index,
                forall|i2: int, j2: int| 0 <= i2 < j2 < rotation@.len() ==> rotation@[i2]
                    < rotation@[j2],
                self.contacts.entries@.len() == s0.len(),
                forall|k: int|
                    0 <= k < s0.len() ==> (#[trigger] self.contacts.entries@[k]).1.wf(),
                forall|k: int|
                    0 <= k < s0.len() ==> (#[trigger] self.contacts.entries@[k]).0 == s0[k].0,
                forall|a: int, b: int|
                    0 <= a < b < s0.len() ==> (#[trigger] s0[a]).0 < (#[trigger] s0[b]).0,
                forall|k: int|
                    0 <= k < s0.len() ==> (if (exists|j: int|
                        0 <= j < i && t0[j] == (#[trigger] s0[k]).0 && !rotation@.contains(
                            t0[j],
                        )) {
                        spec_demoted_entry(s0[k], self.contacts.entries@[k])
                    } else {
                        self.contacts.entries@[k] == s0[k]
                    }),
            decreases total - i,
        {
            let id = self.tracked_ids[i];
            if !rotation_contains(&rotation, id) {
                let ghost cur = self.contacts.entries@;
                proof {
                    assert(forall|a: int, b: int|
                        0 <= a < b < cur.len() ==> (#[trigger] cur[a]).0 < (
                        #[trigger] cur[b]).0);
                }
                self.contacts.demote(id);
                proof {
                    lemma_rotation_step(s0, t0, rotation@, cur, self.contacts.entries@, i as int, id);
                }
            } else {
                proof {
                    assert forall|k: int| 0 <= k < s0.len() implies (if (exists|j: int|
                        0 <= j < i + 1 && t0[j] == (#[trigger] s0[k]).0 && !rotation@.contains(
                            t0[j],
                        )) {
                        spec_demoted_entry(s0[k], self.contacts.entries@[k])
                    } else {
                        self.contacts.entries@[k] == s0[k]
                    }) by {
                        if exists|j: int|
                            0 <= j < i + 1 && t0[j] == s0[k].0 && !rotation@.contains(t0[j]) {
                            let j = choose|j: int|
                                0 <= j < i + 1 && t0[j] == s0[k].0 && !rotation@.contains(t0[j]);
                            assert(j < i);
                        }
                    }
                }
            }
            i = i + 1;
        }
        self.tracked_ids = rotation;
    }

    /// Drop an identity from the rotation; the board is untouched.
    fn remove_from_rotation(&mut self, id: u64)
        requires
            old(self).wf(),
        ensures
            final(self).wf(),
            final(self).contacts == old(self).contacts,
            final(self).search == old(self).search,
            final(self).track == old(self).track,
            final(self).track_index == old(self).track_index,
            forall|v: u64|
                final(self).tracked_ids@.contains(v) <==> (old(self).tracked_ids@.contains(v) && v != id),
    {
        let ghost t0 = self.tracked_ids@;
        let mut i: usize = 0;
        while i < self.tracked_ids.len()
            invariant
                old(self).wf(),
                self.tracked_ids@ == t0,
                self.contacts == old(self).contacts,
                self.search == old(self).search,
                self.track == old(self).track,
                self.track_index == old(self).track_index,
                t0 == old(self).tracked_ids@,
                i <= t0.len(),
                forall|k: int| 0 <= k < i ==> (#[trigger] t0[k]) != id,
            decreases t0.len() - i,
        {
            if self.tracked_ids[i] == id {
                self.tracked_ids.remove(i);
                proof {
                    let t1 = self.tracked_ids@;
                    assert(t1 == t0.remove(i as int));
                    assert(forall|k: int| 0 <= k < i ==> t1[k] == t0[k]);
                    assert(forall|k: int| i <= k < t1.len() ==> t1[k] == t0[k + 1]);
                    assert forall|v: u64| t1.contains(v) implies (t0.contains(v) && v != id) by {
                        let w = choose|w: int| 0 <= w < t1.len() && t1[w] == v;
                        if w < i {
                            assert(t0[w] == v);
                        } else {
                            assert(t0[w + 1] == v);
                            assert(t0[i as int] < t0[w + 1]);
                        }
                    }
                    assert forall|v: u64| t0.contains(v) && v != id implies t1.contains(v) by {
                        let w = choose|w: int| 0 <= w < t0.len() && t0[w] == v;
                        if w < i {
                            assert(t1[w] == v);
                        } else {
                            assert(w != i);
                            assert(t1[w - 1] == v);
                        }
                    }
                    assert forall|a: int, b: int| 0 <= a < b < t1.len() implies t1[a] < t1[b] by {
                        if b < i {
                        } else if a < i {
                            assert(t0[a] < t0[b + 1]);
                        } else {
                            assert(t0[a + 1] < t0[b + 1]);
                        }
                    }
                    assert forall|k: int| 0 <= k < t1.len() implies (#[trigger] t1[k])
                        < crate::board::ID_LIM by {
                        if k < i {
                            assert(t0[k] < crate::board::ID_LIM);
                        } else {
                            assert(t0[k + 1] < crate::board::ID_LIM);
                        }
                    }
                }
                return ;
            }
            i = i + 1;
        }
        proof {
            assert(!t0.contains(id));
        }
    }

    /// Stop tracking an identity: the duty leaves the rotation and the
    /// contact, if it is still live and tracked, is demoted in place to
    /// a search contact, losing its history.
    pub fn stop_tracking(&mut self, id: u64)
        requires
            old(self).wf(),
            old(self).contacts.ids_wf(),
            forall|i: int|
                0 <= i < old(self).contacts.entries@.len() ==> (#[trigger] old(self).contacts.entries@[i]).1.wf(),
        ensures
            final(self).wf(),
            forall|v: u64|
                final(self).tracked_ids@.contains(v) <==> (old(self).tracked_ids@.contains(v) && v
                    != id),
            (exists|i: int, sc: SearchContact|
                0 <= i < old(self).contacts.entries@.len() && (old(self).contacts.entries@[i]).0 == id && old(self).contacts.entries@[i].1 is Track
                    && final(self).contacts.entries@ == #[trigger] old(self).contacts.entries@.update(i, (id, Contact::Search(sc))) && (match old(self).contacts.entries@[i].1 {
                    Contact::Track(t) => crate::contacts::track::spec_demotion(t, sc),
                    Contact::Search(..) => false,
                }) && sc.wf()) || final(self).contacts.entries@ == old(self).contacts.entries@,
    {
        proof {
            if old(self).tracked_ids@.contains(id) {
                let w = choose|w: int|
                    0 <= w < old(self).tracked_ids@.len() && old(self).tracked_ids@[w] == id;
                assert(id < crate::board::ID_LIM);
            }
        }
        if id >= crate::board::ID_LIM {
            // Identities this large are never handed out; there is
            // nothing to demote and nothing in the rotation.
            proof {
                assert(!old(self).tracked_ids@.contains(id));
            }
            return ;
        }
        self.remove_from_rotation(id);
        self.contacts.demote(id);
    }

    /// Run the current duty's sweep for this tick.  A tracking duty
    /// takes its contact off the board, feeds it the sweep's outcome and
    /// puts it back updated, or drops the duty when the sweep missed; a
    /// search duty folds any find into the board.
    pub fn scan(&mut self, emitter: &Emitter, scan: Option<ScanData>, now: i64)
        requires
            old(self).wf(),
            emitter.wf(),
            match scan {
                Some(s) => s.wf(),
                None => true,
            },
            0 <= now <= CONTACT_TIME_LIM,
            old(self).contacts.wf_at(now as int),
            crate::board::spec_fresh_id(old(self).contacts.entries@) < crate::board::ID_LIM,
            forall|i: int|
                0 <= i < old(self).contacts.entries@.len() ==> (#[trigger] old(self).contacts.entries@[i]).1.spec_time() < now,
        ensures
            final(self).wf(),
            final(self).contacts.wf_at(now as int),
            final(self).track_index == old(self).track_index,
            ({
                let s0 = old(self).contacts.entries@;
                if old(self).track_index < old(self).tracked_ids@.len() {
                    let id = old(self).tracked_ids@[old(self).track_index as int];
                    if forall|i: int| 0 <= i < s0.len() ==> (#[trigger] s0[i]).0 != id {
                        // The duty names no live contact: it leaves the
                        // rotation, the board stands.
                        &&& final(self).contacts.entries@ == s0
                        &&& final(self).search == old(self).search
                        &&& forall|v: u64|
                            final(self).tracked_ids@.contains(v) <==> (old(self).tracked_ids@.contains(v) && v != id)
                    } else {
                        match scan {
                            Some(sc) => {
                                // A hit: the contact, promoted if it was
                                // still a search record, absorbs the
                                // sweep under its identity.
                                &&& exists|i: int, t2: TrackedContact|
                                    0 <= i < s0.len() && s0[i].0 == id && final(self).contacts.entries@ == #[trigger] s0.update(
                                        i,
                                        (id, Contact::Track(t2)),
                                    ) && t2.wf() && (match s0[i].1 {
                                        Contact::Track(t0) => spec_updated(
                                            t0,
                                            *emitter,
                                            sc,
                                            now,
                                            t2,
                                        ),
                                        Contact::Search(ssc) => exists|t0: TrackedContact|
                                            spec_promotion(ssc, t0) && spec_updated(
                                                t0,
                                                *emitter,
                                                sc,
                                                now,
                                                t2,
                                            ),
                                    })
                                &&& final(self).tracked_ids@ == old(self).tracked_ids@
                                &&& final(self).search == old(self).search
                            },
                            None => {
                                // A miss loses the contact and drops the
                                // duty.
                                &&& exists|i: int|
                                    0 <= i < s0.len() && (#[trigger] s0[i]).0 == id && final(self).contacts.entries@ == s0.remove(i)
                                &&& forall|v: u64|
                                    final(self).tracked_ids@.contains(v) <==> (old(self).tracked_ids@.contains(v) && v != id)
                                &&& final(self).search == old(self).search
                            },
                        }
                    }
                } else {
                    // The search duty: a find is folded into the board,
                    // and the sweep is remembered for the adjustment.
                    &&& final(self).tracked_ids@ == old(self).tracked_ids@
                    &&& final(self).search.last_heading == emitter.heading
                    &&& match scan {
                        Some(sc) => final(self).search.last_contact == Some(
                            SearchContact::new_spec(now, *emitter, sc),
                        ) && final(self).contacts.entries@ == crate::board::spec_add_result(
                            s0,
                            Contact::Search(SearchContact::new_spec(now, *emitter, sc)),
                            now as int,
                        ),
                        None => (final(self).search.last_contact is None) && final(self).contacts.entries@ == s0,
                    }
                }
            }),
    {
        if self.track_index < self.tracked_ids.len() {
            let id = self.tracked_ids[self.track_index];
            let taken = self.contacts.take(id);
            let target: Option<TrackedContact> = match taken {
                Some(Contact::Search(c)) => Some(TrackedContact::from_search(&c)),
                Some(Contact::Track(t)) => Some(t),
                None => None,
            };
            match target {
                Some(t) => {
                    proof {
                        lemma_remove_keeps_wf(old(self).contacts, self.contacts, now as int);
                    }
                    let updated = self.track.scan(emitter, t, scan, now);
                    match updated {
                        Some(t2) => {
                            let ghost s0 = old(self).contacts.entries@;
                            let ghost i = choose|i: int|
                                0 <= i < s0.len() && #[trigger] s0[i] == (
                                    id,
                                    old(self).contacts.entries@[i].1,
                                ) && self.contacts.entries@ == s0.remove(i);
                            let ghost pre = self.contacts;
                            self.contacts.insert(id, Contact::Track(t2));
                            proof {
                                let t = self.contacts.entries@;
                                assert forall|k: int| 0 <= k < t.len() implies (#[trigger] t[
                                k]).1.wf() && 0 <= t[k].1.spec_time() <= now by {
                                    if t[k] == (id, Contact::Track(t2)) {
                                    } else {
                                        assert(pre.entries@.contains(t[k]));
                                        let w = choose|w: int|
                                            0 <= w < pre.entries@.len() && pre.entries@[w] == t[k];
                                    }
                                }
                                // The reinserted contact lands back at
                                // its old position: the board is the old
                                // board with that entry updated.
                                lemma_reinsert_position(s0, pre.entries@, t, i, id, t2);
                            }
                        },
                        None => {
                            proof {
                                lemma_remove_keeps_wf(
                                    old(self).contacts,
                                    self.contacts,
                                    now as int,
                                );
                            }
                            self.remove_from_rotation(id);
                        },
                    }
                },
                None => {
                    self.remove_from_rotation(id);
                },
            }
        } else {
            let found = self.search.scan(emitter, scan, now);
            match found {
                Some(c) => {
                    self.contacts.add(Contact::Search(c), now);
                },
                None => {},
            }
        }
    }

    /// Advance the rotation cursor and compute the next duty's sweep.
    /// Returns nothing when the next duty's contact has gone missing.
    pub fn adjust<T: Acceleration>(&mut self, emitter: &T, now: i64) -> (r: Option<RadarConfig>)
        requires
            old(self).wf(),
            emitter.valid(),
            emitter.spec_position().in_range(crate::contacts::scan::SCAN_POS_LIM as int),
            emitter.spec_velocity().in_range(crate::contacts::scan::SCAN_VEL_LIM as int),
            emitter.spec_acceleration().in_range(KIN_ACC_LIM as int),
            0 <= now <= CONTACT_TIME_LIM,
            old(self).contacts.wf_at(now as int),
            match old(self).search.last_contact {
                Some(c) => c.time <= now,
                None => true,
            },
        ensures
            final(self).wf(),
            final(self).contacts == old(self).contacts,
            final(self).search == old(self).search,
            final(self).tracked_ids == old(self).tracked_ids,
            final(self).track_index == (if old(self).track_index >= old(self).tracked_ids@.len() {
                0int
            } else {
                old(self).track_index + 1
            }),
            ({
                let s0 = old(self).contacts.entries@;
                let new_idx = if old(self).track_index >= old(self).tracked_ids@.len() {
                    0int
                } else {
                    old(self).track_index + 1
                };
                if new_idx < old(self).tracked_ids@.len() {
                    let id = old(self).tracked_ids@[new_idx];
                    &&& (r is Some <==> exists|i: int|
                        0 <= i < s0.len() && (#[trigger] s0[i]).0 == id)
                    &&& match r {
                        Some(cfg) => exists|i: int|
                            0 <= i < s0.len() && (#[trigger] s0[i]).0 == id && (match s0[i].1 {
                                Contact::Track(t) => spec_track_config(
                                    t,
                                    emitter.spec_position(),
                                    emitter.spec_velocity(),
                                    emitter.spec_acceleration(),
                                    now as int,
                                    cfg,
                                ),
                                Contact::Search(sc) => exists|t0: TrackedContact|
                                    spec_promotion(sc, t0) && spec_track_config(
                                        t0,
                                        emitter.spec_position(),
                                        emitter.spec_velocity(),
                                        emitter.spec_acceleration(),
                                        now as int,
                                        cfg,
                                    ),
                            }),
                        None => true,
                    }
                } else {
                    match r {
                        Some(cfg) => spec_search_config(
                            old(self).search,
                            emitter.spec_position(),
                            emitter.spec_velocity(),
                            emitter.spec_acceleration(),
                            now as int,
                            cfg,
                        ),
                        None => false,
                    }
                }
            }),
    {
        self.track_index = if self.track_index >= self.tracked_ids.len() {
            0
        } else {
            self.track_index + 1
        };
        if self.track_index < self.tracked_ids.len() {
            let id = self.tracked_ids[self.track_index];
            let found = self.contacts.get(id);
            match found {
                Some(Contact::Track(t)) => {
                    proof {
                        lemma_board_entry_wf(self.contacts, id, now as int);
                    }
                    Some(self.track.adjust(emitter, t, now))
                },
                Some(Contact::Search(c)) => {
                    proof {
                        lemma_board_entry_wf(self.contacts, id, now as int);
                    }
                    let t = TrackedContact::from_search(c);
                    Some(self.track.adjust(emitter, &t, now))
                },
                None => None,
            }
        } else {
            Some(self.search.adjust(emitter, now))
        }
    }
}

/// What one demotion does to a board entry: a tracked contact becomes
/// the search record of its newest observation; a search contact
/// stands.
pub open spec fn spec_demoted_entry(oe: (u64, Contact), ne: (u64, Contact)) -> bool {
    ne.0 == oe.0 && match oe.1 {
        Contact::Track(t) => match ne.1 {
            Contact::Search(sc) => crate::contacts::track::spec_demotion(t, sc) && sc.wf(),
            Contact::Track(..) => false,
        },
        Contact::Search(..) => ne.1 == oe.1,
    }
}

/// Whether a rotation names an identity.
fn rotation_contains(rotation: &Vec<u64>, id: u64) -> (r: bool)
    ensures
        r == rotation@.contains(id),
{
    let mut i: usize = 0;
    while i < rotation.len()
        invariant
            i <= rotation@.len(),
            forall|k: int| 0 <= k < i ==> (#[trigger] rotation@[k]) != id,
        decreases rotation@.len() - i,
    {
        if rotation[i] == id {
            proof {
                assert(rotation@.contains(id));
            }
            return true;
        }
        i = i + 1;
    }
    false
}

/// One demotion extends the pointwise rotation invariant by one
/// processed identity.
proof fn lemma_rotation_step(
    s0: Seq<(u64, Contact)>,
    t0: Seq<u64>,
    rotation: Seq<u64>,
    cur: Seq<(u64, Contact)>,
    next: Seq<(u64, Contact)>,
    i: int,
    id: u64,
)
    requires
        forall|a: int, b: int| 0 <= a < b < t0.len() ==> t0[a] < t0[b],
        0 <= i < t0.len(),
        id == t0[i],
        !rotation.contains(id),
        cur.len() == s0.len(),
        forall|k: int| 0 <= k < s0.len() ==> (#[trigger] cur[k]).0 == s0[k].0,
        forall|a: int, b: int| 0 <= a < b < s0.len() ==> (#[trigger] s0[a]).0 < (
        #[trigger] s0[b]).0,
        forall|k: int|
            0 <= k < s0.len() ==> (if (exists|j: int|
                0 <= j < i && t0[j] == (#[trigger] s0[k]).0 && !rotation.contains(t0[j])) {
                spec_demoted_entry(s0[k], cur[k])
            } else {
                cur[k] == s0[k]
            }),
        (exists|m: int|
            0 <= m < cur.len() && (#[trigger] cur[m]).0 == id && cur[m].1 is Track) ==> (exists|
            m: int,
            sc: crate::contacts::search::SearchContact,
        |
            0 <= m < cur.len() && (cur[m]).0 == id && cur[m].1 is Track && next
                == #[trigger] cur.update(m, (id, Contact::Search(sc))) && (match cur[m].1 {
                Contact::Track(t) => crate::contacts::track::spec_demotion(t, sc),
                Contact::Search(..) => false,
            }) && sc.wf()),
        !(exists|m: int|
            0 <= m < cur.len() && (#[trigger] cur[m]).0 == id && cur[m].1 is Track) ==> next
            == cur,
    ensures
        next.len() == s0.len(),
        forall|k: int| 0 <= k < s0.len() ==> (#[trigger] next[k]).0 == s0[k].0,
        forall|k: int|
            0 <= k < s0.len() ==> (if (exists|j: int|
                0 <= j < i + 1 && t0[j] == (#[trigger] s0[k]).0 && !rotation.contains(t0[j])) {
                spec_demoted_entry(s0[k], next[k])
            } else {
                next[k] == s0[k]
            }),
{
    assert forall|k: int| 0 <= k < s0.len() implies (if (exists|j: int|
        0 <= j < i + 1 && t0[j] == (#[trigger] s0[k]).0 && !rotation.contains(t0[j])) {
        spec_demoted_entry(s0[k], next[k])
    } else {
        next[k] == s0[k]
    }) by {
        let has_track = exists|m: int|
            0 <= m < cur.len() && (#[trigger] cur[m]).0 == id && cur[m].1 is Track;
        if !has_track {
            assert(next == cur);
            if exists|j: int| 0 <= j < i + 1 && t0[j] == s0[k].0 && !rotation.contains(t0[j]) {
                let j = choose|j: int|
                    0 <= j < i + 1 && t0[j] == s0[k].0 && !rotation.contains(t0[j]);
                if j == i && s0[k].0 == id {
                    if cur[k] == s0[k] {
                        // No entry under this identity is tracked, so
                        // the unchanged entry is already a search
                        // record: demotion leaves it as it stands.
                        assert(!(cur[k].1 is Track));
                        assert(spec_demoted_entry(s0[k], next[k]));
                    } else {
                        let j2 = choose|j2: int|
                            0 <= j2 < i && t0[j2] == s0[k].0 && !rotation.contains(t0[j2]);
                        assert(spec_demoted_entry(s0[k], cur[k]));
                    }
                }
            }
        } else {
            let (m, sc): (int, crate::contacts::search::SearchContact) = choose|
                m: int,
                sc: crate::contacts::search::SearchContact,
            |
                0 <= m < cur.len() && (cur[m]).0 == id && cur[m].1 is Track && next
                    == #[trigger] cur.update(m, (id, Contact::Search(sc))) && (match cur[m].1 {
                    Contact::Track(t) => crate::contacts::track::spec_demotion(t, sc),
                    Contact::Search(..) => false,
                }) && sc.wf();
            if k != m {
                assert(next[k] == cur[k]);
                if exists|j: int| 0 <= j < i + 1 && t0[j] == s0[k].0 && !rotation.contains(t0[j]) {
                    let j = choose|j: int|
                        0 <= j < i + 1 && t0[j] == s0[k].0 && !rotation.contains(t0[j]);
                    if j == i {
                        assert(s0[k].0 == id);
                        assert(cur[m].0 == id);
                        assert(s0[m].0 == id);
                        // Identities are strictly ascending, so one
                        // identity names one slot.
                        assert(k == m) by {
                            if k < m {
                                assert(s0[k].0 < s0[m].0);
                            }
                            if m < k {
                                assert(s0[m].0 < s0[k].0);
                            }
                        }
                        assert(false);
                    }
                }
            } else {
                assert(next[m].1 == Contact::Search(sc));
                assert(cur[m].1 is Track);
                assert(cur[m] == s0[m] || spec_demoted_entry(s0[m], cur[m]));
                if cur[m] != s0[m] {
                    assert(spec_demoted_entry(s0[m], cur[m]));
                    assert(match s0[m].1 {
                        Contact::Track(..) => !(cur[m].1 is Track),
                        Contact::Search(..) => cur[m].1 == s0[m].1,
                    });
                    assert(false);
                }
                assert(cur[m] == s0[m]);
                assert(spec_demoted_entry(s0[m], next[m]));
                assert(t0[i] == s0[m].0 && !rotation.contains(t0[i]));
            }
        }
    }
}

/// Reinserting a contact under the identity just removed lands it where
/// it was: the board is the old board with that entry updated.
proof fn lemma_reinsert_position(
    s0: Seq<(u64, Contact)>,
    pre: Seq<(u64, Contact)>,
    t: Seq<(u64, Contact)>,
    i: int,
    id: u64,
    t2: TrackedContact,
)
    requires
        forall|a: int, b: int| 0 <= a < b < s0.len() ==> s0[a].0 < s0[b].0,
        0 <= i < s0.len(),
        s0[i].0 == id,
        pre == s0.remove(i),
        (exists|i2: int|
            0 <= i2 < pre.len() && (#[trigger] pre[i2]).0 == id && t == pre.update(
                i2,
                (id, Contact::Track(t2)),
            )) || (exists|j: int|
            0 <= j <= pre.len() && t == #[trigger] pre.insert(j, (id, Contact::Track(t2))) && (
            forall|k: int| 0 <= k < j ==> (#[trigger] pre[k]).0 < id) && (forall|k: int|
                j <= k < pre.len() ==> (#[trigger] pre[k]).0 > id)),
    ensures
        t == s0.update(i, (id, Contact::Track(t2))),
{
    assert(forall|k: int| 0 <= k < i ==> (#[trigger] pre[k]) == s0[k]);
    assert(forall|k: int| i <= k < pre.len() ==> (#[trigger] pre[k]) == s0[k + 1]);
    assert forall|k: int| 0 <= k < pre.len() implies (#[trigger] pre[k]).0 != id by {
        if k < i {
            assert(s0[k].0 < s0[i].0);
        } else {
            assert(s0[i].0 < s0[k + 1].0);
        }
    }
    if exists|i2: int|
        0 <= i2 < pre.len() && (#[trigger] pre[i2]).0 == id && t == pre.update(
            i2,
            (id, Contact::Track(t2)),
        ) {
        let i2 = choose|i2: int|
            0 <= i2 < pre.len() && (#[trigger] pre[i2]).0 == id && t == pre.update(
                i2,
                (id, Contact::Track(t2)),
            );
        assert(false);
    } else {
        let j = choose|j: int|
            0 <= j <= pre.len() && t == #[trigger] pre.insert(j, (id, Contact::Track(t2))) && (
            forall|k: int| 0 <= k < j ==> (#[trigger] pre[k]).0 < id) && (forall|k: int|
                j <= k < pre.len() ==> (#[trigger] pre[k]).0 > id);
        assert(j == i) by {
            if j < i {
                assert(pre[j].0 > id);
                assert(pre[j] == s0[j]);
                assert(s0[j].0 < s0[i].0);
            }
            if j > i {
                assert(i < pre.len());
                assert(pre[i].0 < id);
                assert(pre[i] == s0[i + 1]);
                assert(s0[i].0 < s0[i + 1].0);
            }
        }
        crate::board::lemma_remove_insert_is_update(s0, i, (id, Contact::Track(t2)));
    }
}

/// Taking an entry off a well-formed board leaves it well formed.
proof fn lemma_remove_keeps_wf(b0: ContactBoard, b1: ContactBoard, now: int)
    requires
        b0.wf_at(now),
        b1.entries@ == b0.entries@ || exists|i: int|
            0 <= i < b0.entries@.len() && b1.entries@ == b0.entries@.remove(i),
    ensures
        b1.wf_at(now),
{
    if b1.entries@ != b0.entries@ {
        let i = choose|i: int| 0 <= i < b0.entries@.len() && b1.entries@ == b0.entries@.remove(i);
        assert(forall|k: int|
            0 <= k < b1.entries@.len() ==> #[trigger] b1.entries@[k] == (if k < i {
                b0.entries@[k]
            } else {
                b0.entries@[k + 1]
            }));
    }
}

/// A board entry satisfies the board's per-entry invariant.
proof fn lemma_board_entry_wf(b: ContactBoard, id: u64, now: int)
    requires
        b.wf_at(now),
    ensures
        forall|i: int|
            0 <= i < b.entries@.len() ==> (#[trigger] b.entries@[i]).1.wf() && 0 <= b.entries@[
                i].1.spec_time() <= now,
{
}



} // verus!
