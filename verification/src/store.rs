//! The frame registry: owns the frame arena and maps string identifiers to
//! arena indices, remembering each identifier's declared parent identifier.
//!
//! Identifiers are unique: registering one again replaces its entry (last
//! write wins) while the frame arena only grows, so frames already derived
//! from the old entry keep their arena indices untouched.

use vstd::prelude::*;
use crate::frame::Frame;
use crate::transform::arena_wf;

verus! {

/// One registry entry: external identifier, declared parent identifier, and
/// the owned frame's arena index.
pub struct FrameEntry {
    pub id: String,
    pub parent_id: Option<String>,
    pub index: usize,
}

/// The entry registered under `id`, if any (identifiers are unique, so the
/// scan direction is immaterial).
pub open spec fn lookup(entries: Seq<FrameEntry>, id: Seq<char>) -> Option<FrameEntry>
    decreases entries.len(),
{
    if entries.len() == 0 {
        None
    } else if entries.last().id@ == id {
        Some(entries.last())
    } else {
        lookup(entries.drop_last(), id)
    }
}

/// Position of the entry registered under `id`, or `-1`.
pub open spec fn find_idx(entries: Seq<FrameEntry>, id: Seq<char>) -> int
    decreases entries.len(),
{
    if entries.len() == 0 {
        -1
    } else if entries.last().id@ == id {
        entries.len() - 1
    } else {
        find_idx(entries.drop_last(), id)
    }
}

/// No two entries carry the same identifier.
pub open spec fn unique_ids(entries: Seq<FrameEntry>) -> bool {
    forall|k1: int, k2: int| 0 <= k1 < k2 < entries.len()
        ==> (#[trigger] entries[k1].id@) != (#[trigger] entries[k2].id@)
}

/// `find_idx` and `lookup` agree: a nonnegative position names the found
/// entry, a negative one means the identifier is absent everywhere.
pub proof fn lemma_find_props(entries: Seq<FrameEntry>, id: Seq<char>)
    ensures
        find_idx(entries, id) >= 0 ==> {
            &&& find_idx(entries, id) < entries.len()
            &&& entries[find_idx(entries, id)].id@ == id
            &&& lookup(entries, id) == Some(entries[find_idx(entries, id)])
        },
        find_idx(entries, id) < 0 ==> lookup(entries, id) is None && (forall|k: int|
            0 <= k < entries.len() ==> (#[trigger] entries[k].id@) != id),
    decreases entries.len(),
{
    if entries.len() == 0 {
    } else if entries.last().id@ == id {
    } else {
        lemma_find_props(entries.drop_last(), id);
        let fi = find_idx(entries, id);
        if fi >= 0 {
            assert(entries.drop_last()[fi] == entries[fi]);
        } else {
            assert forall|k: int| 0 <= k < entries.len() implies (#[trigger] entries[
                k].id@) != id by {
                if k < entries.len() - 1 {
                    assert(entries.drop_last()[k] == entries[k]);
                }
            }
        }
    }
}

/// Every stored entry's identifier is found by `lookup`.
pub proof fn lemma_member_lookup(entries: Seq<FrameEntry>, k: int)
    requires
        0 <= k < entries.len(),
    ensures
        lookup(entries, entries[k].id@) is Some,
    decreases entries.len(),
{
    if entries.last().id@ == entries[k].id@ {
    } else {
        assert(entries.drop_last()[k] == entries[k]);
        lemma_member_lookup(entries.drop_last(), k);
    }
}

/// Replacing the entry that holds an identifier redirects that identifier's
/// lookup and leaves every other lookup unchanged.
pub proof fn lemma_lookup_update(entries: Seq<FrameEntry>, k: int, e: FrameEntry,
    id2: Seq<char>)
    requires
        unique_ids(entries),
        0 <= k < entries.len(),
        entries[k].id@ == e.id@,
    ensures
        lookup(entries.update(k, e), id2) == if id2 == e.id@ {
            Some(e)
        } else {
            lookup(entries, id2)
        },
    decreases entries.len(),
{
    let up = entries.update(k, e);
    if k == entries.len() - 1 {
        assert(up.last() == e);
        assert(up.drop_last() =~= entries.drop_last());
    } else {
        assert(up.last() == entries.last());
        assert(up.drop_last() =~= entries.drop_last().update(k, e));
        assert(entries[k].id@ != entries[entries.len() - 1].id@);
        assert(unique_ids(entries.drop_last())) by {
            assert forall|k1: int, k2: int| 0 <= k1 < k2 < entries.drop_last().len()
                implies (#[trigger] entries.drop_last()[k1].id@) != (
                #[trigger] entries.drop_last()[k2].id@) by {
                assert(entries.drop_last()[k1] == entries[k1]);
                assert(entries.drop_last()[k2] == entries[k2]);
            }
        }
        assert(entries.drop_last()[k] == entries[k]);
        lemma_lookup_update(entries.drop_last(), k, e, id2);
    }
}

/// Position of the entry holding `id`, scanning like `find_idx`.
fn find_pos(entries: &Vec<FrameEntry>, id: &String) -> (r: Option<usize>)
    ensures
        match r {
            Some(k) => find_idx(entries@, id@) == k as int,
            None => find_idx(entries@, id@) == -1,
        },
{
    let mut j = entries.len();
    proof {
        assert(entries@.take(entries@.len() as int) =~= entries@);
    }
    while j > 0
        invariant
            j <= entries@.len(),
            find_idx(entries@, id@) == find_idx(entries@.take(j as int), id@),
        decreases j,
    {
        let e = &entries[j - 1];
        let hit = e.id == *id;
        proof {
            assert(entries@.take(j as int).last() == entries@[j - 1]);
            assert(entries@.take(j as int).drop_last() =~= entries@.take(j - 1));
        }
        if hit {
            return Some(j - 1);
        }
        j = j - 1;
    }
    proof {
        assert(entries@.take(0) =~= Seq::<FrameEntry>::empty());
    }
    None
}

pub struct FrameStore {
    pub frames: Vec<Frame>,
    pub entries: Vec<FrameEntry>,
}

impl FrameStore {
    pub open spec fn wf(self) -> bool {
        &&& arena_wf(self.frames@)
        &&& forall|k: int| 0 <= k < self.entries@.len()
            ==> (#[trigger] self.entries@[k].index) < self.frames@.len()
        &&& unique_ids(self.entries@)
    }

    pub fn new() -> (r: FrameStore)
        ensures
            r.frames@.len() == 0,
            r.entries@.len() == 0,
            r.wf(),
    {
        FrameStore { frames: Vec::new(), entries: Vec::new() }
    }

    /// Registers `frame` under `id`.  An identifier already in use has its
    /// entry replaced — last write wins — while every other identifier's
    /// lookup, and every already-stored frame, stays untouched.  Rejects
    /// (returning `false` and changing nothing) a frame whose parent index
    /// does not refer to an already-stored frame, or one that is not
    /// well-formed: that is the cycle check the arena makes trivial.
    pub fn insert(&mut self, id: String, parent_id: Option<String>, frame: Frame) -> (ok:
        bool)
        requires
            old(self).wf(),
        ensures
            final(self).wf(),
            ok == ((frame.spec_parent() is Some ==> frame.spec_parent()->0 < old(
                self).frames@.len()) && frame.wf()),
            ok ==> final(self).frames@ == old(self).frames@.push(frame),
            ok ==> final(self).entries@ == (if find_idx(old(self).entries@, id@) >= 0 {
                old(self).entries@.update(find_idx(old(self).entries@, id@), FrameEntry {
                    id,
                    parent_id,
                    index: old(self).frames.len(),
                })
            } else {
                old(self).entries@.push(FrameEntry {
                    id,
                    parent_id,
                    index: old(self).frames.len(),
                })
            }),
            ok ==> lookup(final(self).entries@, id@) == Some(FrameEntry {
                id,
                parent_id,
                index: old(self).frames.len(),
            }),
            ok ==> forall|other: Seq<char>| other != id@ ==> lookup(
                final(self).entries@, other) == lookup(old(self).entries@, other),
            !ok ==> *final(self) == *old(self),
    {
        let parent_ok = match frame.parent() {
            None => true,
            Some(p) => p < self.frames.len(),
        };
        let shape_ok = frame_wf_exec(&frame);
        if !(parent_ok && shape_ok) {
            return false;
        }
        let ghost entries0 = self.entries@;
        let pos = find_pos(&self.entries, &id);
        let index = self.frames.len();
        self.frames.push(frame);
        let entry = FrameEntry { id, parent_id, index };
        let ghost entry_v = entry;
        proof {
            lemma_find_props(entries0, entry_v.id@);
        }
        match pos {
            Some(k) => {
                self.entries[k] = entry;
                proof {
                    lemma_lookup_update(entries0, k as int, entry_v, entry_v.id@);
                    assert forall|other: Seq<char>| other != entry_v.id@ implies lookup(
                        self.entries@, other) == lookup(entries0, other) by {
                        lemma_lookup_update(entries0, k as int, entry_v, other);
                    }
                    assert(unique_ids(self.entries@)) by {
                        assert forall|k1: int, k2: int| 0 <= k1 < k2 < self.entries@.len()
                            implies (#[trigger] self.entries@[k1].id@) != (
                            #[trigger] self.entries@[k2].id@) by {
                            assert(entries0[k1].id@ != entries0[k2].id@);
                        }
                    }
                }
            },
            None => {
                proof {
                    assert(entries0.push(entry_v).drop_last() =~= entries0);
                }
                self.entries.push(entry);
                proof {
                    assert(unique_ids(self.entries@)) by {
                        assert forall|k1: int, k2: int| 0 <= k1 < k2 < self.entries@.len()
                            implies (#[trigger] self.entries@[k1].id@) != (
                            #[trigger] self.entries@[k2].id@) by {
                            if k2 < entries0.len() {
                                assert(entries0[k1].id@ != entries0[k2].id@);
                            } else {
                                assert(entries0[k1].id@ != entry_v.id@);
                            }
                        }
                    }
                }
            },
        }
        true
    }

    /// Looks the identifier up; returns the arena index of the owning frame.
    pub fn get(&self, id: &String) -> (r: Option<usize>)
        ensures
            r == match lookup(self.entries@, id@) {
                Some(e) => Some(e.index),
                None => None::<usize>,
            },
    {
        let mut j = self.entries.len();
        proof {
            assert(self.entries@.take(self.entries@.len() as int) =~= self.entries@);
        }
        while j > 0
            invariant
                j <= self.entries@.len(),
                lookup(self.entries@, id@) == lookup(self.entries@.take(j as int), id@),
            decreases j,
        {
            let e = &self.entries[j - 1];
            let hit = e.id == *id;
            proof {
                assert(self.entries@.take(j as int).last() == self.entries@[j - 1]);
                assert(self.entries@.take(j as int).drop_last() =~= self.entries@.take(
                    j - 1));
            }
            if hit {
                return Some(e.index);
            }
            j = j - 1;
        }
        proof {
            assert(self.entries@.take(0) =~= Seq::<FrameEntry>::empty());
        }
        None
    }

    /// Metadata lookup: the declared parent identifier of `id`, if `id` is
    /// registered and declares one.
    pub fn get_parent_id(&self, id: &String) -> (r: Option<String>)
        ensures
            r == match lookup(self.entries@, id@) {
                Some(e) => e.parent_id,
                None => None::<String>,
            },
    {
        let mut j = self.entries.len();
        proof {
            assert(self.entries@.take(self.entries@.len() as int) =~= self.entries@);
        }
        while j > 0
            invariant
                j <= self.entries@.len(),
                lookup(self.entries@, id@) == lookup(self.entries@.take(j as int), id@),
            decreases j,
        {
            let e = &self.entries[j - 1];
            let hit = e.id == *id;
            proof {
                assert(self.entries@.take(j as int).last() == self.entries@[j - 1]);
                assert(self.entries@.take(j as int).drop_last() =~= self.entries@.take(
                    j - 1));
            }
            if hit {
                return match &e.parent_id {
                    Some(p) => Some(p.clone()),
                    None => None,
                };
            }
            j = j - 1;
        }
        proof {
            assert(self.entries@.take(0) =~= Seq::<FrameEntry>::empty());
        }
        None
    }

    /// Snapshot of the registered identifiers: each exactly once, and an
    /// identifier appears if and only if its lookup succeeds.
    pub fn all_ids(&self) -> (r: Vec<String>)
        requires
            self.wf(),
        ensures
            r@.len() == self.entries@.len(),
            forall|k: int| 0 <= k < r@.len() ==> (#[trigger] r@[k]@)
                == self.entries@[k].id@,
            forall|k1: int, k2: int| 0 <= k1 < k2 < r@.len() ==> (#[trigger] r@[k1]@)
                != (#[trigger] r@[k2]@),
            forall|id: Seq<char>| (#[trigger] lookup(self.entries@, id)) is Some
                <==> exists|k: int| 0 <= k < r@.len() && (#[trigger] r@[k]@) == id,
    {
        let mut out: Vec<String> = Vec::new();
        let mut k: usize = 0;
        while k < self.entries.len()
            invariant
                k <= self.entries@.len(),
                out@.len() == k,
                forall|j: int| 0 <= j < k ==> (#[trigger] out@[j]@)
                    == self.entries@[j].id@,
            decreases self.entries@.len() - k,
        {
            out.push(self.entries[k].id.clone());
            k = k + 1;
        }
        proof {
            assert forall|id: Seq<char>| lookup(self.entries@, id) is Some implies
                exists|j: int| 0 <= j < out@.len() && (#[trigger] out@[j]@) == id by {
                lemma_find_props(self.entries@, id);
                let fi = find_idx(self.entries@, id);
                assert(out@[fi]@ == id);
            }
            assert forall|id: Seq<char>| (exists|j: int| 0 <= j < out@.len() && (
                #[trigger] out@[j]@) == id) implies lookup(self.entries@, id) is Some by {
                let j = choose|j: int| 0 <= j < out@.len() && out@[j]@ == id;
                lemma_member_lookup(self.entries@, j);
            }
        }
        out
    }
}

/// Executable well-formedness check for a frame about to be stored.
fn frame_wf_exec(f: &Frame) -> (r: bool)
    ensures
        r == f.wf(),
{
    match f {
        Frame::Fixed(ff) => {
            let q = &ff.offset.rotation;
            let inb = -0x2000_0000_0000_0000 <= q.x && q.x <= 0x2000_0000_0000_0000
                && -0x2000_0000_0000_0000 <= q.y && q.y <= 0x2000_0000_0000_0000
                && -0x2000_0000_0000_0000 <= q.z && q.z <= 0x2000_0000_0000_0000
                && -0x2000_0000_0000_0000 <= q.w && q.w <= 0x2000_0000_0000_0000;
            if inb {
                proof {
                    crate::quat::lemma_q_bounds(q@);
                    assert(4 * (crate::quat::q_max(q@) * crate::quat::q_max(q@)) <= 4 * (
                        0x2000_0000_0000_0000 * 0x2000_0000_0000_0000))
                        by (nonlinear_arith)
                        requires 0 <= crate::quat::q_max(q@) <= 0x2000_0000_0000_0000,
                    {}
                }
                q.qnorm2() > 0
            } else {
                false
            }
        },
        Frame::Rotating(rf) => {
            let w = &rf.omega;
            let wb = -0x4_0000_0000_0000 <= w.x && w.x <= 0x4_0000_0000_0000
                && -0x4_0000_0000_0000 <= w.y && w.y <= 0x4_0000_0000_0000
                && -0x4_0000_0000_0000 <= w.z && w.z <= 0x4_0000_0000_0000;
            let tb = -0x400_0000_0000 <= rf.t0 && rf.t0 <= 0x400_0000_0000;
            let q = &rf.q0;
            let qb = -0x2000 <= q.x && q.x <= 0x2000 && -0x2000 <= q.y && q.y <= 0x2000
                && -0x2000 <= q.z && q.z <= 0x2000 && -0x2000 <= q.w && q.w <= 0x2000;
            if wb && tb && qb {
                proof {
                    crate::quat::lemma_q_bounds(q@);
                    crate::quat::lemma_v3_bounds(w@);
                    assert(4 * (crate::quat::q_max(q@) * crate::quat::q_max(q@)) <= 4 * (
                        0x2000 * 0x2000)) by (nonlinear_arith)
                        requires 0 <= crate::quat::q_max(q@) <= 0x2000,
                    {}
                }
                q.qnorm2() > 0
            } else {
                false
            }
        },
    }
}

} // verus!
