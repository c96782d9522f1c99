//! The lexically scoped environment: an arena of frames, each mapping symbol
//! identifiers to values, chained through optional parent references.
//!
//! Frames are shared (many closures may capture the same frame) and mutable
//! (`define` adds or shadows a binding in one frame, `set!` rewrites the
//! nearest existing binding), so they live in an arena and are addressed by
//! index, exactly as heap objects are. A frame's parent always has a smaller
//! index, so chains are acyclic and walks terminate.

use vstd::prelude::*;

use crate::types::{GcId, SchemeError, Value};
use crate::heap::valid_value;

verus! {

/// One level of an environment chain.
pub struct Frame {
    bindings: Vec<(GcId, Value)>,
    parent: Option<usize>,
}

/// The mathematical shape of one frame: a finite map and a parent link.
#[verifier::ext_equal]
pub struct FrameModel {
    pub map: Map<GcId, Value>,
    pub parent: Option<usize>,
}

/// The map an association list denotes (a later entry wins; the arena keeps
/// keys unique, so the order never matters).
pub open spec fn assoc_map(binds: Seq<(GcId, Value)>) -> Map<GcId, Value>
    decreases binds.len(),
{
    if binds.len() == 0 {
        Map::empty()
    } else {
        assoc_map(binds.drop_last()).insert(binds.last().0, binds.last().1)
    }
}

impl View for Frame {
    type V = FrameModel;

    closed spec fn view(&self) -> FrameModel {
        FrameModel { map: assoc_map(self.bindings@), parent: self.parent }
    }
}

/// A key is in the map exactly when some entry carries it, and with unique
/// keys the entry's value is the map's value.
#[verifier::rlimit(50)]
proof fn lemma_assoc_map(binds: Seq<(GcId, Value)>)
    ensures
        forall|k: GcId|
            assoc_map(binds).contains_key(k) <==> (exists|i: int|
                0 <= i < binds.len() && (#[trigger] binds[i]).0 == k),
        forall|i: int|
            (0 <= i < binds.len() && (forall|j: int|
                i < j < binds.len() ==> (#[trigger] binds[j]).0 != binds[i].0))
                ==> assoc_map(binds)[(#[trigger] binds[i]).0] == binds[i].1,
    decreases binds.len(),
{
    if binds.len() > 0 {
        let dl = binds.drop_last();
        lemma_assoc_map(dl);
        assert(forall|i: int| 0 <= i < binds.len() - 1 ==> (#[trigger] binds[i]) == dl[i]);
        assert forall|k: GcId| assoc_map(binds).contains_key(k) implies (exists|i: int|
            0 <= i < binds.len() && (#[trigger] binds[i]).0 == k) by {
            if k == binds.last().0 {
                assert(binds[binds.len() - 1].0 == k);
            } else {
                assert(assoc_map(dl).contains_key(k));
                let i = choose|i: int| 0 <= i < dl.len() && (#[trigger] dl[i]).0 == k;
                assert(0 <= i < dl.len() && dl[i].0 == k);
                assert(binds[i] == dl[i]);
                assert(binds[i].0 == k);
            }
        }
        assert forall|k: GcId| (exists|i: int| 0 <= i < binds.len() && (#[trigger] binds[i]).0
            == k) implies assoc_map(binds).contains_key(k) by {
            let i = choose|i: int| 0 <= i < binds.len() && (#[trigger] binds[i]).0 == k;
            if i < binds.len() - 1 {
                assert(dl[i].0 == k);
                assert(assoc_map(dl).contains_key(k));
            }
        }
        assert forall|i: int|
            (0 <= i < binds.len() && (forall|j: int|
                i < j < binds.len() ==> (#[trigger] binds[j]).0 != binds[i].0))
            implies assoc_map(binds)[binds[i].0] == binds[i].1 by {
            if i < binds.len() - 1 {
                assert(binds[binds.len() - 1].0 != binds[i].0);
                assert(dl[i].0 == binds[i].0 && dl[i].1 == binds[i].1);
                assert(forall|j: int| i < j < dl.len() ==> (#[trigger] dl[j]).0 != dl[i].0);
                assert(assoc_map(dl)[dl[i].0] == dl[i].1);
            }
        }
    }
}

/// Parent links only ever point at frames with smaller indices.
pub open spec fn env_parents_wf(frames: Seq<FrameModel>) -> bool {
    forall|i: int|
        0 <= i < frames.len() ==> ((#[trigger] frames[i]).parent matches Some(p) ==> p < i)
}

/// Every value bound anywhere in the arena is valid for a heap of length `n`.
pub open spec fn env_vals_valid(frames: Seq<FrameModel>, n: int) -> bool {
    forall|i: int, k: GcId|
        0 <= i < frames.len() && (#[trigger] frames[i].map.contains_key(k)) ==> valid_value(
            frames[i].map[k],
            n,
        )
}

/// The nearest binding of `key` in the chain starting at frame `fid`. (The
/// guard on the recursion is vacuous when parents are well-formed.)
pub open spec fn lookup_chain(frames: Seq<FrameModel>, fid: usize, key: GcId) -> Option<Value>
    decreases fid,
{
    if fid < frames.len() {
        let fr = frames[fid as int];
        if fr.map.contains_key(key) {
            Some(fr.map[key])
        } else {
            match fr.parent {
                Some(p) => if p < fid {
                    lookup_chain(frames, p, key)
                } else {
                    None
                },
                None => None,
            }
        }
    } else {
        None
    }
}

/// What `define` does: insert or overwrite in the named frame only.
pub open spec fn define_spec(frames: Seq<FrameModel>, fid: usize, key: GcId, value: Value) -> Seq<
    FrameModel,
> {
    frames.update(
        fid as int,
        FrameModel { map: frames[fid as int].map.insert(key, value), parent: frames[fid as int].parent },
    )
}

/// What `set!` does: rewrite the nearest frame of the chain that already
/// binds `key`, or fail leaving the arena unchanged.
pub open spec fn set_bang_spec(
    frames: Seq<FrameModel>,
    fid: usize,
    key: GcId,
    value: Value,
) -> Option<Seq<FrameModel>>
    decreases fid,
{
    if fid < frames.len() {
        let fr = frames[fid as int];
        if fr.map.contains_key(key) {
            Some(define_spec(frames, fid, key, value))
        } else {
            match fr.parent {
                Some(p) => if p < fid {
                    set_bang_spec(frames, p, key, value)
                } else {
                    None
                },
                None => None,
            }
        }
    } else {
        None
    }
}

/// What `extend` does: a fresh empty frame whose parent is `parent`.
pub open spec fn extend_spec(frames: Seq<FrameModel>, parent: usize) -> Seq<FrameModel> {
    frames.push(FrameModel { map: Map::empty(), parent: Some(parent) })
}

/// The arena of environment frames. Frame 0 is the global environment.
pub struct Env {
    frames: Vec<Frame>,
}

impl View for Env {
    type V = Seq<FrameModel>;

    closed spec fn view(&self) -> Seq<FrameModel> {
        self.frames@.map_values(|f: Frame| f@)
    }
}

impl Env {
    /// Inside each frame the association list keeps keys unique, and parent
    /// links point down.
    pub closed spec fn inv(&self) -> bool {
        &&& env_parents_wf(self@)
        &&& forall|i: int, a: int, b: int|
            (0 <= i < self.frames@.len() && 0 <= a < b < self.frames@[i].bindings@.len()) ==> (
            #[trigger] self.frames@[i].bindings@[a]).0 != (#[trigger] self.frames@[i].bindings@[b]).0
    }

    /// A fresh arena holding only the empty global frame.
    pub fn new() -> (e: Env)
        ensures
            e.inv(),
            e@ =~= seq![FrameModel { map: Map::empty(), parent: None }],
    {
        let mut frames: Vec<Frame> = Vec::new();
        frames.push(Frame { bindings: Vec::new(), parent: None });
        let e = Env { frames };
        proof {
            assert(e@[0].map =~= Map::<GcId, Value>::empty());
            assert(e@ =~~= seq![FrameModel { map: Map::empty(), parent: None }]);
        }
        e
    }

    /// Creates an empty child frame of `parent` and returns its index.
    pub fn extend(&mut self, parent: usize) -> (fid: usize)
        requires
            old(self).inv(),
            parent < old(self)@.len(),
        ensures
            final(self).inv(),
            final(self)@ =~= extend_spec(old(self)@, parent),
            fid == old(self)@.len(),
    {
        let fid = self.frames.len();
        self.frames.push(Frame { bindings: Vec::new(), parent: Some(parent) });
        proof {
            assert(self@[fid as int].map =~= Map::<GcId, Value>::empty());
            assert(self@ =~~= extend_spec(old(self)@, parent));
        }
        fid
    }

    /// The position of `key` in the frame's association list, if bound.
    fn find_slot(&self, fid: usize, key: GcId) -> (r: Option<usize>)
        requires
            self.inv(),
            fid < self@.len(),
        ensures
            match r {
                Some(i) => i < self.frames@[fid as int].bindings@.len()
                    && self.frames@[fid as int].bindings@[i as int].0 == key
                    && self@[fid as int].map.contains_key(key)
                    && self@[fid as int].map[key] == self.frames@[fid as int].bindings@[i as int].1,
                None => !self@[fid as int].map.contains_key(key),
            },
    {
        let ghost binds = self.frames@[fid as int].bindings@;
        proof {
            lemma_assoc_map(binds);
        }
        let n = self.frames[fid].bindings.len();
        let mut i: usize = 0;
        while i < n
            invariant
                n == binds.len(),
                0 <= i <= n,
                fid < self.frames@.len(),
                binds == self.frames@[fid as int].bindings@,
                self.inv(),
                fid < self@.len(),
                forall|j: int| 0 <= j < i ==> (#[trigger] binds[j]).0 != key,
            decreases n - i,
        {
            if self.frames[fid].bindings[i].0 == key {
                proof {
                    lemma_assoc_map(binds);
                    assert(forall|j: int| i < j < binds.len() ==> (#[trigger] binds[j]).0
                        != binds[i as int].0);
                }
                return Some(i);
            }
            i += 1;
        }
        proof {
            lemma_assoc_map(binds);
        }
        None
    }

    /// Unconditionally inserts or overwrites `key` in the named frame only.
    pub fn define(&mut self, frame: usize, key: GcId, value: Value)
        requires
            old(self).inv(),
            frame < old(self)@.len(),
        ensures
            final(self).inv(),
            final(self)@ =~= define_spec(old(self)@, frame, key, value),
    {
        let ghost binds0 = self.frames@[frame as int].bindings@;
        let slot = self.find_slot(frame, key);
        match slot {
            Some(i) => {
                proof {
                    assert(forall|j: int| i < j < binds0.len() ==> (#[trigger] binds0[j]).0
                        != binds0[i as int].0);
                }
                let fr = &mut self.frames[frame];
                fr.bindings[i] = (key, value);
                proof {
                    lemma_assoc_update(binds0, i as int, key, value);
                    assert(self.frames@[frame as int].bindings@ == binds0.update(
                        i as int,
                        (key, value),
                    ));
                    assert(self@ =~~= define_spec(old(self)@, frame, key, value));
                }
            },
            None => {
                proof {
                    lemma_assoc_map(binds0);
                }
                let fr = &mut self.frames[frame];
                fr.bindings.push((key, value));
                proof {
                    assert(binds0.push((key, value)).drop_last() =~= binds0);
                    assert(self.frames@[frame as int].bindings@ == binds0.push((key, value)));
                    assert(self@ =~~= define_spec(old(self)@, frame, key, value));
                }
            },
        }
    }

    /// Walks the chain from `frame` and returns the nearest binding of `key`.
    pub fn lookup(&self, frame: usize, key: GcId) -> (r: Option<Value>)
        requires
            self.inv(),
            frame < self@.len(),
        ensures
            r == lookup_chain(self@, frame, key),
    {
        let mut fid = frame;
        loop
            invariant
                self.inv(),
                fid < self@.len(),
                lookup_chain(self@, frame, key) == lookup_chain(self@, fid, key),
            decreases fid,
        {
            match self.find_slot(fid, key) {
                Some(i) => {
                    return Some(self.frames[fid].bindings[i].1);
                },
                None => {
                    match self.frames[fid].parent {
                        Some(p) => {
                            fid = p;
                        },
                        None => {
                            return None;
                        },
                    }
                },
            }
        }
    }

    /// Rewrites the nearest existing binding of `key` in the chain from
    /// `frame`; fails with `UnboundVariable` when no frame binds it.
    pub fn set_bang(&mut self, frame: usize, key: GcId, value: Value) -> (r: Result<
        (),
        SchemeError,
    >)
        requires
            old(self).inv(),
            frame < old(self)@.len(),
        ensures
            final(self).inv(),
            match r {
                Ok(()) => set_bang_spec(old(self)@, frame, key, value) == Some(final(self)@),
                Err(e) => e.kind() == crate::types::ErrKind::Unbound && final(self)@ == old(self)@
                    && set_bang_spec(old(self)@, frame, key, value) is None,
            },
    {
        let mut fid = frame;
        loop
            invariant
                self.inv(),
                fid < self@.len(),
                self@ == old(self)@,
                set_bang_spec(self@, frame, key, value) == set_bang_spec(self@, fid, key, value),
            decreases fid,
        {
            match self.find_slot(fid, key) {
                Some(_i) => {
                    self.define(fid, key, value);
                    return Ok(());
                },
                None => {
                    match self.frames[fid].parent {
                        Some(p) => {
                            fid = p;
                        },
                        None => {
                            return Err(
                                SchemeError::UnboundVariable(
                                    String::from_str("set! of an unbound variable"),
                                ),
                            );
                        },
                    }
                },
            }
        }
    }
}

/// Updating the entry at `i` updates the map, provided no later entry
/// shadows it.
proof fn lemma_assoc_update(binds: Seq<(GcId, Value)>, i: int, key: GcId, value: Value)
    requires
        0 <= i < binds.len(),
        binds[i].0 == key,
        forall|j: int| i < j < binds.len() ==> (#[trigger] binds[j]).0 != key,
    ensures
        assoc_map(binds.update(i, (key, value))) =~= assoc_map(binds).insert(key, value),
    decreases binds.len(),
{
    if binds.len() > 0 {
        if i == binds.len() - 1 {
            assert(binds.update(i, (key, value)).drop_last() =~= binds.drop_last());
        } else {
            lemma_assoc_update(binds.drop_last(), i, key, value);
            assert(binds.update(i, (key, value)).drop_last() =~= binds.drop_last().update(
                i,
                (key, value),
            ));
        }
    }
}


/// `define` keeps parents and value-validity intact when the new value is
/// valid.
pub proof fn lemma_define_props(
    frames: Seq<FrameModel>,
    fid: usize,
    key: GcId,
    value: Value,
    n: int,
)
    requires
        fid < frames.len(),
        env_parents_wf(frames),
        env_vals_valid(frames, n),
        valid_value(value, n),
    ensures
        env_parents_wf(define_spec(frames, fid, key, value)),
        env_vals_valid(define_spec(frames, fid, key, value), n),
        define_spec(frames, fid, key, value).len() == frames.len(),
{
    let fr2 = define_spec(frames, fid, key, value);
    assert forall|i: int| 0 <= i < fr2.len() implies ((#[trigger] fr2[i]).parent matches Some(p)
        ==> p < i) by {
        assert(fr2[i].parent == frames[i].parent);
    }
    assert forall|i: int, k: GcId|
        0 <= i < fr2.len() && (#[trigger] fr2[i].map.contains_key(k)) implies valid_value(
        fr2[i].map[k],
        n,
    ) by {
        if i == fid {
            if k != key {
                assert(frames[i].map.contains_key(k));
            }
        } else {
            assert(fr2[i] == frames[i]);
        }
    }
}

/// `set!` keeps parents, value-validity and the frame count intact when the
/// new value is valid.
pub proof fn lemma_set_bang_props(
    frames: Seq<FrameModel>,
    fid: usize,
    key: GcId,
    value: Value,
    n: int,
)
    requires
        fid < frames.len(),
        env_parents_wf(frames),
        env_vals_valid(frames, n),
        valid_value(value, n),
    ensures
        match set_bang_spec(frames, fid, key, value) {
            Some(fr2) => env_parents_wf(fr2) && env_vals_valid(fr2, n) && fr2.len()
                == frames.len(),
            None => true,
        },
    decreases fid,
{
    let fr = frames[fid as int];
    if fr.map.contains_key(key) {
        lemma_define_props(frames, fid, key, value, n);
    } else {
        match fr.parent {
            Some(p) => {
                if p < fid {
                    lemma_set_bang_props(frames, p, key, value, n);
                }
            },
            None => {},
        }
    }
}


/// A value found anywhere along a chain is valid.
pub proof fn lemma_lookup_valid(frames: Seq<FrameModel>, fid: usize, key: GcId, n: int)
    requires
        env_vals_valid(frames, n),
    ensures
        match lookup_chain(frames, fid, key) {
            Some(w) => valid_value(w, n),
            None => true,
        },
    decreases fid,
{
    if fid < frames.len() {
        let fr = frames[fid as int];
        if !fr.map.contains_key(key) {
            match fr.parent {
                Some(p) => {
                    if p < fid {
                        lemma_lookup_valid(frames, p, key, n);
                    }
                },
                None => {},
            }
        }
    }
}

} // verus!
