//! Lexically scoped environments: a store of frames, each a mapping from
//! names to values plus an optional outer frame. Lookup walks outward
//! through the chain; writing always targets the frame written to. Closures
//! capture frames by index, so frames are shared by reference and a binding
//! written after a closure was made is seen by the closure.

use vstd::prelude::*;
use vstd::string::StringExecFns;

use crate::value::Value;
use crate::value::val_sim;
use crate::value::value_clone;

verus! {

/// One frame: its bindings in insertion order, and the frame it extends.
#[derive(Debug)]
pub struct Frame {
    /// The bindings of this frame.
    pub bindings: Vec<(String, Value)>,
    /// The outer frame, if any, by its index in the environment.
    pub outer: Option<usize>,
}

/// The value bound to `name` in a binding sequence: the first entry whose
/// key has those characters.
pub open spec fn frame_find(bs: Seq<(String, Value)>, name: Seq<char>) -> Option<Value>
    decreases bs.len(),
{
    if bs.len() == 0 {
        None
    } else if bs[0].0@ == name {
        Some(bs[0].1)
    } else {
        frame_find(bs.drop_first(), name)
    }
}

/// Frames only ever point outward to frames created before them, so chains
/// cannot cycle.
pub open spec fn frames_wf(fs: Seq<Frame>) -> bool {
    forall|i: int|
        0 <= i < fs.len() && (#[trigger] fs[i]).outer is Some ==> fs[i].outer->0 < i
}

/// The value bound to `name` in the chain starting at frame `f`: the
/// innermost binding wins, and lookup walks outward.
pub open spec fn env_lookup(fs: Seq<Frame>, f: int, name: Seq<char>) -> Option<Value>
    decreases f,
{
    if 0 <= f < fs.len() {
        match frame_find(fs[f].bindings@, name) {
            Some(v) => Some(v),
            None => match fs[f].outer {
                Some(o) => if o < f {
                    env_lookup(fs, o as int, name)
                } else {
                    None
                },
                None => None,
            },
        }
    } else {
        None
    }
}

/// If no key in `bs` has the characters of `name`, nothing is bound to it.
pub proof fn lemma_frame_find_absent(bs: Seq<(String, Value)>, name: Seq<char>)
    requires
        forall|k: int| 0 <= k < bs.len() ==> (#[trigger] bs[k]).0@ != name,
    ensures
        frame_find(bs, name) is None,
    decreases bs.len(),
{
    if bs.len() > 0 {
        assert(bs.drop_first() =~= bs.subrange(1, bs.len() as int));
        lemma_frame_find_absent(bs.drop_first(), name);
    }
}

/// The first entry whose key has the characters of `name` decides the
/// lookup.
pub proof fn lemma_frame_find_first(bs: Seq<(String, Value)>, name: Seq<char>, i: int)
    requires
        0 <= i < bs.len(),
        bs[i].0@ == name,
        forall|k: int| 0 <= k < i ==> (#[trigger] bs[k]).0@ != name,
    ensures
        frame_find(bs, name) == Some(bs[i].1),
    decreases i,
{
    if i > 0 {
        assert(bs.drop_first() =~= bs.subrange(1, bs.len() as int));
        lemma_frame_find_first(bs.drop_first(), name, i - 1);
    }
}

/// Replacing the entry at `i`, the first with the key, rebinds that key and
/// leaves every other name as it was.
pub proof fn lemma_frame_find_update(
    bs: Seq<(String, Value)>,
    i: int,
    kv: (String, Value),
    name: Seq<char>,
)
    requires
        0 <= i < bs.len(),
        bs[i].0@ == kv.0@,
        forall|k: int| 0 <= k < i ==> (#[trigger] bs[k]).0@ != kv.0@,
    ensures
        frame_find(bs.update(i, kv), name) == if name == kv.0@ {
            Some(kv.1)
        } else {
            frame_find(bs, name)
        },
    decreases i,
{
    let bs2 = bs.update(i, kv);
    if i == 0 {
        assert(bs2[0] == kv);
        if name != kv.0@ {
            assert(bs2.drop_first() =~= bs.drop_first());
        }
    } else {
        assert(bs2[0] == bs[0]);
        assert(bs2.drop_first() =~= bs.drop_first().update(i - 1, kv));
        lemma_frame_find_update(bs.drop_first(), i - 1, kv, name);
    }
}

/// Appending an entry for a key that is absent binds that key and leaves
/// every other name as it was.
pub proof fn lemma_frame_find_push(bs: Seq<(String, Value)>, kv: (String, Value), name: Seq<char>)
    requires
        forall|k: int| 0 <= k < bs.len() ==> (#[trigger] bs[k]).0@ != kv.0@,
    ensures
        frame_find(bs.push(kv), name) == if name == kv.0@ {
            Some(kv.1)
        } else {
            frame_find(bs, name)
        },
    decreases bs.len(),
{
    if bs.len() == 0 {
        assert(bs.push(kv)[0] == kv);
        if name != kv.0@ {
            assert(bs.push(kv).drop_first() =~= Seq::<(String, Value)>::empty());
            lemma_frame_find_absent(bs.push(kv).drop_first(), name);
        }
    } else {
        assert(bs.push(kv)[0] == bs[0]);
        assert(bs.push(kv).drop_first() =~= bs.drop_first().push(kv));
        lemma_frame_find_push(bs.drop_first(), kv, name);
    }
}

/// The environment: every frame ever created, chained outward by index.
/// Frame zero is the root frame.
#[derive(Debug)]
pub struct Environment {
    frames: Vec<Frame>,
}

impl Environment {
    /// The frames of this environment.
    pub closed spec fn frames(self) -> Seq<Frame> {
        self.frames@
    }

    /// A well-formed environment has a root frame and outward-only chains.
    pub open spec fn wf(self) -> bool {
        &&& self.frames().len() >= 1
        &&& frames_wf(self.frames())
    }

    /// Creates a new environment holding one empty root frame.
    pub fn new() -> (e: Environment)
        ensures
            e.wf(),
            e.frames().len() == 1,
            e.frames()[0].bindings@.len() == 0,
            e.frames()[0].outer is None,
    {
        let mut frames: Vec<Frame> = Vec::new();
        frames.push(Frame { bindings: Vec::new(), outer: None });
        Environment { frames }
    }

    /// Creates a new empty frame extending `outer` and returns its index.
    pub fn with_outer(&mut self, outer: usize) -> (f: usize)
        requires
            old(self).wf(),
            outer < old(self).frames().len(),
        ensures
            final(self).wf(),
            f == old(self).frames().len(),
            final(self).frames().len() == old(self).frames().len() + 1,
            forall|i: int|
                0 <= i < old(self).frames().len() ==> final(self).frames()[i] == old(
                    self,
                ).frames()[i],
            final(self).frames()[f as int].bindings@.len() == 0,
            final(self).frames()[f as int].outer == Some(outer),
    {
        let f = self.frames.len();
        self.frames.push(Frame { bindings: Vec::new(), outer: Some(outer) });
        f
    }

    /// Binds `key` to `val` in the given frame, replacing any binding of the
    /// same name there; bindings of other names, and all other frames, stay
    /// as they were.
    pub fn set_in(&mut self, frame: usize, key: String, val: Value)
        requires
            old(self).wf(),
            frame < old(self).frames().len(),
        ensures
            final(self).wf(),
            final(self).frames().len() == old(self).frames().len(),
            forall|i: int|
                0 <= i < old(self).frames().len() && i != frame ==> final(self).frames()[i] == old(
                    self,
                ).frames()[i],
            final(self).frames()[frame as int].outer == old(self).frames()[frame as int].outer,
            frame_find(final(self).frames()[frame as int].bindings@, key@) == Some(val),
            forall|n: Seq<char>|
                n != key@ ==> #[trigger] frame_find(final(self).frames()[frame as int].bindings@, n)
                    == frame_find(old(self).frames()[frame as int].bindings@, n),
    {
        let ghost old_frames = self.frames@;
        let n = self.frames[frame].bindings.len();
        let mut i: usize = 0;
        let mut found = false;
        while !found && i < n
            invariant
                old(self).wf(),
                self.frames@ == old_frames,
                old_frames == old(self).frames(),
                frame < old_frames.len(),
                n == old_frames[frame as int].bindings@.len(),
                0 <= i <= n,
                !found ==> forall|k: int|
                    0 <= k < i ==> (#[trigger] old_frames[frame as int].bindings@[k]).0@ != key@,
                found ==> 0 <= i < n && old_frames[frame as int].bindings@[i as int].0@ == key@
                    && forall|k: int|
                    0 <= k < i ==> (#[trigger] old_frames[frame as int].bindings@[k]).0@ != key@,
            decreases n - i + (if found {
                0int
            } else {
                1int
            }),
        {
            if self.frames[frame].bindings[i].0 == key {
                found = true;
            } else {
                i = i + 1;
            }
        }
        if found {
            let ghost bs = self.frames@[frame as int].bindings@;
            let frame_ref = &mut self.frames[frame];
            frame_ref.bindings.set(i, (key, val));
            proof {
                let kv = self.frames@[frame as int].bindings@[i as int];
                assert forall|nm: Seq<char>| true implies frame_find(
                    self.frames@[frame as int].bindings@,
                    nm,
                ) == if nm == kv.0@ {
                    Some(kv.1)
                } else {
                    frame_find(bs, nm)
                } by {
                    assert(self.frames@[frame as int].bindings@ =~= bs.update(i as int, kv));
                    lemma_frame_find_update(bs, i as int, kv, nm);
                }
            }
        } else {
            let ghost bs = self.frames@[frame as int].bindings@;
            let frame_ref = &mut self.frames[frame];
            frame_ref.bindings.push((key, val));
            proof {
                let kv = self.frames@[frame as int].bindings@.last();
                assert forall|nm: Seq<char>| true implies frame_find(
                    self.frames@[frame as int].bindings@,
                    nm,
                ) == if nm == kv.0@ {
                    Some(kv.1)
                } else {
                    frame_find(bs, nm)
                } by {
                    assert(self.frames@[frame as int].bindings@ =~= bs.push(kv));
                    lemma_frame_find_push(bs, kv, nm);
                }
            }
        }
    }

    /// Binds `key` to `val` in the root frame.
    pub fn set(&mut self, key: String, val: Value)
        requires
            old(self).wf(),
        ensures
            final(self).wf(),
            final(self).frames().len() == old(self).frames().len(),
            forall|i: int|
                1 <= i < old(self).frames().len() ==> final(self).frames()[i] == old(
                    self,
                ).frames()[i],
            final(self).frames()[0].outer == old(self).frames()[0].outer,
            frame_find(final(self).frames()[0].bindings@, key@) == Some(val),
            forall|n: Seq<char>|
                n != key@ ==> #[trigger] frame_find(final(self).frames()[0].bindings@, n)
                    == frame_find(old(self).frames()[0].bindings@, n),
    {
        self.set_in(0, key, val);
    }

    /// Looks `key` up in the chain starting at the given frame and returns a
    /// copy of the innermost binding.
    pub fn get_in(&self, frame: usize, key: &str) -> (r: Option<Value>)
        requires
            self.wf(),
            frame < self.frames().len(),
        ensures
            match env_lookup(self.frames(), frame as int, key@) {
                Some(v) => r matches Some(rv) && val_sim(v, rv),
                None => r is None,
            },
    {
        let key_s = String::from_str(key);
        let mut f = frame;
        loop
            invariant
                self.wf(),
                f < self.frames().len(),
                key_s@ == key@,
                env_lookup(self.frames(), frame as int, key@) == env_lookup(
                    self.frames(),
                    f as int,
                    key@,
                ),
            decreases f,
        {
            let bs = &self.frames[f].bindings;
            let n = bs.len();
            let mut i: usize = 0;
            while i < n
                invariant
                    self.wf(),
                    f < self.frames().len(),
                    key_s@ == key@,
                    env_lookup(self.frames(), frame as int, key@) == env_lookup(
                        self.frames(),
                        f as int,
                        key@,
                    ),
                    bs == &self.frames@[f as int].bindings,
                    n == bs@.len(),
                    0 <= i <= n,
                    forall|k: int| 0 <= k < i ==> (#[trigger] bs@[k]).0@ != key@,
                decreases n - i,
            {
                if bs[i].0 == key_s {
                    proof {
                        lemma_frame_find_first(bs@, key@, i as int);
                        assert(env_lookup(self.frames(), f as int, key@) == Some(
                            bs@[i as int].1,
                        ));
                    }
                    return Some(value_clone(&bs[i].1));
                }
                i = i + 1;
            }
            proof {
                lemma_frame_find_absent(bs@, key@);
                assert(frames_wf(self.frames()));
                assert(self.frames()[f as int].outer is Some ==> self.frames()[f as int].outer->0
                    < f);
            }
            match self.frames[f].outer {
                Some(o) => {
                    proof {
                        assert(env_lookup(self.frames(), f as int, key@) == env_lookup(
                            self.frames(),
                            o as int,
                            key@,
                        ));
                    }
                    f = o;
                },
                None => {
                    proof {
                        assert(env_lookup(self.frames(), f as int, key@) is None);
                    }
                    return None;
                },
            }
        }
    }

    /// Looks `key` up from the root frame.
    pub fn get(&self, key: &str) -> (r: Option<Value>)
        requires
            self.wf(),
        ensures
            match env_lookup(self.frames(), 0, key@) {
                Some(v) => r matches Some(rv) && val_sim(v, rv),
                None => r is None,
            },
    {
        self.get_in(0, key)
    }

    /// The number of frames.
    pub fn num_frames(&self) -> (n: usize)
        ensures
            n == self.frames().len(),
    {
        self.frames.len()
    }
}

} // verus!
