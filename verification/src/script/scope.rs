//! The variables of a running script function: a stack of frames, one for
//! each block entered, each mapping names to values.

use vstd::prelude::*;
use crate::strmap::StrMap;

verus! {

/// The value of `name` in the innermost of `frames` that declares it.
pub open spec fn frames_lookup<V>(frames: Seq<Map<Seq<char>, V>>, name: Seq<char>) -> Option<V>
    decreases frames.len(),
{
    if frames.len() == 0 {
        None
    } else if frames.last().contains_key(name) {
        Some(frames.last()[name])
    } else {
        frames_lookup(frames.drop_last(), name)
    }
}

/// The index of the innermost of `frames` that declares `name`, if any.
pub open spec fn frame_of<V>(frames: Seq<Map<Seq<char>, V>>, name: Seq<char>) -> Option<int>
    decreases frames.len(),
{
    if frames.len() == 0 {
        None
    } else if frames.last().contains_key(name) {
        Some(frames.len() - 1)
    } else {
        frame_of(frames.drop_last(), name)
    }
}

/// The variables of a running script function.  A variable declared
/// without a value holds `zero`.
pub struct Scope<V> {
    vars: Vec<StrMap<V>>,
    zero: V,
}

impl<V> Scope<V> {
    /// The frames, outermost first.
    pub closed spec fn frames(&self) -> Seq<Map<Seq<char>, V>> {
        Seq::new(self.vars@.len(), |i: int| self.vars@[i]@)
    }

    /// The value a variable declared without one holds.
    pub closed spec fn zero(&self) -> V {
        self.zero
    }

    /// A scope of one empty frame.
    pub fn new(zero: V) -> (r: Scope<V>)
        ensures
            r.frames() == seq![Map::<Seq<char>, V>::empty()],
            r.zero() == zero,
    {
        let mut vars: Vec<StrMap<V>> = Vec::new();
        vars.push(StrMap::new());
        let r = Scope { vars: vars, zero: zero };
        assert(r.frames() =~= seq![Map::<Seq<char>, V>::empty()]);
        r
    }

    /// Enters a block: a new, empty, innermost frame.
    pub fn extend(&mut self)
        ensures
            final(self).frames() == old(self).frames().push(Map::<Seq<char>, V>::empty()),
            final(self).zero() == old(self).zero(),
    {
        self.vars.push(StrMap::new());
        assert(self.frames() =~= old(self).frames().push(Map::<Seq<char>, V>::empty()));
    }

    /// Leaves a block: drops the innermost frame, if there is one.
    pub fn reduce(&mut self)
        ensures
            final(self).frames() == if old(self).frames().len() == 0 {
                old(self).frames()
            } else {
                old(self).frames().drop_last()
            },
            final(self).zero() == old(self).zero(),
    {
        let _ = self.vars.pop();
        assert(self.frames() =~= if old(self).frames().len() == 0 {
            old(self).frames()
        } else {
            old(self).frames().drop_last()
        });
    }

    /// The value of `name` in the innermost frame that declares it.
    pub fn get_var(&self, name: &str) -> (r: Option<&V>)
        ensures
            match r {
                Some(v) => frames_lookup(self.frames(), name@) == Some(*v),
                None => frames_lookup(self.frames(), name@) is None,
            },
    {
        let mut i = self.vars.len();
        assert(self.frames().take(i as int) =~= self.frames());
        while i > 0
            invariant
                i <= self.vars@.len(),
                frames_lookup(self.frames(), name@) == frames_lookup(self.frames().take(i as int), name@),
            decreases i,
        {
            assert(self.frames().take(i as int).drop_last() =~= self.frames().take(i - 1));
            assert(self.frames().take(i as int).last() == self.vars@[i - 1]@);
            match self.vars[i - 1].get(name) {
                Some(v) => {
                    return Some(v);
                },
                None => {},
            }
            i -= 1;
        }
        None
    }
}

impl<V: Clone> Scope<V> {
    /// Declares `name` in the innermost frame with `val`, or with a clone
    /// of the zero value when no value is given; `false`, and no change,
    /// when that frame declares it already or there is no frame.
    pub fn new_var(&mut self, name: &str, val: Option<V>) -> (r: bool)
        ensures
            r == (old(self).frames().len() > 0 && !old(self).frames().last().contains_key(name@)),
            !r ==> final(self).frames() == old(self).frames(),
            final(self).frames().len() == old(self).frames().len(),
            final(self).frames().drop_last() == old(self).frames().drop_last(),
            r ==> final(self).frames().last().dom() == old(self).frames().last().dom().insert(name@),
            r ==> forall|k: Seq<char>|
                k != name@ && #[trigger] old(self).frames().last().contains_key(k)
                    ==> final(self).frames().last()[k] == old(self).frames().last()[k],
            r ==> match val {
                Some(v) => final(self).frames().last()[name@] == v,
                None => cloned(old(self).zero(), final(self).frames().last()[name@]),
            },
            final(self).zero() == old(self).zero(),
    {
        let n = self.vars.len();
        if n == 0 {
            return false;
        }
        if self.vars[n - 1].contains(name) {
            return false;
        }
        let value = match val {
            Some(v) => v,
            None => self.zero.clone(),
        };
        let mut frame = StrMap::new();
        self.vars.set_and_swap(n - 1, &mut frame);
        frame.insert(name.to_owned(), value);
        self.vars.set_and_swap(n - 1, &mut frame);
        assert(self.frames().drop_last() =~= old(self).frames().drop_last());
        true
    }

    /// Gives `val` to `name` in the innermost frame that declares it;
    /// `false`, and no change, when none does.
    pub fn set_var(&mut self, name: &str, val: V) -> (r: bool)
        ensures
            r == (frame_of(old(self).frames(), name@) is Some),
            !r ==> final(self).frames() == old(self).frames(),
            r ==> ({
                let i = frame_of(old(self).frames(), name@)->0;
                final(self).frames() == old(self).frames().update(
                    i,
                    old(self).frames()[i].insert(name@, val),
                )
            }),
            final(self).zero() == old(self).zero(),
    {
        let mut i = self.vars.len();
        assert(self.frames().take(i as int) =~= self.frames());
        while i > 0
            invariant
                i <= self.vars@.len(),
                *self == *old(self),
                frame_of(self.frames(), name@) == frame_of(self.frames().take(i as int), name@),
            decreases i,
        {
            assert(self.frames().take(i as int).drop_last() =~= self.frames().take(i - 1));
            assert(self.frames().take(i as int).last() == self.vars@[i - 1]@);
            if self.vars[i - 1].contains(name) {
                let mut frame = StrMap::new();
                self.vars.set_and_swap(i - 1, &mut frame);
                frame.insert(name.to_owned(), val);
                self.vars.set_and_swap(i - 1, &mut frame);
                assert(self.frames() =~= old(self).frames().update(
                    i - 1,
                    old(self).frames()[i - 1].insert(name@, val),
                ));
                return true;
            }
            i -= 1;
        }
        false
    }
}

/// A variable just declared reads back as the value it was declared with.
pub proof fn law_read_after_declare<V>(
    before: Seq<Map<Seq<char>, V>>,
    after: Seq<Map<Seq<char>, V>>,
    name: Seq<char>,
    val: V,
)
    requires
        before.len() > 0,
        after.len() == before.len(),
        after.drop_last() == before.drop_last(),
        after.last().contains_key(name),
        after.last()[name] == val,
    ensures
        frames_lookup(after, name) == Some(val),
{
}

/// A variable set reads back as the value it was set to.
pub proof fn law_read_after_set<V>(
    before: Seq<Map<Seq<char>, V>>,
    after: Seq<Map<Seq<char>, V>>,
    name: Seq<char>,
    val: V,
)
    requires
        frame_of(before, name) is Some,
        after == before.update(
            frame_of(before, name)->0,
            before[frame_of(before, name)->0].insert(name, val),
        ),
    ensures
        frames_lookup(after, name) == Some(val),
    decreases before.len(),
{
    let i = frame_of(before, name)->0;
    lemma_frame_of_in_range(before, name);
    if i == before.len() - 1 {
        assert(after.last() == before[i].insert(name, val));
    } else {
        assert(!before.last().contains_key(name));
        assert(after.last() == before.last());
        assert(after.drop_last() =~= before.drop_last().update(
            i,
            before.drop_last()[i].insert(name, val),
        ));
        law_read_after_set(before.drop_last(), after.drop_last(), name, val);
    }
}

/// The frame that declares a variable is one of the frames.
proof fn lemma_frame_of_in_range<V>(frames: Seq<Map<Seq<char>, V>>, name: Seq<char>)
    ensures
        frame_of(frames, name) matches Some(i) ==> 0 <= i < frames.len() && frames[i].contains_key(
            name,
        ) && frame_of(frames.drop_last(), name) == (if i == frames.len() - 1 {
            frame_of(frames.drop_last(), name)
        } else {
            Some(i)
        }),
    decreases frames.len(),
{
    if frames.len() > 0 && !frames.last().contains_key(name) {
        lemma_frame_of_in_range(frames.drop_last(), name);
    }
}

/// Entering a block and leaving it gives back the frames as they were.
pub proof fn law_reduce_undoes_extend<V>(frames: Seq<Map<Seq<char>, V>>)
    ensures
        frames.push(Map::<Seq<char>, V>::empty()).drop_last() == frames,
{
    assert(frames.push(Map::<Seq<char>, V>::empty()).drop_last() =~= frames);
}

/// A variable declared in an inner block hides an outer one of its name
/// while the block lasts; once the block is left, the outer one reads as
/// before.
pub proof fn law_shadow_and_retract<V>(frames: Seq<Map<Seq<char>, V>>, name: Seq<char>, val: V)
    ensures
        ({
            let inner = frames.push(Map::<Seq<char>, V>::empty().insert(name, val));
            &&& frames_lookup(inner, name) == Some(val)
            &&& frames_lookup(inner.drop_last(), name) == frames_lookup(frames, name)
        }),
{
    let inner = frames.push(Map::<Seq<char>, V>::empty().insert(name, val));
    assert(inner.drop_last() =~= frames);
}

/// The scopes of the script functions being run, one for each call, the
/// innermost last; what a script reads and writes goes to the innermost.  A
/// variable declared without a value holds a clone of `zero`.
pub struct ScopeStack<V> {
    scopes: Vec<Scope<V>>,
    zero: V,
}

/// The stack `stack` with `name` declared as `val` in the innermost frame of
/// its innermost scope.
pub open spec fn declared<V>(stack: Seq<Seq<Map<Seq<char>, V>>>, name: Seq<char>, val: V) -> Seq<
    Seq<Map<Seq<char>, V>>,
> {
    let s = stack.last();
    stack.update(stack.len() - 1, s.update(s.len() - 1, s.last().insert(name, val)))
}

impl<V> ScopeStack<V> {
    /// The frames of each scope, the innermost scope last.
    pub closed spec fn stack(&self) -> Seq<Seq<Map<Seq<char>, V>>> {
        Seq::new(self.scopes@.len(), |i: int| self.scopes@[i].frames())
    }

    /// The value a variable declared without one is cloned from.
    pub closed spec fn zero(&self) -> V {
        self.zero
    }

    /// No scopes.
    pub fn new(zero: V) -> (r: ScopeStack<V>)
        ensures
            r.stack() == Seq::<Seq<Map<Seq<char>, V>>>::empty(),
            r.zero() == zero,
    {
        let r = ScopeStack { scopes: Vec::new(), zero: zero };
        assert(r.stack() =~= Seq::<Seq<Map<Seq<char>, V>>>::empty());
        r
    }

    /// Leaves a function: drops the innermost scope, if there is one.
    pub fn pop_scope(&mut self)
        ensures
            final(self).stack() == if old(self).stack().len() == 0 {
                old(self).stack()
            } else {
                old(self).stack().drop_last()
            },
            final(self).zero() == old(self).zero(),
    {
        let _ = self.scopes.pop();
        assert(self.stack() =~= if old(self).stack().len() == 0 {
            old(self).stack()
        } else {
            old(self).stack().drop_last()
        });
    }

    /// Enters a block in the innermost scope, if there is one.
    pub fn extend_scope(&mut self)
        ensures
            final(self).stack() == if old(self).stack().len() == 0 {
                old(self).stack()
            } else {
                old(self).stack().update(
                    old(self).stack().len() - 1,
                    old(self).stack().last().push(Map::<Seq<char>, V>::empty()),
                )
            },
            final(self).zero() == old(self).zero(),
    {
        match self.scopes.pop() {
            Some(mut s) => {
                s.extend();
                self.scopes.push(s);
                assert(self.stack() =~= old(self).stack().update(
                    old(self).stack().len() - 1,
                    old(self).stack().last().push(Map::<Seq<char>, V>::empty()),
                ));
            },
            None => {
                assert(self.stack() =~= old(self).stack());
            },
        }
    }

    /// Leaves a block of the innermost scope, if there is one.
    pub fn reduce_scope(&mut self)
        ensures
            final(self).stack() == if old(self).stack().len() == 0 {
                old(self).stack()
            } else if old(self).stack().last().len() == 0 {
                old(self).stack()
            } else {
                old(self).stack().update(old(self).stack().len() - 1, old(self).stack().last().drop_last())
            },
            final(self).zero() == old(self).zero(),
    {
        match self.scopes.pop() {
            Some(mut s) => {
                s.reduce();
                self.scopes.push(s);
                proof {
                    if old(self).stack().last().len() == 0 {
                        assert(self.stack() =~= old(self).stack());
                    } else {
                        assert(self.stack() =~= old(self).stack().update(
                            old(self).stack().len() - 1,
                            old(self).stack().last().drop_last(),
                        ));
                    }
                }
            },
            None => {
                assert(self.stack() =~= old(self).stack());
            },
        }
    }

    /// The value of `name` in the innermost scope; `None` when there is no
    /// scope.
    pub fn get_var(&self, name: &str) -> (r: Option<&V>)
        ensures
            r matches Some(v) ==> self.stack().len() > 0 && frames_lookup(self.stack().last(), name@)
                == Some(*v),
            r is None ==> self.stack().len() == 0 || frames_lookup(self.stack().last(), name@) is None,
    {
        let n = self.scopes.len();
        if n == 0 {
            None
        } else {
            self.scopes[n - 1].get_var(name)
        }
    }
}

impl<V: Clone> ScopeStack<V> {
    /// Calls a function: a new innermost scope of one empty frame.
    pub fn push_scope(&mut self)
        ensures
            final(self).stack() == old(self).stack().push(seq![Map::<Seq<char>, V>::empty()]),
            final(self).zero() == old(self).zero(),
    {
        let s = Scope::new(self.zero.clone());
        self.scopes.push(s);
        assert(self.stack() =~= old(self).stack().push(seq![Map::<Seq<char>, V>::empty()]));
    }

    /// Declares `name` in the innermost frame of the innermost scope, with
    /// `val`, or with a clone of the zero value when no value is given;
    /// `false`, and no change, when there is no scope or that frame declares
    /// `name` already.
    pub fn register_var(&mut self, name: &str, val: Option<V>) -> (r: bool)
        ensures
            r == (old(self).stack().len() > 0 && old(self).stack().last().len() > 0
                && !old(self).stack().last().last().contains_key(name@)),
            !r ==> final(self).stack() == old(self).stack(),
            r ==> final(self).stack() == declared(
                old(self).stack(),
                name@,
                final(self).stack().last().last()[name@],
            ),
            r ==> match val {
                Some(v) => final(self).stack().last().last()[name@] == v,
                None => cloned(old(self).zero(), final(self).stack().last().last()[name@]),
            },
            final(self).zero() == old(self).zero(),
    {
        let value = match val {
            Some(v) => v,
            None => self.zero.clone(),
        };
        match self.scopes.pop() {
            Some(mut s) => {
                let ghost before = s.frames();
                let r = s.new_var(name, Some(value));
                self.scopes.push(s);
                if r {
                    let ghost f = s.frames();
                    assert(f.last() =~= before.last().insert(name@, value));
                    assert forall|j: int| 0 <= j < f.len() - 1 implies f[j] == before[j] by {
                        assert(f[j] == f.drop_last()[j]);
                        assert(before[j] == before.drop_last()[j]);
                    }
                    assert(f =~= before.update(before.len() - 1, before.last().insert(name@, value)));
                    assert(self.stack() =~= declared(old(self).stack(), name@, value));
                } else {
                    assert(self.stack() =~= old(self).stack());
                }
                r
            },
            None => {
                assert(self.stack() =~= old(self).stack());
                false
            },
        }
    }

    /// Gives `val` to `name` in the innermost frame of the innermost scope
    /// that declares it; `false`, and no change, when there is no scope or no
    /// frame of it declares `name`.
    pub fn set_var(&mut self, name: &str, val: V) -> (r: bool)
        ensures
            r == (old(self).stack().len() > 0 && frame_of(old(self).stack().last(), name@) is Some),
            !r ==> final(self).stack() == old(self).stack(),
            r ==> ({
                let s = old(self).stack().last();
                let i = frame_of(s, name@)->0;
                final(self).stack() == old(self).stack().update(
                    old(self).stack().len() - 1,
                    s.update(i, s[i].insert(name@, val)),
                )
            }),
            final(self).zero() == old(self).zero(),
    {
        match self.scopes.pop() {
            Some(mut s) => {
                let r = s.set_var(name, val);
                self.scopes.push(s);
                if r {
                    assert(self.stack() =~= old(self).stack().update(
                        old(self).stack().len() - 1,
                        s.frames(),
                    ));
                } else {
                    assert(self.stack() =~= old(self).stack());
                }
                r
            },
            None => {
                assert(self.stack() =~= old(self).stack());
                false
            },
        }
    }
}

/// Entering a block, declaring any number of variables in it, and leaving
/// it gives back the frames from before the block: each declaration only
/// changes the innermost frame, which leaving the block drops.  `steps` are
/// the frames after entering the block and after each declaration; the
/// contract of `Scope::new_var` gives each step this form, whether the
/// declaration succeeds or not.
pub proof fn law_reduce_restores<V>(before: Seq<Map<Seq<char>, V>>, steps: Seq<Seq<Map<Seq<char>, V>>>)
    requires
        steps.len() > 0,
        steps[0] == before.push(Map::<Seq<char>, V>::empty()),
        forall|i: int|
            0 <= i < steps.len() - 1 ==> (#[trigger] steps[i + 1]).len() == steps[i].len()
                && steps[i + 1].drop_last() == steps[i].drop_last(),
    ensures
        steps.last().len() > 0,
        steps.last().drop_last() == before,
        forall|name: Seq<char>| #[trigger] frames_lookup(steps.last().drop_last(), name) == frames_lookup(before, name),
    decreases steps.len(),
{
    if steps.len() == 1 {
        assert(steps[0].drop_last() =~= before);
    } else {
        let shorter = steps.drop_last();
        assert forall|i: int| 0 <= i < shorter.len() - 1 implies (#[trigger] shorter[i + 1]).len() == shorter[i].len()
            && shorter[i + 1].drop_last() == shorter[i].drop_last() by {
            assert(shorter[i + 1] == steps[i + 1]);
            assert(shorter[i] == steps[i]);
        }
        law_reduce_restores(before, shorter);
        let k = steps.len() - 2;
        assert(steps[k + 1].len() == steps[k].len() && steps[k + 1].drop_last() == steps[k].drop_last());
        assert(shorter.last() == steps[k]);
        assert(steps.last() == steps[k + 1]);
    }
}

} // verus!
