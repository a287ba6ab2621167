//! Values that remember what they were.

use crate::order::Duplicate;
use vstd::prelude::*;

verus! {

/// A value with the block height at which it was set.
#[derive(Clone, Copy, Debug, PartialEq, Eq)]
pub struct HeightStamped<T> {
    pub value: T,
    pub height: u32,
}

/// A value with its earlier values. There is always at least one value.
#[derive(Debug, PartialEq, Eq)]
pub struct RollBack<T> {
    earliest: T,
    later: Vec<T>,
}

impl<T> View for RollBack<T> {
    type V = Seq<T>;

    /// The values from the earliest to the latest.
    closed spec fn view(&self) -> Seq<T> {
        seq![self.earliest] + self.later@
    }
}

impl<T> RollBack<T> {
    /// The latest value.
    pub fn latest(&self) -> (value: &T)
        ensures
            self@.len() > 0,
            *value == self@.last(),
    {
        let n = self.later.len();
        if n == 0 {
            &self.earliest
        } else {
            &self.later[n - 1]
        }
    }

    /// The value before the latest, if there is one.
    pub fn previous(&self) -> (value: Option<&T>)
        ensures
            self@.len() > 0,
            match value {
                Some(v) => self@.len() > 1 && *v == self@.drop_last().last(),
                None => self@.len() == 1,
            },
    {
        let n = self.later.len();
        if n == 0 {
            None
        } else if n == 1 {
            Some(&self.earliest)
        } else {
            Some(&self.later[n - 2])
        }
    }

    /// Takes off the latest value. Nothing remains where it was the only one.
    pub fn pop(self) -> (r: (Option<RollBack<T>>, T))
        ensures
            self@.len() > 0,
            r.1 == self@.last(),
            match r.0 {
                Some(rest) => self@.len() > 1 && rest@ == self@.drop_last(),
                None => self@.len() == 1,
            },
    {
        let ghost all = self@;
        let earliest = self.earliest;
        let mut later = self.later;
        match later.pop() {
            Some(latest) => {
                let rest = RollBack { earliest, later };
                assert(rest@ =~= all.drop_last());
                (Some(rest), latest)
            },
            None => (None, earliest),
        }
    }
}

impl<T> RollBack<HeightStamped<T>> {
    /// A value without earlier values.
    pub fn new(value: T, height: u32) -> (r: Self)
        ensures
            r@ == seq![HeightStamped { value, height }],
    {
        let r = RollBack { earliest: HeightStamped { value, height }, later: Vec::new() };
        assert(r@ =~= seq![HeightStamped { value, height }]);
        r
    }

    /// Sets a new latest value. A height below that of the latest value is refused, and the value
    /// is handed back.
    pub fn push(&mut self, value: T, height: u32) -> (r: Result<(), T>)
        ensures
            old(self)@.len() > 0,
            match r {
                Ok(()) => {
                    &&& old(self)@.last().height <= height
                    &&& final(self)@ == old(self)@.push(HeightStamped { value, height })
                },
                Err(v) => {
                    &&& height < old(self)@.last().height
                    &&& v == value
                    &&& final(self)@ == old(self)@
                },
            },
    {
        if height < self.latest().height {
            return Err(value);
        }
        self.later.push(HeightStamped { value, height });
        assert(self@ =~= old(self)@.push(HeightStamped { value, height }));
        Ok(())
    }
}

impl<T: Copy> Duplicate for RollBack<T> {
    fn duplicate(&self) -> (copy: Self) {
        let mut later: Vec<T> = Vec::new();
        let mut i: usize = 0;
        while i < self.later.len()
            invariant
                i <= self.later@.len(),
                later@ == self.later@.take(i as int),
            decreases self.later@.len() - i,
        {
            later.push(self.later[i]);
            assert(self.later@.take(i + 1) =~= self.later@.take(i as int).push(
                self.later@[i as int],
            ));
            i = i + 1;
        }
        assert(self.later@.take(i as int) =~= self.later@);
        RollBack { earliest: self.earliest, later }
    }
}

} // verus!
