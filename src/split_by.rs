//! Splitting a run of items at the first one that a predicate picks.
use vstd::prelude::*;

verus! {

/// Where a split run stands once it has stopped yielding items.
#[derive(Clone, Debug, PartialEq)]
pub enum SplitByState<T> {
    /// Not stopped yet, or the stop already taken.
    Continue,
    /// Stopped at this separator, which was taken out.
    Split(T),
    /// Stopped because the items ran out.
    Finished,
}

/// Yields items until the predicate picks one; that separator is kept aside
/// for [`SplitBy::done`], and the items after it stay for the next run.
pub struct SplitBy<T, F> {
    rest: Vec<T>,
    split: F,
    state: SplitByState<T>,
}

/// Starting a split run over a sequence of items.
pub trait Ext<T>: Sized {
    fn split_by<F: Fn(&T) -> bool>(self, split: F) -> (r: SplitBy<T, F>)
        ensures
            r.state() is Continue,
            r.predicate() == split,
    ;
}

impl<T> Ext<T> for Vec<T> {
    fn split_by<F: Fn(&T) -> bool>(self, split: F) -> (r: SplitBy<T, F>)
        ensures
            r.rest() == self@,
    {
        SplitBy { rest: self, split, state: SplitByState::Continue }
    }
}

impl<T, F: Fn(&T) -> bool> SplitBy<T, F> {
    /// The items not yet yielded nor taken as a separator.
    pub closed spec fn rest(&self) -> Seq<T> {
        self.rest@
    }

    pub closed spec fn state(&self) -> SplitByState<T> {
        self.state
    }

    pub closed spec fn predicate(&self) -> F {
        self.split
    }

    /// The next item of the current run: `None` once the items run out (the
    /// state becomes `Finished`) or once the predicate picks an item (the
    /// state becomes `Split` of it).
    pub fn next(&mut self) -> (r: Option<T>)
        requires
            forall|x: T| #[trigger] old(self).predicate().requires((&x,)),
        ensures
            final(self).predicate() == old(self).predicate(),
            old(self).rest().len() == 0 ==> r is None && final(self).state() is Finished
                && final(self).rest() == old(self).rest(),
            old(self).rest().len() > 0 ==> final(self).rest() == old(self).rest().drop_first(),
            old(self).rest().len() > 0 ==> (match r {
                Some(x) => x == old(self).rest()[0] && old(self).predicate().ensures(
                    (&old(self).rest()[0],),
                    false,
                ) && final(self).state() == old(self).state(),
                None => old(self).predicate().ensures((&old(self).rest()[0],), true)
                    && final(self).state() == SplitByState::Split(old(self).rest()[0]),
            }),
    {
        if self.rest.len() == 0 {
            self.state = SplitByState::Finished;
            return None;
        }
        let item = self.rest.remove(0);
        assert(old(self).predicate().requires((&item,)));
        if (self.split)(&item) {
            self.state = SplitByState::Split(item);
            None
        } else {
            Some(item)
        }
    }

    /// Takes the state out, leaving `Continue` for the next run.
    pub fn done(&mut self) -> (r: SplitByState<T>)
        ensures
            r == old(self).state(),
            final(self).state() is Continue,
            final(self).rest() == old(self).rest(),
            final(self).predicate() == old(self).predicate(),
    {
        let mut r = SplitByState::Continue;
        std::mem::swap(&mut r, &mut self.state);
        r
    }

    /// Gives back the items not yet yielded.
    pub fn into_rest(self) -> (r: Vec<T>)
        ensures
            r@ == self.rest(),
    {
        self.rest
    }
}

} // verus!
