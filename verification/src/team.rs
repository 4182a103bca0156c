//! The two teams, player roles, and the fixed two-slot `PerTeam`
//! structure that holds one value for each team.

use vstd::prelude::*;

verus! {

/// Exactly two teams exist: White (`Team(false)`) and Black
/// (`Team(true)`).
#[derive(Debug, Clone, Copy, PartialEq, Eq, Structural, Hash)]
pub struct Team(pub bool);

impl Team {
    /// The opposing team, as seen by specifications.
    pub open spec fn spec_other(self) -> Team {
        Team(!self.0)
    }

    /// The opposing team.
    #[verifier::when_used_as_spec(spec_other)]
    pub fn other(self) -> (t: Team)
        ensures
            t == self.spec_other(),
    {
        Team(!self.0)
    }

    /// This team's position in team order: White is 0, Black is 1.
    pub fn index(self) -> (i: usize)
        ensures
            i == (if self.0 { 1int } else { 0int }),
    {
        if self.0 {
            1
        } else {
            0
        }
    }
}

/// A player's role within a round.
#[derive(Debug, Clone, Copy, PartialEq, Eq, Structural, Hash)]
pub enum Role {
    Encryptor,
    Decryptor,
}

/// One value per team; all per-team data uses this fixed two-slot
/// structure, never a variable-size collection.
#[derive(Debug, Clone, Copy)]
pub struct PerTeam<T> {
    pub white: T,
    pub black: T,
}

impl<T> PerTeam<T> {
    /// The value held for the given team.
    pub open spec fn spec_get(self, t: Team) -> T {
        if t.0 {
            self.black
        } else {
            self.white
        }
    }

    /// A reference to the given team's value.
    pub fn get(&self, t: Team) -> (r: &T)
        ensures
            *r == self.spec_get(t),
    {
        if t.0 {
            &self.black
        } else {
            &self.white
        }
    }

    /// The structure with the given team's value replaced.
    pub open spec fn spec_set(self, t: Team, value: T) -> PerTeam<T> {
        if t.0 {
            PerTeam { white: self.white, black: value }
        } else {
            PerTeam { white: value, black: self.black }
        }
    }

    /// Replaces the given team's value.
    pub fn set(&mut self, t: Team, value: T)
        ensures
            *final(self) == old(self).spec_set(t, value),
            final(self).spec_get(t) == value,
            final(self).spec_get(t.other()) == old(self).spec_get(t.other()),
    {
        if t.0 {
            self.black = value;
        } else {
            self.white = value;
        }
    }

    /// Builds the two slots by applying the function to each team, in
    /// team order.
    pub fn from_fn<F: Fn(Team) -> T>(f: F) -> (r: PerTeam<T>)
        requires
            call_requires(f, (Team(false),)),
            call_requires(f, (Team(true),)),
        ensures
            call_ensures(f, (Team(false),), r.white),
            call_ensures(f, (Team(true),), r.black),
    {
        let white = f(Team(false));
        let black = f(Team(true));
        PerTeam { white, black }
    }

    /// True if the predicate accepts at least one team's value.
    pub fn either<F: Fn(&T) -> bool>(&self, f: F) -> (r: bool)
        requires
            call_requires(f, (&self.white,)),
            call_requires(f, (&self.black,)),
        ensures
            exists|rw: bool, rb: bool|
                {
                    &&& call_ensures(f, (&self.white,), rw)
                    &&& call_ensures(f, (&self.black,), rb)
                    &&& r == (rw || rb)
                },
    {
        let rw = f(&self.white);
        let rb = f(&self.black);
        rw || rb
    }

    /// True if the predicate accepts both teams' values.
    pub fn both<F: Fn(&T) -> bool>(&self, f: F) -> (r: bool)
        requires
            call_requires(f, (&self.white,)),
            call_requires(f, (&self.black,)),
        ensures
            exists|rw: bool, rb: bool|
                {
                    &&& call_ensures(f, (&self.white,), rw)
                    &&& call_ensures(f, (&self.black,), rb)
                    &&& r == (rw && rb)
                },
    {
        let rw = f(&self.white);
        let rb = f(&self.black);
        rw && rb
    }

    /// Applies the function to both slots, in team order.
    pub fn map<R, F: Fn(T) -> R>(self, f: F) -> (r: PerTeam<R>)
        requires
            call_requires(f, (self.white,)),
            call_requires(f, (self.black,)),
        ensures
            call_ensures(f, (self.white,), r.white),
            call_ensures(f, (self.black,), r.black),
    {
        PerTeam { white: f(self.white), black: f(self.black) }
    }

    /// A `PerTeam` of references to this one's slots.
    pub fn as_ref(&self) -> (r: PerTeam<&T>)
        ensures
            r.white == &self.white,
            r.black == &self.black,
    {
        PerTeam { white: &self.white, black: &self.black }
    }
}

impl<T: Copy> PerTeam<T> {
    /// Both slots hold the same value.
    pub fn splat(t: T) -> (r: PerTeam<T>)
        ensures
            r.white == t,
            r.black == t,
    {
        PerTeam { white: t, black: t }
    }
}

impl PerTeam<bool> {
    /// The teams whose slot is true, in team order.
    pub fn teams(self) -> (r: Vec<Team>)
        ensures
            r@ == (if self.white {
                seq![Team(false)]
            } else {
                Seq::<Team>::empty()
            }) + (if self.black {
                seq![Team(true)]
            } else {
                Seq::<Team>::empty()
            }),
    {
        let mut r: Vec<Team> = Vec::new();
        if self.white {
            r.push(Team(false));
        }
        if self.black {
            r.push(Team(true));
        }
        proof {
            assert(r@ =~= (if self.white {
                seq![Team(false)]
            } else {
                Seq::<Team>::empty()
            }) + (if self.black {
                seq![Team(true)]
            } else {
                Seq::<Team>::empty()
            }));
        }
        r
    }
}

} // verus!
