use vstd::prelude::*;
use vstd::arithmetic::div_mod::{lemma_add_mod_noop, lemma_small_mod};

verus! {

/// The mode a user is in.
#[derive(Clone, Copy, Debug, PartialEq, Eq, Structural)]
pub enum UserMode {
    Normal,
    Insert,
    App,
    Profile,
    Username,
    Password,
    OldPassword,
    NewPassword,
}

/// The field being filled in on the sign-up form.
#[derive(Clone, Copy, Debug, PartialEq, Eq, Structural)]
pub enum SignUp {
    Username,
    Password,
}

/// The field being filled in on the login form.
#[derive(Clone, Copy, Debug, PartialEq, Eq, Structural)]
pub enum Login {
    Username,
    Password,
}

/// The field being filled in on the password-change form.
#[derive(Clone, Copy, Debug, PartialEq, Eq, Structural)]
pub enum Profile {
    OldPassword,
    NewPassword,
}

/// The field being filled in on the credential form.
#[derive(Clone, Copy, Debug, PartialEq, Eq, Structural)]
pub enum CredentialManager {
    App,
    Username,
    Password,
}

/// The index that follows `index` among `len` positions, wrapping round.
pub open spec fn next_index(index: usize, len: usize) -> usize
    recommends
        len > 0,
{
    ((index + 1) % (len as int)) as usize
}

/// The index that precedes `index` among `len` positions, wrapping round.
pub open spec fn previous_index(index: usize, len: usize) -> usize {
    if index > 0 {
        (index - 1) as usize
    } else {
        (len - 1) as usize
    }
}

fn step_forward(index: usize, len: usize) -> (r: usize)
    requires
        len > 0,
    ensures
        r == next_index(index, len),
        r < len,
{
    let r = (index % len + 1) % len;
    proof {
        lemma_add_mod_noop(index as int, 1, len as int);
        if len == 1 {
            assert(1int % 1 == 0);
        } else {
            lemma_small_mod(1, len as nat);
        }
    }
    r
}

fn step_back(index: usize, len: usize) -> (r: usize)
    requires
        index > 0 || len > 0,
    ensures
        r == previous_index(index, len),
{
    if index > 0 {
        index - 1
    } else {
        len - 1
    }
}

/// Tabs shown to a visitor, with the one selected.
pub struct TabsState<'a> {
    pub titles: Vec<&'a str>,
    pub index: usize,
}

impl<'a> TabsState<'a> {
    pub fn new(titles: Vec<&'a str>) -> (r: TabsState<'a>)
        ensures
            r.titles@ == titles@,
            r.index == 0,
    {
        TabsState { titles, index: 0 }
    }

    /// Selects the next tab, wrapping round after the last.
    pub fn next(&mut self)
        requires
            old(self).titles.len() > 0,
        ensures
            final(self).titles@ == old(self).titles@,
            final(self).index == next_index(old(self).index, old(self).titles.len()),
    {
        self.index = step_forward(self.index, self.titles.len());
    }

    /// Selects the previous tab, wrapping round before the first.
    pub fn previous(&mut self)
        requires
            old(self).index > 0 || old(self).titles.len() > 0,
        ensures
            final(self).titles@ == old(self).titles@,
            final(self).index == previous_index(old(self).index, old(self).titles.len()),
    {
        self.index = step_back(self.index, self.titles.len());
    }
}

/// Tabs shown to a signed-in member, with the one selected.
pub struct LoggedInState<'a> {
    pub titles: Vec<&'a str>,
    pub index: usize,
}

impl<'a> LoggedInState<'a> {
    pub fn new(titles: Vec<&'a str>) -> (r: LoggedInState<'a>)
        ensures
            r.titles@ == titles@,
            r.index == 0,
    {
        LoggedInState { titles, index: 0 }
    }

    /// Selects the next tab, wrapping round after the last.
    pub fn next(&mut self)
        requires
            old(self).titles.len() > 0,
        ensures
            final(self).titles@ == old(self).titles@,
            final(self).index == next_index(old(self).index, old(self).titles.len()),
    {
        self.index = step_forward(self.index, self.titles.len());
    }

    /// Selects the previous tab, wrapping round before the first.
    pub fn previous(&mut self)
        requires
            old(self).index > 0 || old(self).titles.len() > 0,
        ensures
            final(self).titles@ == old(self).titles@,
            final(self).index == previous_index(old(self).index, old(self).titles.len()),
    {
        self.index = step_back(self.index, self.titles.len());
    }
}

} // verus!
