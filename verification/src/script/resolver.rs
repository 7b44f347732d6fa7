//! The resolution of package references while a script package is compiled.

use vstd::prelude::*;
use crate::strmap::StrMap;

verus! {

/// Which package the code being compiled belongs to, and which package each
/// reference (an alias of an import) names.
pub struct Resolver {
    current_package: Option<String>,
    package_refs: StrMap<String>,
}

impl Resolver {
    /// The package the code being compiled belongs to, if it was set.
    pub closed spec fn current(&self) -> Option<Seq<char>> {
        match self.current_package {
            Some(p) => Some(p@),
            None => None,
        }
    }

    /// The package that each reference names.
    pub closed spec fn refs(&self) -> Map<Seq<char>, Seq<char>> {
        self.package_refs@.map_values(|s: String| s@)
    }

    /// A resolver with no package set and no references.
    pub fn new() -> (r: Resolver)
        ensures
            r.current() is None,
            r.refs() == Map::<Seq<char>, Seq<char>>::empty(),
    {
        let r = Resolver { current_package: None, package_refs: StrMap::new() };
        assert(r.refs() =~= Map::<Seq<char>, Seq<char>>::empty());
        r
    }

    /// Sets the package the code being compiled belongs to.
    pub fn set_package(&mut self, package_name: &str)
        ensures
            final(self).current() == Some(package_name@),
            final(self).refs() == old(self).refs(),
    {
        self.current_package = Some(package_name.to_owned());
    }

    /// Makes `package_ref` name `package_name`, replacing what it named.
    pub fn add_package_ref(&mut self, package_ref: &str, package_name: &str)
        ensures
            final(self).refs() == old(self).refs().insert(package_ref@, package_name@),
            final(self).current() == old(self).current(),
    {
        self.package_refs.insert(package_ref.to_owned(), package_name.to_owned());
        assert(self.refs() =~= old(self).refs().insert(package_ref@, package_name@));
    }

    /// The package that a reference names, or, without a reference, the
    /// package the code belongs to; `None` when there is none.
    pub fn get_package_ref(&self, package_ref: Option<&str>) -> (r: Option<String>)
        ensures
            match package_ref {
                Some(p) => match r {
                    Some(s) => self.refs().contains_key(p@) && s@ == self.refs()[p@],
                    None => !self.refs().contains_key(p@),
                },
                None => match r {
                    Some(s) => self.current() == Some(s@),
                    None => self.current() is None,
                },
            },
    {
        match package_ref {
            Some(s) => match self.package_refs.get(s) {
                Some(n) => Some(n.clone()),
                None => None,
            },
            None => match &self.current_package {
                Some(p) => Some(p.clone()),
                None => None,
            },
        }
    }

    /// Forgets the package and all references.
    pub fn reset_package_refs(&mut self)
        ensures
            final(self).current() is None,
            final(self).refs() == Map::<Seq<char>, Seq<char>>::empty(),
    {
        self.current_package = None;
        self.package_refs = StrMap::new();
        assert(self.refs() =~= Map::<Seq<char>, Seq<char>>::empty());
    }
}

/// A reference names the package it was last made to name: after
/// `add_package_ref(package_ref, package_name)`, `get_package_ref` of that
/// reference gives `package_name`, and other references are as they were.
pub proof fn law_ref_after_add(
    before: Resolver,
    after: Resolver,
    package_ref: Seq<char>,
    package_name: Seq<char>,
)
    requires
        after.refs() == before.refs().insert(package_ref, package_name),
    ensures
        after.refs().contains_key(package_ref),
        after.refs()[package_ref] == package_name,
        forall|k: Seq<char>|
            k != package_ref ==> (#[trigger] after.refs().contains_key(k) == before.refs().contains_key(k)
                && (before.refs().contains_key(k) ==> after.refs()[k] == before.refs()[k])),
{
}

/// Without a reference, a lookup gives the package last set: after
/// `set_package(name)`, `get_package_ref(None)` gives `name`.
pub proof fn law_current_after_set(after: Resolver, package_name: Seq<char>)
    requires
        after.current() == Some(package_name),
    ensures
        after.current() matches Some(p) && p == package_name,
{
}

/// After `reset_package_refs`, no lookup finds a package.
pub proof fn law_nothing_after_reset(after: Resolver)
    requires
        after.current() is None,
        after.refs() == Map::<Seq<char>, Seq<char>>::empty(),
    ensures
        forall|k: Seq<char>| !#[trigger] after.refs().contains_key(k),
{
}

} // verus!
