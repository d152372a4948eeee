pub mod apt;
pub mod command;
pub mod files;
pub mod path;
pub mod text;
pub mod ubuntu;
pub mod worker;

pub use command::{Command, Output};
pub use path::backup_filename;
pub use worker::{System, Worker, WorkerError};

use std::hash::Hash;
use vstd::prelude::*;

use crate::utils::text::same;
use crate::utils::ubuntu::{printed, release};

verus! {

/// A representation for Linux distribution information for the system.
#[derive(Debug, Clone, PartialEq)]
pub struct Distribution {
    pub id: String,
    pub release: String,
}

impl Distribution {
    /// `r` is what is read from what `lsb_release -is` and `lsb_release -rs`
    /// printed: the two texts, without the white space around them, or a
    /// failure if either is not UTF-8.
    pub open spec fn parsed(
        id: Seq<u8>,
        release: Seq<u8>,
        r: Result<Distribution, WorkerError>,
    ) -> bool {
        match (printed(id), printed(release)) {
            (Some(i), Some(v)) => r matches Ok(d) && d.id@ == i && d.release@ == v,
            _ => r == Err::<Distribution, WorkerError>(WorkerError::InvalidUtf8),
        }
    }

    /// Reads a distribution from what `lsb_release -is` and `lsb_release -rs`
    /// printed.
    pub fn parse(id: Vec<u8>, release_output: Vec<u8>) -> (r: Result<Distribution, WorkerError>)
        ensures
            Distribution::parsed(id@, release_output@, r),
    {
        let id = release(id)?;
        let release = release(release_output)?;
        Ok(Distribution { id, release })
    }

    /// Whether the distribution is Ubuntu.
    pub fn is_ubuntu(&self) -> (r: bool)
        ensures
            r == (self.id@ == "Ubuntu"@),
    {
        same(self.id.as_str(), "Ubuntu")
    }

    /// Whether the tool may run on this distribution: only on Ubuntu, unless
    /// the compatibility check is bypassed.
    pub fn check_supported(&self, no_compatibility_check: bool) -> (r: Result<(), WorkerError>)
        ensures
            no_compatibility_check || self.id@ == "Ubuntu"@ ==> r is Ok,
            !no_compatibility_check && self.id@ != "Ubuntu"@ ==> (r matches Err(
                WorkerError::UnsupportedDistribution { id },
            ) && id@ == self.id@),
    {
        if no_compatibility_check || self.is_ubuntu() {
            Ok(())
        } else {
            Err(WorkerError::UnsupportedDistribution { id: self.id.clone() })
        }
    }
}

/// `==` of the elements' type can give `equal` for `a` and `b`. For text it
/// gives whether the two are the same text, and for a type whose `==` has a
/// meaning in contracts, that meaning.
pub open spec fn compares<T: PartialEq>(a: T, b: T, equal: bool) -> bool {
    call_ensures(T::eq, (&a, &b), equal)
}

/// Whether `==` finds `x` equal to some element of `items`.
pub open spec fn occurs<T: PartialEq>(items: Seq<T>, x: T) -> bool {
    exists|i: int| 0 <= i < items.len() && compares(#[trigger] items[i], x, true)
}

/// Whether `==` finds `x` different from every element of `items`.
pub open spec fn absent<T: PartialEq>(items: Seq<T>, x: T) -> bool {
    forall|i: int| 0 <= i < items.len() ==> compares(#[trigger] items[i], x, false)
}

/// Whether `v1` and `v2` have the same length and every element of `v2`
/// equals some element of `v1`.
pub open spec fn same_elements<T: PartialEq>(v1: Seq<T>, v2: Seq<T>) -> bool {
    &&& v1.len() == v2.len()
    &&& forall|j: int| 0 <= j < v2.len() ==> occurs(v1, #[trigger] v2[j])
}

/// Whether `v1` and `v2` differ in length or some element of `v2` differs
/// from every element of `v1`.
pub open spec fn other_elements<T: PartialEq>(v1: Seq<T>, v2: Seq<T>) -> bool {
    ||| v1.len() != v2.len()
    ||| exists|j: int| 0 <= j < v2.len() && absent(v1, #[trigger] v2[j])
}

/// Whether text `x` is among `items`.
pub open spec fn text_occurs(items: Seq<String>, x: String) -> bool {
    exists|i: int| 0 <= i < items.len() && (#[trigger] items[i])@ == x@
}

/// Whether `v1` and `v2` have the same length and every text of `v2` is
/// among the texts of `v1`.
pub open spec fn same_texts(v1: Seq<String>, v2: Seq<String>) -> bool {
    &&& v1.len() == v2.len()
    &&& forall|j: int| 0 <= j < v2.len() ==> text_occurs(v1, #[trigger] v2[j])
}

/// For text, elements that `==` finds the same are the same text, so
/// `vecs_eq` says whether two vectors of text hold the same texts.
pub proof fn lemma_same_texts(v1: Seq<String>, v2: Seq<String>)
    ensures
        same_elements(v1, v2) ==> same_texts(v1, v2),
        other_elements(v1, v2) ==> !same_texts(v1, v2),
{
    if same_elements(v1, v2) {
        assert forall|j: int| 0 <= j < v2.len() implies text_occurs(v1, #[trigger] v2[j]) by {
            assert(occurs(v1, v2[j]));
            let i = choose|i: int| 0 <= i < v1.len() && compares(#[trigger] v1[i], v2[j], true);
            assert(v1[i]@ == v2[j]@);
        }
    }
    if other_elements(v1, v2) && v1.len() == v2.len() {
        let j = choose|j: int| 0 <= j < v2.len() && absent(v1, #[trigger] v2[j]);
        assert(!text_occurs(v1, v2[j])) by {
            if text_occurs(v1, v2[j]) {
                let i = choose|i: int| 0 <= i < v1.len() && (#[trigger] v1[i])@ == v2[j]@;
                assert(compares(v1[i], v2[j], false));
            }
        }
    }
}

/// Return true if the two (potentially unordered) vecs contain identical elements.
pub fn vecs_eq<T>(v1: Vec<T>, v2: Vec<T>) -> (r: bool) where T: Hash + Eq
    ensures
        r ==> same_elements(v1@, v2@),
        !r ==> other_elements(v1@, v2@),
{
    if v1.len() != v2.len() {
        return false;
    }
    let mut j: usize = 0;
    while j < v2.len()
        invariant
            j <= v2.len(),
            v1.len() == v2.len(),
            forall|k: int| 0 <= k < j ==> occurs(v1@, #[trigger] v2@[k]),
        decreases v2.len() - j,
    {
        let mut found = false;
        let mut i: usize = 0;
        while i < v1.len() && !found
            invariant
                i <= v1.len(),
                j < v2.len(),
                found ==> occurs(v1@, v2@[j as int]),
                !found ==> forall|m: int|
                    0 <= m < i ==> compares(#[trigger] v1@[m], v2@[j as int], false),
            decreases v1.len() - i + (if found { 0int } else { 1int }),
        {
            let equal = v1[i].eq(&v2[j]);
            assert(compares(v1@[i as int], v2@[j as int], equal));
            if equal {
                found = true;
            } else {
                i = i + 1;
            }
        }
        if !found {
            assert(absent(v1@, v2@[j as int]));
            return false;
        }
        j = j + 1;
    }
    true
}

} // verus!
