//! Feature names: time-sortable unique identifier strings. Uniqueness
//! within one run is by construction, from a monotonic generator — never by
//! checking against the target service.

use vstd::prelude::*;

verus! {

#[verifier::external_type_specification]
#[verifier::external_body]
pub struct ExUlidGenerator(ulid::Generator);

/// Relies on `ulid::Generator::new`: a fresh monotonic generator.
#[verifier::external_body]
fn new_generator() -> ulid::Generator {
    ulid::Generator::new()
}

/// A source of feature names. The ghost set records the text of every name
/// this source has handed out, so that distinctness is a stated fact.
pub struct NameSource {
    inner: ulid::Generator,
    issued: Ghost<Set<Seq<char>>>,
}

impl NameSource {
    /// The texts of all names this source has handed out.
    pub closed spec fn issued(&self) -> Set<Seq<char>> {
        self.issued@
    }

    /// A fresh source that has handed out nothing.
    pub fn new() -> (r: NameSource)
        ensures
            r.issued() == Set::<Seq<char>>::empty(),
    {
        NameSource { inner: new_generator(), issued: Ghost(Set::empty()) }
    }

    /// Relies on `ulid::Generator::generate`, which returns a Ulid strictly
    /// larger than every Ulid the same generator returned before (erring
    /// instead of repeating when the random bits would overflow), and on the
    /// `Display` form of `ulid::Ulid`, the canonical 26-character encoding,
    /// which is injective; so the returned text differs from every text this
    /// source returned before.
    #[verifier::external_body]
    pub(crate) fn next_name(&mut self) -> (r: Option<String>)
        ensures
            r matches Some(s) ==> {
                &&& s@.len() == 26
                &&& !old(self).issued().contains(s@)
                &&& final(self).issued() == old(self).issued().insert(s@)
            },
            r is None ==> final(self).issued() == old(self).issued(),
    {
        match self.inner.generate() {
            Ok(u) => Some(u.to_string()),
            Err(_) => None,
        }
    }
}

} // verus!
