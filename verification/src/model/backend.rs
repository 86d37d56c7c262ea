//! Which store holds a database, and whether it can.

use vstd::prelude::*;
use crate::errors::Help;
use crate::model::attribute::{backends, BackendOptionVariant, Options};
use crate::model::Wrapper;

verus! {

/// A capability of a store beyond reading and writing.
#[derive(PartialEq, Eq, Hash, Clone, Copy, Debug, Structural)]
pub enum ExtraBound {
    Atomic,
    Ordered,
}

/// A set of capabilities.
#[derive(PartialEq, Eq, Clone, Copy, Debug, Structural)]
pub struct Bounds {
    pub atomic: bool,
    pub ordered: bool,
}

impl View for Bounds {
    type V = Set<ExtraBound>;

    open spec fn view(&self) -> Set<ExtraBound> {
        Set::new(
            |bound: ExtraBound|
                match bound {
                    ExtraBound::Atomic => self.atomic,
                    ExtraBound::Ordered => self.ordered,
                },
        )
    }
}

impl Bounds {
    /// Whether `bound` is in the set.
    pub fn contains(&self, bound: ExtraBound) -> (inside: bool)
        ensures
            inside == self@.contains(bound),
    {
        match bound {
            ExtraBound::Atomic => self.atomic,
            ExtraBound::Ordered => self.ordered,
        }
    }

    /// Whether the set is empty.
    pub fn is_empty(&self) -> (empty: bool)
        ensures
            empty <==> self@ == Set::<ExtraBound>::empty(),
    {
        proof {
            if !self.atomic && !self.ordered {
                assert(self@ =~= Set::empty());
            } else if self.atomic {
                assert(self@.contains(ExtraBound::Atomic));
            } else {
                assert(self@.contains(ExtraBound::Ordered));
            }
        }
        !self.atomic && !self.ordered
    }

    /// The capabilities of either set.
    pub fn union(&self, other: &Bounds) -> (both: Bounds)
        ensures
            both@ == self@.union(other@),
    {
        let both = Bounds {
            atomic: self.atomic || other.atomic,
            ordered: self.ordered || other.ordered,
        };
        both
    }

    /// The capabilities of this set that `other` lacks.
    pub fn difference(&self, other: &Bounds) -> (missing: Bounds)
        ensures
            missing@ == self@.difference(other@),
    {
        let missing = Bounds {
            atomic: self.atomic && !other.atomic,
            ordered: self.ordered && !other.ordered,
        };
        missing
    }
}

/// The store that holds a database.
#[derive(PartialEq, Eq, Clone, Copy, Debug, Structural)]
pub enum Backend {
    Sled,
    HashMap,
    BTreeMap,
    /// A store of the user's own, which has to offer `bounds`.
    Trait { bounds: Bounds },
}

/// Why no store could be chosen.
#[derive(PartialEq, Eq, Clone, Copy, Debug, Structural)]
pub enum ErrorVariant {
    /// More than one store was named.
    MultipleBackends,
    /// No store was named.
    NoBackendSpecified,
    /// The store cannot hold a field that needs `needed`.
    MissesTraits { backend: Backend, needed: Bounds },
}

/// What a store that comes with the library offers beyond reading and
/// writing.
pub open spec fn offers(backend: Backend) -> Set<ExtraBound> {
    match backend {
        Backend::Sled | Backend::BTreeMap => set![ExtraBound::Atomic, ExtraBound::Ordered],
        Backend::HashMap => Set::empty(),
        Backend::Trait { bounds } => bounds@,
    }
}

/// The store that an option names, where it comes with the library.
pub open spec fn named(option: BackendOptionVariant) -> Backend {
    match option {
        BackendOptionVariant::Sled => Backend::Sled,
        BackendOptionVariant::HashMap => Backend::HashMap,
        BackendOptionVariant::BTreeMap => Backend::BTreeMap,
        BackendOptionVariant::Trait => Backend::Trait {
            bounds: Bounds { atomic: false, ordered: false },
        },
    }
}

/// Everything that some field needs.
pub open spec fn needed_by_all(fields: Seq<Wrapper>) -> Set<ExtraBound> {
    Set::new(
        |bound: ExtraBound|
            exists|i: int| 0 <= i < fields.len() && (#[trigger] fields[i]).needs().contains(bound),
    )
}

/// The first field that needs what `backend` does not offer is at `at`.
pub open spec fn first_unmet(backend: Backend, fields: Seq<Wrapper>, at: int) -> bool {
    &&& 0 <= at < fields.len()
    &&& !fields[at].needs().subset_of(offers(backend))
    &&& forall|i: int| 0 <= i < at ==> (#[trigger] fields[i]).needs().subset_of(offers(backend))
}

impl Backend {
    /// What the store offers beyond reading and writing.
    pub fn traits(&self) -> (offered: Bounds)
        ensures
            offered@ == offers(*self),
    {
        match self {
            Backend::Sled | Backend::BTreeMap => {
                let offered = Bounds { atomic: true, ordered: true };
                offered
            },
            Backend::HashMap => {
                let offered = Bounds { atomic: false, ordered: false };
                offered
            },
            Backend::Trait { bounds } => *bounds,
        }
    }

    /// Chooses the store for a database with the given options and fields.
    ///
    /// Exactly one option has to name a store. A store of the user's own is
    /// asked for all that the fields need. A store that comes with the
    /// library has to offer what every field needs; the error names what the
    /// first field needs that it cannot hold.
    pub fn try_from(options: &[Options], fields: &[Wrapper]) -> (chosen: Result<
        Backend,
        ErrorVariant,
    >)
        ensures
            backends(options@).len() == 0 ==> chosen == Err::<Backend, ErrorVariant>(
                ErrorVariant::NoBackendSpecified,
            ),
            backends(options@).len() > 1 ==> chosen == Err::<Backend, ErrorVariant>(
                ErrorVariant::MultipleBackends,
            ),
            backends(options@).len() == 1 ==> {
                let option = backends(options@)[0];
                let backend = named(option);
                match chosen {
                    Ok(Backend::Trait { bounds }) => option is Trait && bounds@ == needed_by_all(
                        fields@,
                    ),
                    Ok(store) => !(option is Trait) && store == backend && forall|i: int|
                        0 <= i < fields.len() ==> (#[trigger] fields[i]).needs().subset_of(
                            offers(backend),
                        ),
                    Err(ErrorVariant::MissesTraits { backend: store, needed }) => {
                        &&& !(option is Trait)
                        &&& store == backend
                        &&& exists|at: int| #[trigger]
                            first_unmet(backend, fields@, at) && needed@ == fields[at].needs()
                    },
                    Err(_) => false,
                }
            },
    {
        let mut found: Option<BackendOptionVariant> = None;
        let mut i: usize = 0;
        while i < options.len()
            invariant
                i <= options.len(),
                backends(options@.take(i as int)).len() <= 1,
                match found {
                    Some(option) => backends(options@.take(i as int)) == seq![option],
                    None => backends(options@.take(i as int)).len() == 0,
                },
            decreases options.len() - i,
        {
            proof {
                assert(options@.take(i + 1).drop_last() =~= options@.take(i as int));
            }
            match options[i] {
                Options::Backend(option) => {
                    if found.is_some() {
                        proof {
                            lemma_backends_grow(options@, i + 1);
                        }
                        return Err(ErrorVariant::MultipleBackends);
                    }
                    found = Some(option);
                },
                Options::Async => {},
            }
            i += 1;
        }
        proof {
            assert(options@.take(i as int) =~= options@);
        }
        let option = match found {
            None => {
                return Err(ErrorVariant::NoBackendSpecified);
            },
            Some(option) => option,
        };
        let backend = match option {
            BackendOptionVariant::Trait => {
                let mut bounds = Bounds { atomic: false, ordered: false };
                let mut j: usize = 0;
                while j < fields.len()
                    invariant
                        j <= fields.len(),
                        backends(options@) == seq![option],
                        bounds@ == needed_by_all(fields@.take(j as int)),
                    decreases fields.len() - j,
                {
                    let needed = fields[j].needed_traits();
                    bounds = bounds.union(&needed);
                    proof {
                        let grown = fields@.take(j + 1);
                        assert forall|bound: ExtraBound|
                            bounds@.contains(bound) <==> needed_by_all(grown).contains(bound) by {
                            if needed@.contains(bound) {
                                assert(grown[j as int].needs().contains(bound));
                            }
                        }
                    }
                    j += 1;
                }
                proof {
                    assert(fields@.take(j as int) =~= fields@);
                }
                return Ok(Backend::Trait { bounds });
            },
            BackendOptionVariant::HashMap => Backend::HashMap,
            BackendOptionVariant::BTreeMap => Backend::BTreeMap,
            BackendOptionVariant::Sled => Backend::Sled,
        };
        let offered = backend.traits();
        let mut j: usize = 0;
        while j < fields.len()
            invariant
                j <= fields.len(),
                backends(options@) == seq![option],
                backend == named(option),
                !(option is Trait),
                offered@ == offers(backend),
                forall|i: int|
                    0 <= i < j ==> (#[trigger] fields[i]).needs().subset_of(offers(backend)),
            decreases fields.len() - j,
        {
            let needed = fields[j].needed_traits();
            let missing = needed.difference(&offered);
            if !missing.is_empty() {
                proof {
                    assert(!needed@.subset_of(offered@)) by {
                        if needed@.subset_of(offered@) {
                            assert(missing@ =~= Set::empty());
                        }
                    }
                    assert(first_unmet(backend, fields@, j as int));
                }
                return Err(ErrorVariant::MissesTraits { backend, needed });
            }
            proof {
                assert forall|bound: ExtraBound| needed@.contains(bound) implies offered@.contains(
                    bound,
                ) by {}
            }
            j += 1;
        }
        Ok(backend)
    }

    /// The name by which an option chooses the store.
    pub fn name(&self) -> (name: String)
        ensures
            name@ == (match self {
                Backend::Sled => "sled"@,
                Backend::HashMap => "hashmap"@,
                Backend::BTreeMap => "btreemap"@,
                Backend::Trait { .. } => "trait"@,
            }),
    {
        match self {
            Backend::Sled => "sled".to_owned(),
            Backend::HashMap => "hashmap".to_owned(),
            Backend::BTreeMap => "btreemap".to_owned(),
            Backend::Trait { .. } => "trait".to_owned(),
        }
    }
}

/// Options that are added name no fewer stores.
pub proof fn lemma_backends_grow(options: Seq<Options>, upto: int)
    requires
        0 <= upto <= options.len(),
    ensures
        backends(options.take(upto)).len() <= backends(options).len(),
    decreases options.len() - upto,
{
    if upto < options.len() {
        assert(options.take(upto + 1).drop_last() =~= options.take(upto));
        lemma_backends_grow(options, upto + 1);
    } else {
        assert(options.take(upto) =~= options);
    }
}

impl Help for ErrorVariant {
    /// The advice that goes with the error.
    fn help(&self) -> (advice: Option<String>)
        ensures
            advice matches Some(text) && text@ == (match self {
                ErrorVariant::MultipleBackends => "remove one of the backends"@,
                ErrorVariant::NoBackendSpecified => "specify a backend using db=sled"@,
                ErrorVariant::MissesTraits { .. } =>
                    "choose a backend that offers what every field needs"@,
            }),
    {
        Some(
            match self {
                ErrorVariant::MultipleBackends => "remove one of the backends".to_owned(),
                ErrorVariant::NoBackendSpecified => "specify a backend using db=sled".to_owned(),
                ErrorVariant::MissesTraits { .. } => {
                    "choose a backend that offers what every field needs".to_owned()
                },
            },
        )
    }
}

} // verus!
