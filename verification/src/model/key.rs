//! The prefix of each field of a database.
//!
//! The names of the fields are sorted, and a field has the place of its name
//! among them as its prefix: the prefixes are 0, 1, 2 and so on without a gap,
//! no two fields share one, and they stay the same as long as the fields do.

use vstd::prelude::*;
use vstd::slice::slice_to_vec;
use vstd::string::StringSliceAdditionalSpecFns;
use crate::errors::Help;
use crate::order::{
    compare, lemma_lex_irreflexive, lemma_lex_total, lemma_lex_transitive, lex_lt, Side,
};

verus! {

/// The most fields a database can have.
pub const MAX_FIELDS: usize = 254;

/// A database can only have 254 fields.
#[derive(Clone, Copy, Debug, PartialEq, Eq, Structural)]
pub struct Error {
    /// The number of different names that had a prefix when one more came.
    pub assigned: usize,
}

/// The names increase strictly.
pub open spec fn increasing(names: Seq<Seq<u8>>) -> bool {
    forall|i: int, j: int|
        0 <= i < j < names.len() ==> lex_lt(#[trigger] names[i], #[trigger] names[j])
}

/// What each of `names` holds.
pub open spec fn name_views(names: Seq<Vec<u8>>) -> Seq<Seq<u8>> {
    Seq::new(names.len(), |i: int| names[i]@)
}

/// The bytes of each of `fields`.
pub open spec fn field_names(fields: Seq<&str>) -> Seq<Seq<u8>> {
    Seq::new(fields.len(), |i: int| fields[i].spec_bytes())
}

/// Increasing names are all different, so there are as many of them as the
/// set of them has members.
pub proof fn lemma_increasing_distinct(names: Seq<Seq<u8>>)
    requires
        increasing(names),
    ensures
        names.no_duplicates(),
        names.to_set().len() == names.len(),
{
    assert forall|i: int, j: int|
        0 <= i < names.len() && 0 <= j < names.len() && i != j implies names[i] != names[j] by {
        lemma_lex_irreflexive(names[i]);
    }
    names.unique_seq_to_set();
}

/// A name put where it belongs keeps the names increasing and adds itself to
/// their set.
proof fn lemma_insert_name(names: Seq<Seq<u8>>, at: int, name: Seq<u8>)
    requires
        increasing(names),
        0 <= at <= names.len(),
        forall|j: int| 0 <= j < at ==> lex_lt(#[trigger] names[j], name),
        forall|j: int| at <= j < names.len() ==> lex_lt(name, #[trigger] names[j]),
    ensures
        increasing(names.insert(at, name)),
        names.insert(at, name).to_set() == names.to_set().insert(name),
{
    let grown = names.insert(at, name);
    assert forall|i: int, j: int| 0 <= i < j < grown.len() implies lex_lt(
        #[trigger] grown[i],
        #[trigger] grown[j],
    ) by {
        if i < at && at < j {
            lemma_lex_transitive(names[i], name, names[j - 1]);
        }
    }
    assert forall|other: Seq<u8>| grown.to_set().contains(other) <==> names.to_set().insert(
        name,
    ).contains(other) by {
        if names.contains(other) {
            let i = choose|i: int| 0 <= i < names.len() && names[i] == other;
            if i < at {
                assert(grown[i] == other);
            } else {
                assert(grown[i + 1] == other);
            }
        }
        if other == name {
            assert(grown[at] == other);
        }
    }
}

/// The prefixes of the fields of one database.
#[derive(Debug)]
pub struct DbKey {
    names: Vec<Vec<u8>>,
}

impl View for DbKey {
    type V = Seq<Seq<u8>>;

    /// The names of the fields, sorted. The prefix of a field is the place
    /// of its name.
    closed spec fn view(&self) -> Seq<Seq<u8>> {
        name_views(self.names@)
    }
}

impl DbKey {
    #[verifier::type_invariant]
    spec fn inv(self) -> bool {
        increasing(name_views(self.names@)) && self.names@.len() <= MAX_FIELDS
    }

    /// Where `name` is among the names, or where it belongs.
    fn position(names: &Vec<Vec<u8>>, name: &[u8]) -> (place: (usize, bool))
        requires
            increasing(name_views(names@)),
        ensures
            place.0 <= names.len(),
            forall|j: int| 0 <= j < place.0 ==> lex_lt(#[trigger] name_views(names@)[j], name@),
            place.1 ==> place.0 < names.len() && name_views(names@)[place.0 as int] == name@,
            !place.1 ==> forall|j: int|
                place.0 <= j < names.len() ==> lex_lt(name@, #[trigger] name_views(names@)[j]),
            place.1 <==> name_views(names@).contains(name@),
    {
        let ghost views = name_views(names@);
        let mut i: usize = 0;
        while i < names.len()
            invariant
                i <= names.len(),
                views == name_views(names@),
                increasing(views),
                forall|j: int| 0 <= j < i ==> lex_lt(#[trigger] views[j], name@),
            decreases names.len() - i,
        {
            let side = compare(names[i].as_slice(), name);
            match side {
                Side::Before => {
                    i += 1;
                },
                Side::Same => {
                    return (i, true);
                },
                Side::After => {
                    proof {
                        lemma_lex_total(views[i as int], name@);
                        assert forall|j: int| i <= j < names.len() implies lex_lt(
                            name@,
                            #[trigger] views[j],
                        ) by {
                            if j > i {
                                lemma_lex_transitive(name@, views[i as int], views[j]);
                            }
                        }
                        if views.contains(name@) {
                            lemma_lex_irreflexive(name@);
                        }
                    }
                    return (i, false);
                },
            }
        }
        proof {
            if views.contains(name@) {
                lemma_lex_irreflexive(name@);
            }
        }
        (i, false)
    }

    /// Gives each of `fields` its prefix. A name that comes twice counts
    /// once. Fails where there are more than 254 different names.
    pub fn new(fields: &[&str]) -> (assigned: Result<Self, Error>)
        ensures
            match assigned {
                Ok(keys) => {
                    &&& increasing(keys@)
                    &&& keys@.to_set() == field_names(fields@).to_set()
                    &&& keys@.len() == field_names(fields@).to_set().len()
                    &&& keys@.len() <= MAX_FIELDS
                },
                Err(_) => field_names(fields@).to_set().len() > MAX_FIELDS,
            },
    {
        let mut names: Vec<Vec<u8>> = Vec::new();
        let mut i: usize = 0;
        while i < fields.len()
            invariant
                i <= fields.len(),
                increasing(name_views(names@)),
                names.len() <= MAX_FIELDS,
                name_views(names@).to_set() == field_names(fields@).take(i as int).to_set(),
            decreases fields.len() - i,
        {
            let name = fields[i].as_bytes();
            let ghost views = name_views(names@);
            let ghost seen = field_names(fields@).take(i as int);
            let ghost grown = field_names(fields@).take(i + 1);
            proof {
                assert(grown.to_set() =~= seen.to_set().insert(name@)) by {
                    assert forall|other: Seq<u8>| grown.to_set().contains(other)
                        <==> seen.to_set().insert(name@).contains(other) by {
                        if other == name@ {
                            assert(grown[i as int] == other);
                        }
                    }
                }
            }
            let (at, present) = Self::position(&names, name);
            if !present {
                if names.len() >= MAX_FIELDS {
                    proof {
                        let all = field_names(fields@).to_set();
                        lemma_increasing_distinct(views);
                        let more = views.to_set().insert(name@);
                        assert forall|other: Seq<u8>| more.contains(other) implies all.contains(
                            other,
                        ) by {}
                        vstd::seq_lib::seq_to_set_is_finite(field_names(fields@));
                        vstd::set_lib::lemma_len_subset(more, all);
                    }
                    return Err(Error { assigned: names.len() });
                }
                let owned = slice_to_vec(name);
                proof {
                    lemma_insert_name(views, at as int, name@);
                    assert(name_views(names@.insert(at as int, owned)) =~= views.insert(
                        at as int,
                        name@,
                    ));
                }
                names.insert(at, owned);
            }
            i += 1;
        }
        proof {
            assert(field_names(fields@).take(i as int) =~= field_names(fields@));
            lemma_increasing_distinct(name_views(names@));
        }
        Ok(DbKey { names })
    }

    /// The number of fields.
    pub fn len(&self) -> (len: usize)
        ensures
            increasing(self@),
            len == self@.len(),
            len <= MAX_FIELDS,
    {
        proof {
            use_type_invariant(self);
        }
        self.names.len()
    }

    /// The prefix of the field `ident`, if the database has such a field.
    pub fn get(&self, ident: &str) -> (prefix: Option<u8>)
        ensures
            increasing(self@),
            match prefix {
                Some(at) => at < self@.len() && self@[at as int] == ident.spec_bytes(),
                None => !self@.contains(ident.spec_bytes()),
            },
    {
        proof {
            use_type_invariant(self);
        }
        let (at, present) = Self::position(&self.names, ident.as_bytes());
        if present {
            Some(at as u8)
        } else {
            None
        }
    }

    /// The prefix of the field `ident`, which the database has to have.
    pub fn prefix(&self, ident: &str) -> (prefix: u8)
        requires
            self@.contains(ident.spec_bytes()),
        ensures
            increasing(self@),
            prefix < self@.len(),
            self@[prefix as int] == ident.spec_bytes(),
    {
        proof {
            use_type_invariant(self);
        }
        let (at, _present) = Self::position(&self.names, ident.as_bytes());
        at as u8
    }
}

impl Help for Error {
    /// There is no advice but to have fewer fields.
    fn help(&self) -> (advice: Option<String>)
        ensures
            advice is None,
    {
        None
    }
}

} // verus!
