//! Type resolution tools.

use vstd::prelude::*;

use crate::record::naming::{parsable_size, shortened, truc_dynamic_type_name, type_tokens_outcome};
use crate::text::str_eq;

verus! {

/// Type information (name, size and align) as given by the Rust compiler.
#[derive(PartialEq, Eq, Debug)]
pub struct TypeInfo {
    /// The type name as it can be used in Rust code.
    pub name: String,
    /// The type size given by `std::mem::size_of()`.
    pub size: usize,
    /// The type alignment given by `std::mem::align_of()`.
    pub align: usize,
}

impl View for TypeInfo {
    type V = (Seq<char>, usize, usize);

    open spec fn view(&self) -> (Seq<char>, usize, usize) {
        (self.name@, self.size, self.align)
    }
}

impl TypeInfo {
    /// Makes an independent copy of this type information.
    pub fn duplicate(&self) -> (r: TypeInfo)
        ensures
            r@ == self@,
    {
        TypeInfo { name: self.name.clone(), size: self.size, align: self.align }
    }
}

impl Clone for TypeInfo {
    fn clone(&self) -> (r: TypeInfo)
        ensures
            r@ == self@,
    {
        self.duplicate()
    }
}

/// Additional type information.
#[derive(Debug)]
pub struct DynamicTypeInfo {
    /// Rust type information.
    pub info: TypeInfo,
    /// Indicates whether or not the type can be left safely uninitialized. Merely `Copy` types
    /// can be left uninitialized, any other type cannot.
    pub allow_uninit: bool,
}

impl View for DynamicTypeInfo {
    type V = ((Seq<char>, usize, usize), bool);

    open spec fn view(&self) -> ((Seq<char>, usize, usize), bool) {
        (self.info@, self.allow_uninit)
    }
}

impl DynamicTypeInfo {
    /// Makes an independent copy of this type information.
    pub fn duplicate(&self) -> (r: DynamicTypeInfo)
        ensures
            r@ == self@,
    {
        DynamicTypeInfo { info: self.info.duplicate(), allow_uninit: self.allow_uninit }
    }
}

impl Clone for DynamicTypeInfo {
    fn clone(&self) -> (r: DynamicTypeInfo)
        ensures
            r@ == self@,
    {
        self.duplicate()
    }
}

/// Abstract type resolver trait: it gives the type information of types designated by name.
pub trait TypeResolver {
    /// Whether the resolver may give `info` for the type written `type_path`.
    spec fn resolves(&self, type_path: Seq<char>, info: ((Seq<char>, usize, usize), bool)) -> bool;

    /// Whether the resolver may refuse the type written `type_path`.
    spec fn refuses(&self, type_path: Seq<char>) -> bool;

    /// Gives the dynamic type information for `type_path`, or `None` when the resolver does not
    /// know the type.
    fn dynamic_type_info(&self, type_path: &str) -> (r: Option<DynamicTypeInfo>)
        ensures
            r matches Some(info) ==> self.resolves(type_path@, info@),
            r is None ==> self.refuses(type_path@),
    ;
}

impl<R: TypeResolver> TypeResolver for &R {
    open spec fn resolves(&self, type_path: Seq<char>, info: ((Seq<char>, usize, usize), bool)) -> bool {
        (**self).resolves(type_path, info)
    }

    open spec fn refuses(&self, type_path: Seq<char>) -> bool {
        (**self).refuses(type_path)
    }

    fn dynamic_type_info(&self, type_path: &str) -> (r: Option<DynamicTypeInfo>) {
        (**self).dynamic_type_info(type_path)
    }
}

/// A type resolver that can give Rust type information only: it knows no type by name, and
/// [dynamic_type_info](HostTypeResolver::dynamic_type_info) always answers `None`.
pub struct HostTypeResolver;

impl TypeResolver for HostTypeResolver {
    open spec fn resolves(&self, type_path: Seq<char>, info: ((Seq<char>, usize, usize), bool)) -> bool {
        false
    }

    open spec fn refuses(&self, type_path: Seq<char>) -> bool {
        true
    }

    /// No type is known by name.
    fn dynamic_type_info(&self, _type_path: &str) -> (r: Option<DynamicTypeInfo>)
        ensures
            r is None,
    {
        None
    }
}

/// The type information recorded under `name` in `entries`, if any.
pub open spec fn entry_of(
    entries: Seq<(Seq<char>, ((Seq<char>, usize, usize), bool))>,
    name: Seq<char>,
) -> Option<((Seq<char>, usize, usize), bool)> {
    if exists|i: int| 0 <= i < entries.len() && (#[trigger] entries[i]).0 == name {
        let i = choose|i: int| 0 <= i < entries.len() && (#[trigger] entries[i]).0 == name;
        Some(entries[i].1)
    } else {
        None
    }
}

/// No name is recorded twice.
pub open spec fn distinct_names(entries: Seq<(Seq<char>, ((Seq<char>, usize, usize), bool))>) -> bool {
    forall|i: int, j: int| 0 <= i < j < entries.len() ==> (#[trigger] entries[i]).0 != (#[trigger] entries[j]).0
}

/// Recording type information under a name that is not recorded yet gives it back under that
/// name, leaves every other name as it was, and keeps the names distinct.
pub proof fn law_recorded_type_is_found(
    entries: Seq<(Seq<char>, ((Seq<char>, usize, usize), bool))>,
    name: Seq<char>,
    info: ((Seq<char>, usize, usize), bool),
    other: Seq<char>,
)
    requires
        distinct_names(entries),
        entry_of(entries, name) is None,
    ensures
        entry_of(entries.push((name, info)), name) == Some(info),
        other != name ==> entry_of(entries.push((name, info)), other) == entry_of(entries, other),
        distinct_names(entries.push((name, info))),
{
    let pushed = entries.push((name, info));
    let n = entries.len() as int;
    assert(pushed[n].0 == name);
    assert forall|i: int, j: int| 0 <= i < j < pushed.len() implies (#[trigger] pushed[i]).0 != (#[trigger] pushed[j]).0 by {
        if j == n {
            assert(pushed[i] == entries[i]);
            if entries[i].0 == name {
                assert(exists|k: int| 0 <= k < entries.len() && (#[trigger] entries[k]).0 == name);
            }
        } else {
            assert(pushed[i] == entries[i] && pushed[j] == entries[j]);
        }
    }
    let k = choose|k: int| 0 <= k < pushed.len() && (#[trigger] pushed[k]).0 == name;
    if k != n {
        assert(entries[k] == pushed[k]);
        assert(exists|m: int| 0 <= m < entries.len() && (#[trigger] entries[m]).0 == name);
    }
    if other != name {
        if exists|m: int| 0 <= m < pushed.len() && (#[trigger] pushed[m]).0 == other {
            let m = choose|m: int| 0 <= m < pushed.len() && (#[trigger] pushed[m]).0 == other;
            assert(m != n);
            assert(entries[m] == pushed[m]);
            assert(exists|q: int| 0 <= q < entries.len() && (#[trigger] entries[q]).0 == other);
            let q = choose|q: int| 0 <= q < entries.len() && (#[trigger] entries[q]).0 == other;
            if q != m {
                if q < m {
                    assert(pushed[q] == entries[q]);
                } else {
                    assert(pushed[q] == entries[q]);
                }
            }
        } else {
            if exists|q: int| 0 <= q < entries.len() && (#[trigger] entries[q]).0 == other {
                let q = choose|q: int| 0 <= q < entries.len() && (#[trigger] entries[q]).0 == other;
                assert(pushed[q] == entries[q]);
            }
        }
    }
}

/// A type resolver that loads precomputed type information, recorded by type name.
///
/// In addition to allowing a good level of customization, it is also very useful for
/// cross-compilation: the data can be computed on the target platform, serialized, and loaded
/// in the project to be cross-compiled.
pub struct StaticTypeResolver {
    types: Vec<(String, DynamicTypeInfo)>,
}

impl StaticTypeResolver {
    /// The recorded type information, by name, in the order they were added.
    pub closed spec fn entries(&self) -> Seq<(Seq<char>, ((Seq<char>, usize, usize), bool))> {
        self.types@.map_values(|e: (String, DynamicTypeInfo)| (e.0@, e.1@))
    }

    /// The type information recorded under `name`, if any.
    pub open spec fn get(&self, name: Seq<char>) -> Option<((Seq<char>, usize, usize), bool)> {
        entry_of(self.entries(), name)
    }

    /// No name is recorded twice.
    #[verifier::type_invariant]
    spec fn names_are_distinct(&self) -> bool {
        distinct_names(self.entries())
    }

    /// Creates an empty resolver.
    pub fn new() -> (r: Self)
        ensures
            r.entries() == Seq::<(Seq<char>, ((Seq<char>, usize, usize), bool))>::empty(),
    {
        let r = StaticTypeResolver { types: Vec::new() };
        proof {
            assert(r.entries() =~= Seq::<(Seq<char>, ((Seq<char>, usize, usize), bool))>::empty());
        }
        r
    }

    /// The position of the information recorded under `name`.
    fn position(&self, name: &str) -> (r: Option<usize>)
        ensures
            match r {
                Some(i) => i < self.entries().len() && self.entries()[i as int].0 == name@ && self.get(name@) == Some(
                    self.entries()[i as int].1,
                ),
                None => self.get(name@) is None,
            },
    {
        proof {
            use_type_invariant(self);
        }
        let mut i: usize = 0;
        while i < self.types.len()
            invariant
                distinct_names(self.entries()),
                i <= self.types@.len(),
                forall|j: int| 0 <= j < i ==> (#[trigger] self.entries()[j]).0 != name@,
            decreases self.types@.len() - i,
        {
            if str_eq(self.types[i].0.as_str(), name) {
                proof {
                    assert(self.entries()[i as int].0 == name@);
                    let k = choose|k: int| 0 <= k < self.entries().len() && (#[trigger] self.entries()[k]).0 == name@;
                    if k != i {
                        if k < i {
                            assert(self.entries()[k].0 != self.entries()[i as int].0);
                        } else {
                            assert(self.entries()[i as int].0 != self.entries()[k].0);
                        }
                    }
                }
                return Some(i);
            }
            assert(self.entries()[i as int].0 != name@);
            i = i + 1;
        }
        None
    }

    /// Gives the type information recorded under `name`, if any.
    pub fn lookup(&self, name: &str) -> (r: Option<&DynamicTypeInfo>)
        ensures
            match r {
                Some(info) => self.get(name@) == Some(info@),
                None => self.get(name@) is None,
            },
    {
        match self.position(name) {
            Some(i) => Some(&self.types[i].1),
            None => None,
        }
    }

    /// Records type information under `name`, which must not be recorded yet.
    pub fn add_dynamic_type(&mut self, name: String, info: DynamicTypeInfo)
        requires
            old(self).get(name@) is None,
        ensures
            final(self).entries() == old(self).entries().push((name@, info@)),
    {
        proof {
            use_type_invariant(&*self);
        }
        let ghost old_entries = self.entries();
        let ghost key = name@;
        let ghost value = info@;
        let mut types: Vec<(String, DynamicTypeInfo)> = Vec::new();
        core::mem::swap(&mut types, &mut self.types);
        types.push((name, info));
        proof {
            let entries = types@.map_values(|e: (String, DynamicTypeInfo)| (e.0@, e.1@));
            assert(entries =~= old_entries.push((key, value)));
            law_recorded_type_is_found(old_entries, key, value, key);
        }
        self.types = types;
    }

    /// Adds a single type information, recorded under its name, which must not be recorded yet.
    pub fn add_type(&mut self, type_info: TypeInfo)
        requires
            old(self).get(type_info.name@) is None,
        ensures
            final(self).entries() == old(self).entries().push((type_info.name@, (type_info@, false))),
    {
        let name = type_info.name.clone();
        self.add_dynamic_type(name, DynamicTypeInfo { info: type_info, allow_uninit: false });
    }

    /// Adds a single `Copy` type information, recorded under its name, which must not be
    /// recorded yet.
    pub fn add_type_allow_uninit(&mut self, type_info: TypeInfo)
        requires
            old(self).get(type_info.name@) is None,
        ensures
            final(self).entries() == old(self).entries().push((type_info.name@, (type_info@, true))),
    {
        let name = type_info.name.clone();
        self.add_dynamic_type(name, DynamicTypeInfo { info: type_info, allow_uninit: true });
    }

    /// The recorded type information, by name, in the order they were added.
    pub fn types(&self) -> (r: &[(String, DynamicTypeInfo)])
        ensures
            r@.map_values(|e: (String, DynamicTypeInfo)| (e.0@, e.1@)) == self.entries(),
    {
        self.types.as_slice()
    }
}

impl Default for StaticTypeResolver {
    /// Creates an empty resolver.
    fn default() -> (r: Self)
        ensures
            r.entries() == Seq::<(Seq<char>, ((Seq<char>, usize, usize), bool))>::empty(),
    {
        Self::new()
    }
}

impl TypeResolver for StaticTypeResolver {
    /// `type_path` is small enough to be parsed, and the information is recorded under its name
    /// as written in generated code: the tokens printed for it, shortened (see
    /// `truc_dynamic_type_name`).
    open spec fn resolves(&self, type_path: Seq<char>, info: ((Seq<char>, usize, usize), bool)) -> bool {
        &&& parsable_size(type_path)
        &&& exists|tokens: Seq<char>|
            type_tokens_outcome(type_path, Some(tokens)) && #[trigger] self.get(shortened(tokens)) == Some(info)
    }

    /// `type_path` is too large to be parsed, is not a Rust type, or nothing is recorded under its
    /// name as written in generated code.
    open spec fn refuses(&self, type_path: Seq<char>) -> bool {
        ||| !parsable_size(type_path)
        ||| type_tokens_outcome(type_path, None)
        ||| exists|tokens: Seq<char>|
            type_tokens_outcome(type_path, Some(tokens)) && #[trigger] self.get(shortened(tokens)) is None
    }

    /// Gives the dynamic type information for `type_path` by looking up the data under its name
    /// (see `truc_dynamic_type_name`).
    fn dynamic_type_info(&self, type_path: &str) -> (r: Option<DynamicTypeInfo>) {
        match truc_dynamic_type_name(type_path) {
            Some(name) => {
                let ghost tokens = choose|tokens: Seq<char>|
                    type_tokens_outcome(type_path@, Some(tokens)) && name@ == #[trigger] shortened(tokens);
                match self.lookup(name.as_str()) {
                    Some(info) => {
                        proof {
                            assert(self.get(shortened(tokens)) == Some(info@));
                        }
                        Some(info.duplicate())
                    },
                    None => {
                        proof {
                            assert(self.get(shortened(tokens)) is None);
                        }
                        None
                    },
                }
            },
            None => None,
        }
    }
}

} // verus!
