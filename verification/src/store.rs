use vstd::prelude::*;

use string_interner::StringInterner;
use string_interner::backend::StringBackend;
use string_interner::symbol::SymbolU32;
use string_interner::Symbol;
use string_interner::DefaultHashBuilder;

verus! {

/// Whether `name` occurs in `names`.
pub open spec fn has_name(names: Seq<Seq<char>>, name: Seq<char>) -> bool {
    exists|i: int| 0 <= i < names.len() && names[i] == name
}

/// The smallest index at which `name` occurs in `names` (meaningful only
/// when it occurs).
pub open spec fn name_index(names: Seq<Seq<char>>, name: Seq<char>) -> int
    decreases names.len(),
{
    if names.len() == 0 {
        0
    } else if names[0] == name {
        0
    } else {
        1 + name_index(names.skip(1), name)
    }
}

/// Whether a name list is free of duplicates.
pub open spec fn names_wf(names: Seq<Seq<char>>) -> bool {
    forall|i: int, j: int| 0 <= i < j < names.len() ==> names[i] != names[j]
}

/// When `name` occurs in `names`, its first index is in bounds and holds it.
pub proof fn lemma_name_index_works(names: Seq<Seq<char>>, name: Seq<char>)
    requires
        has_name(names, name),
    ensures
        0 <= name_index(names, name) < names.len(),
        names[name_index(names, name)] == name,
    decreases names.len(),
{
    if names.len() > 0 && names[0] != name {
        assert(names.skip(1).len() == names.len() - 1);
        assert(exists|i: int| 0 <= i < names.len() && names[i] == name);
        let w = choose|i: int| 0 <= i < names.len() && names[i] == name;
        assert(names.skip(1)[w - 1] == names[w]);
        lemma_name_index_works(names.skip(1), name);
        assert(names[1 + name_index(names.skip(1), name)] == names.skip(1)[name_index(
            names.skip(1),
            name,
        )]);
    }
}

/// In a duplicate-free name list, any index holding `name` is its first.
pub proof fn lemma_name_index_unique(names: Seq<Seq<char>>, name: Seq<char>, i: int)
    requires
        names_wf(names),
        0 <= i < names.len(),
        names[i] == name,
    ensures
        i == name_index(names, name),
{
    lemma_name_index_works(names, name);
    let f = name_index(names, name);
    if f < i {
        assert(names[f] == names[i]);
    } else if i < f {
        assert(names[i] == names[f]);
    }
}

/// A store interning reference names into dense numeric ids, built on
/// `string_interner`'s contiguous string backend. Opaque to verification;
/// everything known about it is stated on the wrappers below, over
/// `store_names`.
#[verifier::external_body]
#[derive(Debug)]
pub struct TidStore {
    interner: StringInterner<StringBackend<SymbolU32>, DefaultHashBuilder>,
}

/// The strings the store holds, in interning order; the id of a string is
/// its position here.
pub uninterp spec fn store_names(s: TidStore) -> Seq<Seq<char>>;

impl TidStore {
    /// The interned names, in interning order; a name's id is its position.
    pub open spec fn names(self) -> Seq<Seq<char>> {
        store_names(self)
    }

    /// No name is interned twice.
    pub open spec fn wf(self) -> bool {
        names_wf(self.names())
    }

    /// Relies on `StringInterner::new`: a new interner holds no strings.
    #[verifier::external_body]
    pub fn new() -> (r: TidStore)
        ensures
            store_names(r) == Seq::<Seq<char>>::empty(),
    {
        TidStore { interner: StringInterner::new() }
    }

    /// Relies on `StringInterner::len`: one interned string per symbol.
    #[verifier::external_body]
    pub fn len(&self) -> (n: usize)
        ensures
            n == store_names(*self).len(),
    {
        self.interner.len()
    }

    /// Relies on `StringInterner::get_or_intern` over the contiguous string
    /// backend: an equal interned string's symbol is returned and nothing
    /// changes; a new string is appended and its position returned.
    #[verifier::external_body]
    pub fn intern(&mut self, name: &str) -> (id: u32)
        requires
            store_names(*old(self)).len() < 0xFFFFFFFF,
        ensures
            id < store_names(*final(self)).len(),
            store_names(*final(self))[id as int] == name@,
            (exists|i: int|
                0 <= i < store_names(*old(self)).len() && store_names(*old(self))[i] == name@)
                ==> store_names(*final(self)) == store_names(*old(self)),
            !(exists|i: int|
                0 <= i < store_names(*old(self)).len() && store_names(*old(self))[i] == name@)
                ==> {
                &&& store_names(*final(self)) == store_names(*old(self)).push(name@)
                &&& id == store_names(*old(self)).len()
            },
    {
        self.interner.get_or_intern(name).to_usize() as u32
    }

    /// Relies on `StringInterner::get`: the symbol of an equal interned
    /// string, if one is interned.
    #[verifier::external_body]
    pub fn find(&self, name: &str) -> (r: Option<u32>)
        ensures
            match r {
                Some(id) => id < store_names(*self).len() && store_names(*self)[id as int]
                    == name@,
                None => forall|i: int|
                    0 <= i < store_names(*self).len() ==> store_names(*self)[i] != name@,
            },
    {
        self.interner.get(name).map(|sym| sym.to_usize() as u32)
    }

    /// Relies on `StringInterner::resolve` and `Symbol::try_from_usize`:
    /// a valid symbol resolves to its string, an out-of-range id to nothing.
    #[verifier::external_body]
    pub fn resolve(&self, id: u32) -> (r: Option<String>)
        ensures
            id < store_names(*self).len() ==> (match r {
                Some(s) => s@ == store_names(*self)[id as int],
                None => false,
            }),
            id >= store_names(*self).len() ==> r is None,
    {
        match SymbolU32::try_from_usize(id as usize) {
            Some(sym) => self.interner.resolve(sym).map(|s| s.to_string()),
            None => None,
        }
    }

    /// Interning keeps the store free of duplicates.
    pub proof fn lemma_intern_preserves_wf(pre: TidStore, post: TidStore, name: Seq<char>)
        requires
            pre.wf(),
            (exists|i: int| 0 <= i < pre.names().len() && pre.names()[i] == name)
                ==> post.names() == pre.names(),
            !(exists|i: int| 0 <= i < pre.names().len() && pre.names()[i] == name)
                ==> post.names() == pre.names().push(name),
        ensures
            post.wf(),
    {
    }
}

} // verus!
