use vstd::prelude::*;
use crate::expr::PrimExpr;
use crate::text::{decimal, decimal_string, push_char};

verus! {

/// A typed handle on a value of the document, named by the expression path
/// that reads it.
pub trait Ref: Sized {
    /// The expression path of the value.
    spec fn base(&self) -> Seq<char>;

    fn new(base: String) -> (r: Self)
        ensures
            r.base() == base@,
    ;
}

/// Something that a loop over a collection can expand into one instance per
/// element.
pub trait ToListMappable: Sized {
    type O;

    /// Whether `r` is what the expansion over the collection at `base` gives.
    spec fn map_post(&self, base: Seq<char>, r: Self::O) -> bool;

    fn do_map(self, base: String) -> (r: Self::O)
        ensures
            self.map_post(base@, r),
    ;
}

/// Something that a loop over a record can expand into one instance per entry.
pub trait RecToListMappable {
    type O;

    fn do_map(self, base: String) -> Self::O;
}

/// The text of element `index` of the list at `base`.
pub open spec fn index_path(base: Seq<char>, index: nat) -> Seq<char> {
    base + "["@ + decimal(index) + "]"@
}

/// The path of the loop variable that holds the current element.
pub open spec fn each_value() -> Seq<char> {
    "each.value"@
}

/// The path of the loop variable that holds the current key.
pub open spec fn each_key() -> Seq<char> {
    "each.key"@
}

/// A reference to a list whose elements are read through `T`.
pub struct ListRef<T> {
    base: String,
    _pd: core::marker::PhantomData<T>,
}

impl<T> Ref for ListRef<T> {
    closed spec fn base(&self) -> Seq<char> {
        self.base@
    }

    fn new(base: String) -> (r: Self) {
        ListRef { base, _pd: core::marker::PhantomData }
    }
}

impl<T: Ref> ListRef<T> {
    /// The element at `index`.
    pub fn get(&self, index: usize) -> (r: T)
        ensures
            r.base() == index_path(self.base(), index as nat),
    {
        let mut s = self.base.clone();
        push_char(&mut s, '[');
        let d = decimal_string(index);
        s.append(d.as_str());
        push_char(&mut s, ']');
        proof {
            reveal_strlit("[");
            reveal_strlit("]");
        }
        assert(s@ =~= index_path(self.base(), index as nat));
        T::new(s)
    }

    /// Expands what `inner` builds from the loop's current element into one
    /// instance per element of this list.
    pub fn map<O: ToListMappable>(&self, inner: impl FnOnce(T) -> O) -> (r: O::O)
        requires
            forall|t: T| t.base() == each_value() ==> call_requires(inner, (t,)),
        ensures
            exists|t: T, o: O|
                t.base() == each_value() && call_ensures(inner, (t,), o) && o.map_post(
                    self.base(),
                    r,
                ),
    {
        let t = T::new(String::from_str("each.value"));
        proof {
            reveal_strlit("each.value");
        }
        let out = inner(t);
        out.do_map(self.base.clone())
    }
}

/// A list that a loop produced: the loop reads `base` and its current element
/// is read at `map_base`.
pub struct MapListRef<T> {
    base: String,
    map_base: String,
    _pd: core::marker::PhantomData<T>,
}

impl<T> MapListRef<T> {
    pub closed spec fn base(&self) -> Seq<char> {
        self.base@
    }

    pub closed spec fn map_base(&self) -> Seq<char> {
        self.map_base@
    }

    pub fn new(base: String, map_base: String) -> (r: Self)
        ensures
            r.base() == base@,
            r.map_base() == map_base@,
    {
        MapListRef { base, map_base, _pd: core::marker::PhantomData }
    }
}

impl<T: Ref> MapListRef<T> {
    /// Expands what `inner` builds from the current element into one instance
    /// per element.
    pub fn map<O: ToListMappable>(&self, inner: impl FnOnce(T) -> O) -> (r: O::O)
        requires
            forall|t: T| t.base() == self.map_base() ==> call_requires(inner, (t,)),
        ensures
            exists|t: T, o: O|
                t.base() == self.map_base() && call_ensures(inner, (t,), o) && o.map_post(
                    self.base(),
                    r,
                ),
    {
        let t = T::new(self.map_base.clone());
        let out = inner(t);
        out.do_map(self.base.clone())
    }
}

/// A record that a loop produced: the loop reads `base`, its current key is read
/// at `map_base_key` and its current value at `map_base`.
pub struct MapListRefToRec<T> {
    base: String,
    map_base_key: String,
    map_base: String,
    _pd: core::marker::PhantomData<T>,
}

impl<T> MapListRefToRec<T> {
    pub closed spec fn base(&self) -> Seq<char> {
        self.base@
    }

    pub closed spec fn map_base_key(&self) -> Seq<char> {
        self.map_base_key@
    }

    pub closed spec fn map_base(&self) -> Seq<char> {
        self.map_base@
    }

    pub fn new(base: String, map_base_key: String, map_base: String) -> (r: Self)
        ensures
            r.base() == base@,
            r.map_base_key() == map_base_key@,
            r.map_base() == map_base@,
    {
        MapListRefToRec { base, map_base_key, map_base, _pd: core::marker::PhantomData }
    }
}

/// The key and the value of the current entry of a loop over a record.
pub struct MapKV<T> {
    _pd: core::marker::PhantomData<T>,
}

impl<T: Ref> MapKV<T> {
    pub fn new() -> (r: Self) {
        MapKV { _pd: core::marker::PhantomData }
    }

    pub fn key(&self) -> (r: PrimExpr<String>)
        ensures
            r.text() == each_key(),
    {
        proof {
            reveal_strlit("each.key");
        }
        PrimExpr::new(String::from_str("each.key"))
    }

    pub fn value(&self) -> (r: T)
        ensures
            r.base() == each_value(),
    {
        proof {
            reveal_strlit("each.value");
        }
        T::new(String::from_str("each.value"))
    }
}

} // verus!
