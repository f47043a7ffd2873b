//! Typed key–value property bags carried by layers, tiles and placed
//! objects, with first-match lookup, plus the verified string helpers the
//! pipeline needs (exact equality and the logic-layer name prefix).

use vstd::prelude::*;

verus! {

/// A property value: the document format carries strings, 32-bit integers
/// and booleans.
#[derive(Clone, Debug)]
pub enum PropertyValue {
    Str(String),
    Int(i32),
    Bool(bool),
}

/// View of a property value with the string replaced by its character
/// sequence.
pub enum PropertyValueView {
    Str(Seq<char>),
    Int(i32),
    Bool(bool),
}

impl DeepView for PropertyValue {
    type V = PropertyValueView;

    open spec fn deep_view(&self) -> PropertyValueView {
        match self {
            PropertyValue::Str(s) => PropertyValueView::Str(s@),
            PropertyValue::Int(v) => PropertyValueView::Int(*v),
            PropertyValue::Bool(v) => PropertyValueView::Bool(*v),
        }
    }
}

/// One named property.
#[derive(Clone, Debug)]
pub struct Property {
    pub key: String,
    pub value: PropertyValue,
}

/// View of a property: key characters and value view.
pub struct PropertyView {
    pub key: Seq<char>,
    pub value: PropertyValueView,
}

impl DeepView for Property {
    type V = PropertyView;

    open spec fn deep_view(&self) -> PropertyView {
        PropertyView { key: self.key@, value: self.value.deep_view() }
    }
}

/// An ordered bag of named properties; lookup returns the first match.
#[derive(Clone, Debug)]
pub struct PropertyBag {
    pub entries: Vec<Property>,
}

impl DeepView for PropertyBag {
    type V = Seq<PropertyView>;

    open spec fn deep_view(&self) -> Seq<PropertyView> {
        self.entries.deep_view()
    }
}

/// First value stored under `key`, if any.
pub open spec fn bag_lookup(entries: Seq<PropertyView>, key: Seq<char>) -> Option<PropertyValueView>
    decreases entries.len(),
{
    if entries.len() == 0 {
        None
    } else if entries[0].key == key {
        Some(entries[0].value)
    } else {
        bag_lookup(entries.drop_first(), key)
    }
}

/// The integer stored under `key`, if the first entry under that key is an
/// integer.
pub open spec fn bag_lookup_int(entries: Seq<PropertyView>, key: Seq<char>) -> Option<i32> {
    match bag_lookup(entries, key) {
        Some(PropertyValueView::Int(v)) => Some(v),
        _ => None,
    }
}

/// The string stored under `key`, if the first entry under that key is a
/// string.
pub open spec fn bag_lookup_str(entries: Seq<PropertyView>, key: Seq<char>) -> Option<Seq<char>> {
    match bag_lookup(entries, key) {
        Some(PropertyValueView::Str(s)) => Some(s),
        _ => None,
    }
}

/// Exact character-for-character string equality.
pub fn str_eq(a: &str, b: &str) -> (r: bool)
    ensures
        r == (a@ == b@),
{
    let alen = a.unicode_len();
    let blen = b.unicode_len();
    if alen != blen {
        return false;
    }
    let mut i: usize = 0;
    while i < alen
        invariant
            alen == a@.len(),
            blen == b@.len(),
            alen == blen,
            i <= alen,
            forall|j: int| 0 <= j < i ==> a@[j] == b@[j],
        decreases alen - i,
    {
        if a.get_char(i) != b.get_char(i) {
            return false;
        }
        i = i + 1;
    }
    proof {
        assert(a@ =~= b@);
    }
    true
}

impl PropertyBag {
    /// An empty bag.
    pub fn new() -> (r: PropertyBag)
        ensures
            r.deep_view() =~= Seq::<PropertyView>::empty(),
    {
        PropertyBag { entries: Vec::new() }
    }

    /// First value stored under `key`, if any.
    pub fn get(&self, key: &str) -> (r: Option<&PropertyValue>)
        ensures
            match r {
                Some(v) => bag_lookup(self.deep_view(), key@) == Some(v.deep_view()),
                None => bag_lookup(self.deep_view(), key@) is None,
            },
    {
        let n = self.entries.len();
        let mut i: usize = 0;
        proof {
            assert(self.deep_view().skip(0) =~= self.deep_view());
        }
        while i < n
            invariant
                n == self.entries.len(),
                i <= n,
                bag_lookup(self.deep_view(), key@) == bag_lookup(
                    self.deep_view().skip(i as int),
                    key@,
                ),
        decreases n - i,
        {
            proof {
                assert(self.deep_view().skip(i as int)[0] == self.entries[i as int].deep_view());
                assert(self.deep_view().skip(i as int).drop_first() =~= self.deep_view().skip(
                    i as int + 1,
                ));
            }
            if str_eq(self.entries[i].key.as_str(), key) {
                return Some(&self.entries[i].value);
            }
            i = i + 1;
        }
        proof {
            assert(self.deep_view().skip(n as int) =~= Seq::<PropertyView>::empty());
        }
        None
    }

    /// The integer stored under `key`, if the first entry under that key
    /// is an integer.
    pub fn get_int(&self, key: &str) -> (r: Option<i32>)
        ensures
            r == bag_lookup_int(self.deep_view(), key@),
    {
        match self.get(key) {
            Some(PropertyValue::Int(v)) => Some(*v),
            _ => None,
        }
    }

    /// The string stored under `key`, if the first entry under that key is
    /// a string.
    pub fn get_str(&self, key: &str) -> (r: Option<&String>)
        ensures
            match r {
                Some(s) => bag_lookup_str(self.deep_view(), key@) == Some(s@),
                None => bag_lookup_str(self.deep_view(), key@) is None,
            },
    {
        match self.get(key) {
            Some(PropertyValue::Str(s)) => Some(s),
            _ => None,
        }
    }
}

impl PropertyValue {
    /// An exact copy of the value.
    pub fn duplicate(&self) -> (r: PropertyValue)
        ensures
            r.deep_view() == self.deep_view(),
    {
        match self {
            PropertyValue::Str(s) => PropertyValue::Str(s.clone()),
            PropertyValue::Int(v) => PropertyValue::Int(*v),
            PropertyValue::Bool(b) => PropertyValue::Bool(*b),
        }
    }
}

impl PropertyBag {
    /// An exact copy of the bag.
    pub fn duplicate(&self) -> (r: PropertyBag)
        ensures
            r.deep_view() == self.deep_view(),
    {
        let n = self.entries.len();
        let mut entries: Vec<Property> = Vec::new();
        let mut i: usize = 0;
        while i < n
            invariant
                n == self.entries@.len(),
                i <= n,
                entries.deep_view() == self.deep_view().subrange(0, i as int),
            decreases n - i,
        {
            let e = &self.entries[i];
            let copy = Property { key: e.key.clone(), value: e.value.duplicate() };
            proof {
                assert(copy.deep_view() == self.deep_view()[i as int]);
            }
            let ghost prev = entries.deep_view();
            entries.push(copy);
            proof {
                assert(entries.deep_view() =~= prev.push(copy.deep_view()));
                assert(entries.deep_view() =~= self.deep_view().subrange(0, i as int + 1));
            }
            i = i + 1;
        }
        proof {
            assert(self.deep_view().subrange(0, n as int) =~= self.deep_view());
        }
        PropertyBag { entries }
    }
}

/// Layers whose name starts with this marker carry gameplay data for a
/// named sibling visual layer and are never rendered themselves.
pub open spec fn logic_name_marker() -> Seq<char> {
    seq!['L', 'o', 'g', 'i', 'c']
}

/// Whether a layer name starts with the logic marker.
pub open spec fn is_logic_name(name: Seq<char>) -> bool {
    name.len() >= 5 && name.subrange(0, 5) == logic_name_marker()
}

/// Executable check for the logic-layer name prefix.
pub fn has_logic_prefix(name: &str) -> (r: bool)
    ensures
        r == is_logic_name(name@),
{
    let n = name.unicode_len();
    if n < 5 {
        proof {
            assert(!is_logic_name(name@));
        }
        return false;
    }
    let r = name.get_char(0) == 'L' && name.get_char(1) == 'o' && name.get_char(2) == 'g'
        && name.get_char(3) == 'i' && name.get_char(4) == 'c';
    proof {
        if r {
            assert(name@.subrange(0, 5) =~= logic_name_marker());
        } else {
            assert(name@.subrange(0, 5) != logic_name_marker()) by {
                if name@.subrange(0, 5) == logic_name_marker() {
                    assert(name@[0] == logic_name_marker()[0]);
                    assert(name@[1] == logic_name_marker()[1]);
                    assert(name@[2] == logic_name_marker()[2]);
                    assert(name@[3] == logic_name_marker()[3]);
                    assert(name@[4] == logic_name_marker()[4]);
                }
            }
        }
    }
    r
}

} // verus!
