//! The typed property decoder: raw `(name, type, value)` triples, in
//! document order, become a map from unique names to typed values. Duplicate
//! names, unknown type tags, and unparsable values are rejected with the
//! offending name or tag.

use vstd::prelude::*;

use crate::TmxError;
use crate::text::{i64_text_parsed, is_float_literal, is_float_text, parse_i64, str_eq};

verus! {

/// A typed property value. Floating-point properties keep their validated
/// literal text: the library stores what the document wrote, and conversion
/// to machine floating point is the consumer's concern.
#[derive(Debug, Clone, PartialEq, Eq)]
pub enum Property {
    String(String),
    Bool(bool),
    Float(String),
    Int(i64),
}

/// The mathematical value of a `Property`.
pub enum PropertyVal {
    Str(Seq<char>),
    Bool(bool),
    Float(Seq<char>),
    Int(int),
}

impl View for Property {
    type V = PropertyVal;

    open spec fn view(&self) -> PropertyVal {
        match self {
            Property::String(s) => PropertyVal::Str(s@),
            Property::Bool(b) => PropertyVal::Bool(*b),
            Property::Float(s) => PropertyVal::Float(s@),
            Property::Int(n) => PropertyVal::Int(*n as int),
        }
    }
}

/// One property as the document carries it: its name, its `type` attribute
/// (empty when absent), and its value text.
#[derive(Debug, Clone)]
pub struct RawProperty {
    pub name: String,
    pub type_: String,
    pub value: String,
}

/// The view of a raw property.
pub struct RawPropertyVal {
    pub name: Seq<char>,
    pub type_: Seq<char>,
    pub value: Seq<char>,
}

impl View for RawProperty {
    type V = RawPropertyVal;

    open spec fn view(&self) -> RawPropertyVal {
        RawPropertyVal { name: self.name@, type_: self.type_@, value: self.value@ }
    }
}

/// The views of a sequence of raw properties.
pub open spec fn raw_views(s: Seq<RawProperty>) -> Seq<RawPropertyVal> {
    s.map_values(|p: RawProperty| p@)
}

// ---------------------------------------------------------------------------
// The decoded map.
// ---------------------------------------------------------------------------

/// A property map: names are unique; insertion order carries no meaning.
#[derive(Debug, Clone)]
pub struct Properties {
    entries: Vec<(String, Property)>,
}

/// The map an entry list denotes.
pub open spec fn entries_map(s: Seq<(String, Property)>) -> Map<Seq<char>, PropertyVal>
    decreases s.len(),
{
    if s.len() == 0 {
        Map::empty()
    } else {
        entries_map(s.drop_last()).insert(s.last().0@, s.last().1@)
    }
}

/// An entry list's map contains exactly its entries' names.
pub proof fn lemma_entries_map_domain(s: Seq<(String, Property)>, k: Seq<char>)
    ensures
        entries_map(s).contains_key(k) <==> exists|j: int|
            0 <= j < s.len() && (#[trigger] s[j]).0@ == k,
    decreases s.len(),
{
    if s.len() > 0 {
        lemma_entries_map_domain(s.drop_last(), k);
        if entries_map(s).contains_key(k) {
            if s.last().0@ == k {
                assert(s[s.len() - 1].0@ == k);
            } else {
                let j = choose|j: int| 0 <= j < s.drop_last().len() && (#[trigger] s.drop_last()[
                    j
                ]).0@ == k;
                assert(s[j].0@ == k);
            }
        }
        if exists|j: int| 0 <= j < s.len() && (#[trigger] s[j]).0@ == k {
            let j = choose|j: int| 0 <= j < s.len() && (#[trigger] s[j]).0@ == k;
            if j < s.len() - 1 {
                assert(s.drop_last()[j].0@ == k);
            }
        }
    }
}

/// In a list of distinct names, each entry is found in the map unchanged.
pub proof fn lemma_entries_map_value(s: Seq<(String, Property)>, j: int)
    requires
        forall|a: int, b: int|
            0 <= a < b < s.len() ==> (#[trigger] s[a]).0@ != (#[trigger] s[b]).0@,
        0 <= j < s.len(),
    ensures
        entries_map(s).contains_key(s[j].0@),
        entries_map(s)[s[j].0@] == s[j].1@,
    decreases s.len(),
{
    if j == s.len() - 1 {
    } else {
        assert(forall|a: int, b: int|
            0 <= a < b < s.drop_last().len() ==> (#[trigger] s.drop_last()[a]).0@
                != (#[trigger] s.drop_last()[b]).0@);
        lemma_entries_map_value(s.drop_last(), j);
        assert(s.drop_last()[j] == s[j]);
        assert(s[j].0@ != s.last().0@);
    }
}

impl View for Properties {
    type V = Map<Seq<char>, PropertyVal>;

    closed spec fn view(&self) -> Map<Seq<char>, PropertyVal> {
        entries_map(self.entries@)
    }
}

impl Properties {
    /// The names in the entry list are pairwise distinct.
    pub closed spec fn wf(&self) -> bool {
        forall|a: int, b: int|
            0 <= a < b < self.entries@.len() ==> (#[trigger] self.entries@[a]).0@
                != (#[trigger] self.entries@[b]).0@
    }

    /// How many properties the map holds.
    pub fn len(&self) -> (n: usize)
        ensures
            self.wf() ==> n == self@.dom().len(),
    {
        proof {
            if self.wf() {
                lemma_entries_map_size(self.entries@);
            }
        }
        self.entries.len()
    }

    /// Look a property up by name.
    pub fn get(&self, name: &str) -> (r: Option<&Property>)
        ensures
            self.wf() ==> match r {
                Some(p) => self@.contains_key(name@) && self@[name@] == p@,
                None => !self@.contains_key(name@),
            },
    {
        let count = self.entries.len();
        let mut j: usize = 0;
        while j < count
            invariant
                count == self.entries@.len(),
                0 <= j <= count,
                forall|a: int| 0 <= a < j ==> (#[trigger] self.entries@[a]).0@ != name@,
            decreases count - j,
        {
            if str_eq(self.entries[j].0.as_str(), name) {
                proof {
                    if self.wf() {
                        lemma_entries_map_value(self.entries@, j as int);
                    }
                }
                return Some(&self.entries[j].1);
            }
            j = j + 1;
        }
        proof {
            lemma_entries_map_domain(self.entries@, name@);
        }
        None
    }

    /// The entries as a list, in insertion order.
    pub fn entries(&self) -> (r: &Vec<(String, Property)>)
        ensures
            entries_map(r@) == self@,
            self.wf() ==> forall|a: int, b: int|
                0 <= a < b < r@.len() ==> (#[trigger] r@[a]).0@ != (#[trigger] r@[b]).0@,
    {
        &self.entries
    }
}

/// In a list of distinct names the map has exactly one key per entry.
proof fn lemma_entries_map_size(s: Seq<(String, Property)>)
    requires
        forall|a: int, b: int|
            0 <= a < b < s.len() ==> (#[trigger] s[a]).0@ != (#[trigger] s[b]).0@,
    ensures
        entries_map(s).dom().finite(),
        entries_map(s).dom().len() == s.len(),
    decreases s.len(),
{
    if s.len() > 0 {
        assert(forall|a: int, b: int|
            0 <= a < b < s.drop_last().len() ==> (#[trigger] s.drop_last()[a]).0@
                != (#[trigger] s.drop_last()[b]).0@);
        lemma_entries_map_size(s.drop_last());
        lemma_entries_map_domain(s.drop_last(), s.last().0@);
        assert(forall|j: int|
            0 <= j < s.drop_last().len() ==> (#[trigger] s.drop_last()[j]).0@ != s.last().0@);
        assert(!entries_map(s.drop_last()).contains_key(s.last().0@));
        assert(entries_map(s).dom() =~= entries_map(s.drop_last()).dom().insert(s.last().0@));
    }
}

// ---------------------------------------------------------------------------
// Decoding.
// ---------------------------------------------------------------------------

/// What one value text denotes under a type tag, or which way it fails.
pub enum PropValueSpec {
    Val(PropertyVal),
    BadValue,
    BadType,
}

/// The typing rules: an empty or `string` tag stores the text; `int`,
/// `float` and `bool` parse it; anything else is unknown.
pub open spec fn prop_value_spec(t: Seq<char>, v: Seq<char>) -> PropValueSpec {
    if t.len() == 0 || t == "string"@ {
        PropValueSpec::Val(PropertyVal::Str(v))
    } else if t == "int"@ {
        match i64_text_parsed(v) {
            Some(n) => PropValueSpec::Val(PropertyVal::Int(n)),
            None => PropValueSpec::BadValue,
        }
    } else if t == "float"@ {
        if is_float_text(v) {
            PropValueSpec::Val(PropertyVal::Float(v))
        } else {
            PropValueSpec::BadValue
        }
    } else if t == "bool"@ {
        if v == "true"@ {
            PropValueSpec::Val(PropertyVal::Bool(true))
        } else if v == "false"@ {
            PropValueSpec::Val(PropertyVal::Bool(false))
        } else {
            PropValueSpec::BadValue
        }
    } else {
        PropValueSpec::BadType
    }
}

/// The outcome of decoding a triple sequence.
pub enum PropsResult {
    Decoded(Map<Seq<char>, PropertyVal>),
    Dup(Seq<char>),
    BadValue(Seq<char>),
    BadType(Seq<char>),
}

/// Decode triples in document order into `acc`: the first failure wins, a
/// duplicate name being checked before its value is parsed.
pub open spec fn decode_props_spec_rec(
    raw: Seq<RawPropertyVal>,
    acc: Map<Seq<char>, PropertyVal>,
) -> PropsResult
    decreases raw.len(),
{
    if raw.len() == 0 {
        PropsResult::Decoded(acc)
    } else {
        let p = raw[0];
        if acc.contains_key(p.name) {
            PropsResult::Dup(p.name)
        } else {
            match prop_value_spec(p.type_, p.value) {
                PropValueSpec::Val(v) => decode_props_spec_rec(
                    raw.drop_first(),
                    acc.insert(p.name, v),
                ),
                PropValueSpec::BadValue => PropsResult::BadValue(p.name),
                PropValueSpec::BadType => PropsResult::BadType(p.type_),
            }
        }
    }
}

/// What decoding a raw triple sequence yields.
pub open spec fn decode_props_spec(raw: Seq<RawPropertyVal>) -> PropsResult {
    decode_props_spec_rec(raw, Map::empty())
}

/// Decode raw properties into a map, enforcing name uniqueness and the
/// typing rules.
pub fn decode_properties(raw: &Vec<RawProperty>) -> (r: Result<Properties, TmxError>)
    ensures
        match r {
            Ok(props) => {
                &&& props.wf()
                &&& decode_props_spec(raw_views(raw@)) matches PropsResult::Decoded(m) && props@ == m
            },
            Err(e) => {
                ||| e matches TmxError::DuplicateProperty(n)
                    && decode_props_spec(raw_views(raw@)) matches PropsResult::Dup(n2) && n@ == n2
                ||| e matches TmxError::PropertyParseError(n)
                    && decode_props_spec(raw_views(raw@)) matches PropsResult::BadValue(n2)
                    && n@ == n2
                ||| e matches TmxError::UnknownPropertyType(t)
                    && decode_props_spec(raw_views(raw@)) matches PropsResult::BadType(t2)
                    && t@ == t2
            },
        },
{
    let ghost views = raw_views(raw@);
    let count = raw.len();
    let mut entries: Vec<(String, Property)> = Vec::new();
    let mut i: usize = 0;
    proof {
        assert(views.skip(0) =~= views);
        assert(entries_map(entries@) =~= Map::<Seq<char>, PropertyVal>::empty());
    }
    while i < count
        invariant
            count == raw@.len(),
            views == raw_views(raw@),
            views.len() == count,
            0 <= i <= count,
            forall|a: int, b: int|
                0 <= a < b < entries@.len() ==> (#[trigger] entries@[a]).0@
                    != (#[trigger] entries@[b]).0@,
            decode_props_spec(views) == decode_props_spec_rec(
                views.skip(i as int),
                entries_map(entries@),
            ),
        decreases count - i,
    {
        let ghost rest = views.skip(i as int);
        let ghost acc = entries_map(entries@);
        proof {
            assert(rest[0] == views[i as int]);
            assert(views[i as int] == raw@[i as int]@);
            assert(rest.drop_first() =~= views.skip(i as int + 1));
        }
        let name = &raw[i].name;
        let found = find_name(&entries, name.as_str());
        proof {
            lemma_entries_map_domain(entries@, name@);
        }
        if found {
            return Err(TmxError::DuplicateProperty(name.clone()));
        }
        let tp = &raw[i].type_;
        let value = &raw[i].value;
        let prop: Property = if tp.as_str().is_empty() || str_eq(tp.as_str(), "string") {
            Property::String(value.clone())
        } else if str_eq(tp.as_str(), "int") {
            match parse_i64(value.as_str()) {
                Some(n) => Property::Int(n),
                None => {
                    return Err(TmxError::PropertyParseError(name.clone()));
                },
            }
        } else if str_eq(tp.as_str(), "float") {
            if is_float_literal(value.as_str()) {
                Property::Float(value.clone())
            } else {
                return Err(TmxError::PropertyParseError(name.clone()));
            }
        } else if str_eq(tp.as_str(), "bool") {
            if str_eq(value.as_str(), "true") {
                Property::Bool(true)
            } else if str_eq(value.as_str(), "false") {
                Property::Bool(false)
            } else {
                return Err(TmxError::PropertyParseError(name.clone()));
            }
        } else {
            return Err(TmxError::UnknownPropertyType(tp.clone()));
        };
        proof {
            assert(prop_value_spec(tp@, value@) == PropValueSpec::Val(prop@));
        }
        let entry = (name.clone(), prop);
        let ghost pre = entries@;
        entries.push(entry);
        proof {
            assert(entries@.drop_last() =~= pre);
            assert(entries@.last() == entry);
            assert(entry.0@ == name@);
            assert(entries_map(entries@) == acc.insert(name@, prop@));
        }
        i = i + 1;
    }
    proof {
        assert(views.skip(count as int) =~= Seq::<RawPropertyVal>::empty());
    }
    Ok(Properties { entries })
}

/// Whether some entry carries this name.
fn find_name(entries: &Vec<(String, Property)>, name: &str) -> (r: bool)
    ensures
        r == exists|j: int| 0 <= j < entries@.len() && (#[trigger] entries@[j]).0@ == name@,
{
    let count = entries.len();
    let mut j: usize = 0;
    while j < count
        invariant
            count == entries@.len(),
            0 <= j <= count,
            forall|a: int| 0 <= a < j ==> (#[trigger] entries@[a]).0@ != name@,
        decreases count - j,
    {
        if str_eq(entries[j].0.as_str(), name) {
            return true;
        }
        j = j + 1;
    }
    false
}

// ---------------------------------------------------------------------------
// Laws.
// ---------------------------------------------------------------------------

proof fn lemma_rec_never_ok_on_dup(raw: Seq<RawPropertyVal>, acc: Map<Seq<char>, PropertyVal>)
    requires
        (exists|k: int| 0 <= k < raw.len() && acc.contains_key((#[trigger] raw[k]).name))
            || (exists|i: int, j: int|
                0 <= i < j < raw.len() && (#[trigger] raw[i]).name == (#[trigger] raw[j]).name),
    ensures
        !(decode_props_spec_rec(raw, acc) matches PropsResult::Decoded(_)),
    decreases raw.len(),
{
    let p = raw[0];
    if !acc.contains_key(p.name) {
        match prop_value_spec(p.type_, p.value) {
            PropValueSpec::Val(v) => {
                let acc2 = acc.insert(p.name, v);
                let raw2 = raw.drop_first();
                if exists|k: int| 0 <= k < raw.len() && acc.contains_key((#[trigger] raw[k]).name) {
                    let k = choose|k: int|
                        0 <= k < raw.len() && acc.contains_key((#[trigger] raw[k]).name);
                    assert(raw2[k - 1] == raw[k]);
                    assert(acc2.contains_key(raw2[k - 1].name));
                } else {
                    let (i, j) = choose|i: int, j: int|
                        0 <= i < j < raw.len() && (#[trigger] raw[i]).name
                            == (#[trigger] raw[j]).name;
                    if i == 0 {
                        assert(raw2[j - 1] == raw[j]);
                        assert(acc2.contains_key(raw2[j - 1].name));
                    } else {
                        assert(raw2[i - 1] == raw[i]);
                        assert(raw2[j - 1] == raw[j]);
                        assert(raw2[i - 1].name == raw2[j - 1].name);
                    }
                }
                lemma_rec_never_ok_on_dup(raw2, acc2);
            },
            PropValueSpec::BadValue => {
            },
            PropValueSpec::BadType => {
            },
        }
    }
}

/// Two raw properties of the same name never decode to a map: the decoder
/// fails, with that duplicate or with an earlier error.
pub proof fn lemma_duplicate_never_decodes(raw: Seq<RawPropertyVal>, i: int, j: int)
    requires
        0 <= i < j < raw.len(),
        raw[i].name == raw[j].name,
    ensures
        !(decode_props_spec(raw) matches PropsResult::Decoded(_)),
{
    lemma_rec_never_ok_on_dup(raw, Map::empty());
}

} // verus!
