//! Typed field values.
use crate::float_bits::{
    double_is_zero, double_magnitude_of, single_is_zero, single_magnitude_of,
};
use crate::numeric::Numeric;
use crate::order::{
    chain, double_order, flip, int_order, lemma_lex_order_chains, lemma_lex_order_equal,
    lemma_lex_order_flips, lex_order, order_bytes, order_double, order_i128, order_single,
    order_text, single_order, Order,
};
use crate::text::{lemma_encoding_tells_texts_apart, same_bytes, same_text};
use vstd::prelude::*;
use vstd::string::StringSliceAdditionalSpecFns;
use vstd::utf8::{decode_utf8, encode_utf8, valid_utf8};

verus! {

/// A field value of one of several kinds.
///
/// `Float` and `Double` hold the IEEE 754 bit pattern of the value. A value
/// is hashed by its kind and content, a floating-point value by its pattern.
#[derive(Debug, Hash)]
pub enum VariantValue {
    Bool(bool),
    Char(char),
    Short(i16),
    Int(i32),
    Long(i64),
    Float(u32),
    Double(u64),
    VString(String),
    Binary(Vec<u8>),
    Vec(Vec<VariantValue>),
    VMap(VariantMap),
}

/// Values by name: a list of entries in which no name occurs twice.
#[derive(Debug, Hash)]
pub struct VariantMap {
    entries: Vec<(String, VariantValue)>,
}

/// What a field value stands for.
pub enum VariantView {
    Bool(bool),
    Char(char),
    Short(i16),
    Int(i32),
    Long(i64),
    Float(u32),
    Double(u64),
    VString(Seq<char>),
    Binary(Seq<u8>),
    Vec(Seq<VariantView>),
    VMap(Seq<(Seq<char>, VariantView)>),
}

impl View for VariantValue {
    type V = VariantView;

    open spec fn view(&self) -> VariantView
        decreases self,
    {
        match self {
            VariantValue::Bool(b) => VariantView::Bool(*b),
            VariantValue::Char(c) => VariantView::Char(*c),
            VariantValue::Short(n) => VariantView::Short(*n),
            VariantValue::Int(n) => VariantView::Int(*n),
            VariantValue::Long(n) => VariantView::Long(*n),
            VariantValue::Float(bits) => VariantView::Float(*bits),
            VariantValue::Double(bits) => VariantView::Double(*bits),
            VariantValue::VString(s) => VariantView::VString(s@),
            VariantValue::Binary(bytes) => VariantView::Binary(bytes@),
            VariantValue::Vec(items) => VariantView::Vec(
                Seq::new(
                    items@.len(),
                    |i: int|
                        if 0 <= i < items@.len() {
                            items@[i].view()
                        } else {
                            VariantView::Bool(false)
                        },
                ),
            ),
            VariantValue::VMap(map) => VariantView::VMap(map.view()),
        }
    }
}

impl View for VariantMap {
    type V = Seq<(Seq<char>, VariantView)>;

    closed spec fn view(&self) -> Seq<(Seq<char>, VariantView)>
        decreases self,
    {
        Seq::new(
            self.entries@.len(),
            |i: int|
                if 0 <= i < self.entries@.len() {
                    (self.entries@[i].0@, self.entries@[i].1.view())
                } else {
                    (Seq::empty(), VariantView::Bool(false))
                },
        )
    }
}

/// The views of `values`.
pub open spec fn views_of(values: Seq<VariantValue>) -> Seq<VariantView> {
    Seq::new(values.len(), |i: int| values[i]@)
}

/// A list stands for the views of its items.
pub proof fn lemma_view_of_vec(items: Vec<VariantValue>)
    ensures
        VariantValue::Vec(items)@ == VariantView::Vec(views_of(items@)),
{
    reveal_with_fuel(<VariantValue as View>::view, 2);
    assert(VariantValue::Vec(items)@->Vec_0 =~= views_of(items@));
}

/// Entry `i` of `entries` has the name `key`.
pub open spec fn named_at(entries: Seq<(Seq<char>, VariantView)>, key: Seq<char>, i: int) -> bool {
    0 <= i < entries.len() && entries[i].0 == key
}

/// Some entry of `entries` has the name `key`.
pub open spec fn has_name(entries: Seq<(Seq<char>, VariantView)>, key: Seq<char>) -> bool {
    exists|i: int| named_at(entries, key, i)
}

/// No name occurs twice in `entries`.
pub open spec fn distinct_names(entries: Seq<(Seq<char>, VariantView)>) -> bool {
    forall|i: int, j: int|
        0 <= i < entries.len() && 0 <= j < entries.len() && #[trigger] entries[i].0
            == #[trigger] entries[j].0 ==> i == j
}

impl VariantMap {
    #[verifier::type_invariant]
    spec fn names_differ(&self) -> bool {
        forall|i: int, j: int|
            0 <= i < self.entries@.len() && 0 <= j < self.entries@.len()
                && #[trigger] self.entries@[i].0@ == #[trigger] self.entries@[j].0@ ==> i == j
    }

    /// A map without entries.
    pub fn new() -> (map: VariantMap)
        ensures
            map@ == Seq::<(Seq<char>, VariantView)>::empty(),
    {
        VariantMap { entries: Vec::new() }
    }

    /// The number of entries. No name occurs twice among them.
    pub fn len(&self) -> (n: usize)
        ensures
            n == self@.len(),
            distinct_names(self@),
    {
        proof {
            use_type_invariant(self);
        }
        self.entries.len()
    }

    /// Whether the map has no entries.
    pub fn is_empty(&self) -> (empty: bool)
        ensures
            empty == (self@.len() == 0),
    {
        self.entries.len() == 0
    }

    /// Index of the entry named `key`, or the number of entries where there
    /// is none.
    fn position(&self, key: &str) -> (i: usize)
        ensures
            i <= self@.len(),
            i < self@.len() ==> named_at(self@, key@, i as int),
            i == self@.len() ==> !has_name(self@, key@),
    {
        let mut i: usize = 0;
        while i < self.entries.len()
            invariant
                i <= self.entries@.len(),
                forall|j: int| 0 <= j < i ==> !named_at(self@, key@, j),
            decreases self.entries.len() - i,
        {
            if same_text(self.entries[i].0.as_str(), key) {
                return i;
            }
            i += 1;
        }
        i
    }

    /// The value named `key`.
    pub fn get(&self, key: &str) -> (r: Option<&VariantValue>)
        ensures
            match r {
                Some(value) => exists|i: int| named_at(self@, key@, i) && self@[i].1 == value@,
                None => !has_name(self@, key@),
            },
    {
        let i: usize = self.position(key);
        if i < self.entries.len() {
            assert(named_at(self@, key@, i as int));
            Some(&self.entries[i].1)
        } else {
            None
        }
    }

    /// Whether a value is named `key`.
    pub fn contains_key(&self, key: &str) -> (found: bool)
        ensures
            found == has_name(self@, key@),
    {
        let i: usize = self.position(key);
        assert(i < self@.len() ==> named_at(self@, key@, i as int));
        i < self.entries.len()
    }

    /// Names `value` by `key`. Where a value had that name, the new one takes
    /// its place in the list and the old one is returned; else the new entry
    /// is added at the end.
    pub fn insert(&mut self, key: String, value: VariantValue) -> (r: Option<VariantValue>)
        ensures
            distinct_names(old(self)@),
            distinct_names(final(self)@),
            match r {
                Some(replaced) => exists|i: int|
                    named_at(old(self)@, key@, i) && old(self)@[i].1 == replaced@ && final(self)@
                        == old(self)@.update(i, (key@, value@)),
                None => !has_name(old(self)@, key@) && final(self)@ == old(self)@.push(
                    (key@, value@),
                ),
            },
    {
        proof {
            use_type_invariant(&*self);
        }
        let i: usize = self.position(key.as_str());
        let ghost before = self@;
        let mut taken = VariantMap::new();
        std::mem::swap(self, &mut taken);
        let mut entries = taken.entries;
        if i < entries.len() {
            assert(named_at(before, key@, i as int));
            let (_, replaced) = entries.remove(i);
            entries.insert(i, (key, value));
            *self = VariantMap { entries };
            assert(self@ == before.update(i as int, (key@, value@)));
            proof {
                use_type_invariant(&*self);
            }
            Some(replaced)
        } else {
            entries.push((key, value));
            assert forall|a: int, b: int|
                0 <= a < entries@.len() && 0 <= b < entries@.len() && #[trigger] entries@[a].0@
                    == #[trigger] entries@[b].0@ implies a == b by {
                if a < before.len() {
                    assert(!named_at(before, key@, a));
                }
                if b < before.len() {
                    assert(!named_at(before, key@, b));
                }
            }
            *self = VariantMap { entries };
            assert(self@ == before.push((key@, value@)));
            proof {
                use_type_invariant(&*self);
            }
            None
        }
    }

    /// The entries in order.
    pub fn entries(&self) -> (list: &Vec<(String, VariantValue)>)
        ensures
            list@.len() == self@.len(),
            forall|i: int|
                0 <= i < list@.len() ==> self@[i] == (#[trigger] list@[i].0@, list@[i].1@),
            distinct_names(self@),
    {
        proof {
            use_type_invariant(self);
        }
        &self.entries
    }
}

impl Clone for VariantValue {
    /// A value with the same content.
    fn clone(&self) -> (r: VariantValue)
        ensures
            r@ == self@,
        decreases self@,
    {
        match self {
            VariantValue::Bool(b) => VariantValue::Bool(*b),
            VariantValue::Char(c) => VariantValue::Char(*c),
            VariantValue::Short(n) => VariantValue::Short(*n),
            VariantValue::Int(n) => VariantValue::Int(*n),
            VariantValue::Long(n) => VariantValue::Long(*n),
            VariantValue::Float(bits) => VariantValue::Float(*bits),
            VariantValue::Double(bits) => VariantValue::Double(*bits),
            VariantValue::VString(text) => VariantValue::VString(text.clone()),
            VariantValue::Binary(bytes) => VariantValue::Binary(bytes.clone()),
            VariantValue::Vec(items) => {
                let mut copies: Vec<VariantValue> = Vec::new();
                let mut i: usize = 0;
                proof {
                    lemma_view_of_vec(*items);
                }
                while i < items.len()
                    invariant
                        i <= items.len(),
                        self@ == VariantView::Vec(views_of(items@)),
                        copies@.len() == i,
                        forall|k: int| 0 <= k < i ==> (#[trigger] copies@[k])@ == items@[k]@,
                    decreases items.len() - i,
                {
                    proof {
                        assert(decreases_to!(self@ => self@->Vec_0));
                        assert(decreases_to!(self@->Vec_0 => self@->Vec_0[i as int]));
                    }
                    copies.push(items[i].clone());
                    i += 1;
                }
                proof {
                    lemma_view_of_vec(copies);
                    assert(views_of(copies@) =~= views_of(items@));
                }
                VariantValue::Vec(copies)
            },
            VariantValue::VMap(map) => {
                proof {
                    assert(self@->VMap_0 == map@);
                    assert(decreases_to!(self@ => self@->VMap_0));
                }
                VariantValue::VMap(map.clone())
            },
        }
    }
}

impl Clone for VariantMap {
    /// A map with the same entries.
    fn clone(&self) -> (r: VariantMap)
        ensures
            r@ == self@,
        decreases self@,
    {
        proof {
            use_type_invariant(self);
        }
        let mut entries: Vec<(String, VariantValue)> = Vec::new();
        let mut i: usize = 0;
        while i < self.entries.len()
            invariant
                i <= self.entries@.len(),
                entries@.len() == i,
                self.names_differ(),
                forall|k: int|
                    0 <= k < i ==> (#[trigger] entries@[k]).0@ == self.entries@[k].0@
                        && entries@[k].1@ == self.entries@[k].1@,
            decreases self.entries.len() - i,
        {
            proof {
                assert(decreases_to!(self@ => self@[i as int]));
                assert(decreases_to!(self@[i as int] => self@[i as int].1));
            }
            let name: String = self.entries[i].0.clone();
            let value = self.entries[i].1.clone();
            entries.push((name, value));
            i += 1;
        }
        let copy = VariantMap { entries };
        assert(copy@ =~= self@);
        copy
    }
}

/// Where two values have an order, they have the opposite one seen from the
/// other side, and they are in equal order exactly where they are equal.
pub proof fn lemma_order_flips(a: VariantValue, b: VariantValue)
    ensures
        a.spec_order(&b) is Some <==> b.spec_order(&a) is Some,
        a.spec_order(&b) matches Some(order) ==> b.spec_order(&a) == Some(flip(order)),
        a.spec_equal(&b) <==> a.spec_order(&b) == Some(Order::Equal),
{
    match (a, b) {
        (VariantValue::VString(x), VariantValue::VString(y)) => {
            lemma_lex_order_flips(encode_utf8(x@), encode_utf8(y@));
            lemma_lex_order_equal(encode_utf8(x@), encode_utf8(y@));
            if encode_utf8(x@) == encode_utf8(y@) {
                lemma_encoding_tells_texts_apart(x@, y@);
            }
        },
        (VariantValue::Binary(x), VariantValue::Binary(y)) => {
            lemma_lex_order_flips(x@, y@);
            lemma_lex_order_equal(x@, y@);
        },
        _ => {},
    }
}

/// The order carries over: where `a` and `b` have an order and `b` and `c`
/// have one in the same direction, `a` and `c` have that order too. With
/// `lemma_order_flips`: the values of one kind that have an order at all are
/// totally ordered.
pub proof fn lemma_order_chains(a: VariantValue, b: VariantValue, c: VariantValue)
    requires
        a.spec_order(&b) is Some,
        b.spec_order(&c) is Some,
        chain(a.spec_order(&b)->0, b.spec_order(&c)->0) is Some,
    ensures
        a.spec_order(&c) == chain(a.spec_order(&b)->0, b.spec_order(&c)->0),
{
    match (a, b, c) {
        (VariantValue::VString(x), VariantValue::VString(y), VariantValue::VString(z)) => {
            lemma_lex_order_chains(encode_utf8(x@), encode_utf8(y@), encode_utf8(z@));
        },
        (VariantValue::Binary(x), VariantValue::Binary(y), VariantValue::Binary(z)) => {
            lemma_lex_order_chains(x@, y@, z@);
        },
        _ => {},
    }
}

/// `String::from_utf8`: the text that `bytes` encode in UTF-8, or nothing
/// where they are not valid UTF-8.
#[verifier::external_body]
pub(crate) fn string_from_utf8(bytes: Vec<u8>) -> (r: Option<String>)
    ensures
        r is Some <==> valid_utf8(bytes@),
        r matches Some(s) ==> s@ == decode_utf8(bytes@),
{
    String::from_utf8(bytes).ok()
}

impl VariantValue {
    /// The number of a value of an integer or floating-point kind is zero.
    pub open spec fn spec_is_zero(&self) -> bool {
        match *self {
            VariantValue::Int(n) => n == 0,
            VariantValue::Long(n) => n == 0,
            VariantValue::Float(bits) => single_is_zero(bits),
            VariantValue::Double(bits) => double_is_zero(bits),
            _ => false,
        }
    }

    /// The value is a number that `is_zero` can be asked of.
    pub open spec fn has_zero_test(&self) -> bool {
        *self is Int || *self is Long || *self is Float || *self is Double
    }

    /// How two values of one kind are ordered: numbers by their amount,
    /// `false` before `true`, characters by their code point, texts by their
    /// UTF-8 encodings and these, like all byte strings, by the first byte in
    /// which they differ. Nothing where the kinds differ, where a
    /// floating-point value is a NaN, and for lists and maps.
    pub open spec fn spec_order(&self, other: &VariantValue) -> Option<Order> {
        match (*self, *other) {
            (VariantValue::Bool(a), VariantValue::Bool(b)) => Some(
                int_order(if a { 1 } else { 0 }, if b { 1 } else { 0 }),
            ),
            (VariantValue::Char(a), VariantValue::Char(b)) => Some(
                int_order(a as u32 as int, b as u32 as int),
            ),
            (VariantValue::Short(a), VariantValue::Short(b)) => Some(int_order(a as int, b as int)),
            (VariantValue::Int(a), VariantValue::Int(b)) => Some(int_order(a as int, b as int)),
            (VariantValue::Long(a), VariantValue::Long(b)) => Some(int_order(a as int, b as int)),
            (VariantValue::Float(a), VariantValue::Float(b)) => single_order(a, b),
            (VariantValue::Double(a), VariantValue::Double(b)) => double_order(a, b),
            (VariantValue::VString(a), VariantValue::VString(b)) => Some(
                lex_order(encode_utf8(a@), encode_utf8(b@)),
            ),
            (VariantValue::Binary(a), VariantValue::Binary(b)) => Some(lex_order(a@, b@)),
            _ => None,
        }
    }

    /// Two values are equal: of one kind that is neither list nor map, and
    /// with the same content. Floating-point values are equal as IEEE 754 has
    /// it: the two zeros are, a NaN and any value are not.
    pub open spec fn spec_equal(&self, other: &VariantValue) -> bool {
        match (*self, *other) {
            (VariantValue::Bool(a), VariantValue::Bool(b)) => a == b,
            (VariantValue::Char(a), VariantValue::Char(b)) => a == b,
            (VariantValue::Short(a), VariantValue::Short(b)) => a == b,
            (VariantValue::Int(a), VariantValue::Int(b)) => a == b,
            (VariantValue::Long(a), VariantValue::Long(b)) => a == b,
            (VariantValue::Float(a), VariantValue::Float(b)) => single_order(a, b) == Some(
                Order::Equal,
            ),
            (VariantValue::Double(a), VariantValue::Double(b)) => double_order(a, b) == Some(
                Order::Equal,
            ),
            (VariantValue::VString(a), VariantValue::VString(b)) => a@ == b@,
            (VariantValue::Binary(a), VariantValue::Binary(b)) => a@ == b@,
            _ => false,
        }
    }

    /// Orders this value and `other`, or finds that they have no order.
    pub fn order(&self, other: &VariantValue) -> (r: Option<Order>)
        ensures
            r == self.spec_order(other),
    {
        match (self, other) {
            (VariantValue::Bool(a), VariantValue::Bool(b)) => Some(
                order_i128(if *a { 1 } else { 0 }, if *b { 1 } else { 0 }),
            ),
            (VariantValue::Char(a), VariantValue::Char(b)) => Some(
                order_i128(*a as u32 as i128, *b as u32 as i128),
            ),
            (VariantValue::Short(a), VariantValue::Short(b)) => Some(
                order_i128(*a as i128, *b as i128),
            ),
            (VariantValue::Int(a), VariantValue::Int(b)) => Some(
                order_i128(*a as i128, *b as i128),
            ),
            (VariantValue::Long(a), VariantValue::Long(b)) => Some(
                order_i128(*a as i128, *b as i128),
            ),
            (VariantValue::Float(a), VariantValue::Float(b)) => order_single(*a, *b),
            (VariantValue::Double(a), VariantValue::Double(b)) => order_double(*a, *b),
            (VariantValue::VString(a), VariantValue::VString(b)) => Some(
                order_text(a.as_str(), b.as_str()),
            ),
            (VariantValue::Binary(a), VariantValue::Binary(b)) => Some(
                order_bytes(a.as_slice(), b.as_slice()),
            ),
            _ => None,
        }
    }

    /// Whether this value and `other` are equal.
    pub fn equals(&self, other: &VariantValue) -> (r: bool)
        ensures
            r == self.spec_equal(other),
    {
        match (self, other) {
            (VariantValue::Bool(a), VariantValue::Bool(b)) => *a == *b,
            (VariantValue::Char(a), VariantValue::Char(b)) => *a == *b,
            (VariantValue::Short(a), VariantValue::Short(b)) => *a == *b,
            (VariantValue::Int(a), VariantValue::Int(b)) => *a == *b,
            (VariantValue::Long(a), VariantValue::Long(b)) => *a == *b,
            (VariantValue::Float(a), VariantValue::Float(b)) => match order_single(*a, *b) {
                Some(Order::Equal) => true,
                _ => false,
            },
            (VariantValue::Double(a), VariantValue::Double(b)) => match order_double(*a, *b) {
                Some(Order::Equal) => true,
                _ => false,
            },
            (VariantValue::VString(a), VariantValue::VString(b)) => same_text(
                a.as_str(),
                b.as_str(),
            ),
            (VariantValue::Binary(a), VariantValue::Binary(b)) => same_bytes(
                a.as_slice(),
                b.as_slice(),
            ),
            _ => false,
        }
    }

    /// The truth value of a `Bool`.
    pub fn get_bool(&self) -> (r: Option<bool>)
        ensures
            r == (match *self {
                VariantValue::Bool(b) => Some(b),
                _ => None,
            }),
    {
        match self {
            VariantValue::Bool(b) => Some(*b),
            _ => None,
        }
    }

    /// The character of a `Char`.
    pub fn get_char(&self) -> (r: Option<char>)
        ensures
            r == (match *self {
                VariantValue::Char(c) => Some(c),
                _ => None,
            }),
    {
        match self {
            VariantValue::Char(c) => Some(*c),
            _ => None,
        }
    }

    /// The number of a `Short`.
    pub fn get_short(&self) -> (r: Option<i16>)
        ensures
            r == (match *self {
                VariantValue::Short(n) => Some(n),
                _ => None,
            }),
    {
        match self {
            VariantValue::Short(s) => Some(*s),
            _ => None,
        }
    }

    /// The number of an `Int`.
    pub fn get_int(&self) -> (r: Option<i32>)
        ensures
            r == (match *self {
                VariantValue::Int(n) => Some(n),
                _ => None,
            }),
    {
        match self {
            VariantValue::Int(i) => Some(*i),
            _ => None,
        }
    }

    /// The number of a `Long`.
    pub fn get_long(&self) -> (r: Option<i64>)
        ensures
            r == (match *self {
                VariantValue::Long(n) => Some(n),
                _ => None,
            }),
    {
        match self {
            VariantValue::Long(l) => Some(*l),
            _ => None,
        }
    }

    /// The number of a value of a numeric kind, in its own width.
    pub fn get_numeric(&self) -> (r: Option<Numeric>)
        ensures
            r == (match *self {
                VariantValue::Short(n) => Some(Numeric::Short(n)),
                VariantValue::Int(n) => Some(Numeric::Int(n)),
                VariantValue::Long(n) => Some(Numeric::Long(n)),
                VariantValue::Float(bits) => Some(Numeric::Float(bits)),
                VariantValue::Double(bits) => Some(Numeric::Double(bits)),
                _ => None,
            }),
    {
        match self {
            VariantValue::Short(s) => Some(Numeric::Short(*s)),
            VariantValue::Int(i) => Some(Numeric::Int(*i)),
            VariantValue::Long(l) => Some(Numeric::Long(*l)),
            VariantValue::Float(f) => Some(Numeric::Float(*f)),
            VariantValue::Double(d) => Some(Numeric::Double(*d)),
            _ => None,
        }
    }

    /// The bit pattern of a `Float`.
    pub fn get_float(&self) -> (r: Option<u32>)
        ensures
            r == (match *self {
                VariantValue::Float(bits) => Some(bits),
                _ => None,
            }),
    {
        match self {
            VariantValue::Float(f) => Some(*f),
            _ => None,
        }
    }

    /// The bit pattern of a `Double`.
    pub fn get_double(&self) -> (r: Option<u64>)
        ensures
            r == (match *self {
                VariantValue::Double(bits) => Some(bits),
                _ => None,
            }),
    {
        match self {
            VariantValue::Double(d) => Some(*d),
            _ => None,
        }
    }

    /// The text of a `VString`.
    pub fn get_string(&self) -> (r: Option<&str>)
        ensures
            match r {
                Some(text) => self@ == VariantView::VString(text@),
                None => !(*self is VString),
            },
    {
        match self {
            VariantValue::VString(s) => Some(s.as_str()),
            _ => None,
        }
    }

    /// The bytes of a `Binary`.
    pub fn get_binary(&self) -> (r: Option<&[u8]>)
        ensures
            match r {
                Some(bytes) => self@ == VariantView::Binary(bytes@),
                None => !(*self is Binary),
            },
    {
        match self {
            VariantValue::Binary(b) => Some(b.as_slice()),
            _ => None,
        }
    }

    /// The text of a `VString`, or the text that the bytes of a `Binary`
    /// encode where they are valid UTF-8.
    pub fn get_utf8_string(&self) -> (r: Option<String>)
        ensures
            match self@ {
                VariantView::VString(text) => r matches Some(s) && s@ == text,
                VariantView::Binary(bytes) => if valid_utf8(bytes) {
                    r matches Some(s) && s@ == decode_utf8(bytes)
                } else {
                    r is None
                },
                _ => r is None,
            },
    {
        match self {
            VariantValue::VString(s) => Some(s.clone()),
            VariantValue::Binary(b) => string_from_utf8(b.clone()),
            _ => None,
        }
    }

    /// Whether the number of an `Int`, `Long`, `Float` or `Double` is zero.
    /// Both floating-point zeros count. It is asked of no other kind.
    pub fn is_zero(&self) -> (zero: bool)
        requires
            self.has_zero_test(),
        ensures
            zero == self.spec_is_zero(),
    {
        match self {
            VariantValue::Int(i) => *i == 0,
            VariantValue::Long(i) => *i == 0,
            VariantValue::Float(bits) => single_magnitude_of(*bits) == 0,
            VariantValue::Double(bits) => double_magnitude_of(*bits) == 0,
            _ => false,
        }
    }

    /// The values of a `Vec`.
    pub fn get_vec(&self) -> (r: Option<&Vec<VariantValue>>)
        ensures
            match r {
                Some(items) => *self == VariantValue::Vec(*items),
                None => !(*self is Vec),
            },
    {
        match self {
            VariantValue::Vec(v) => Some(v),
            _ => None,
        }
    }

    /// The named values of a `VMap`.
    pub fn get_map(&self) -> (r: Option<&VariantMap>)
        ensures
            match r {
                Some(map) => *self == VariantValue::VMap(*map),
                None => !(*self is VMap),
            },
    {
        match self {
            VariantValue::VMap(m) => Some(m),
            _ => None,
        }
    }
}

} // verus!
