//! JSON values, and their reading and writing through `serde_json`.

use crate::text;
use crate::text::{chars_of, same_str};
use vstd::prelude::*;

verus! {

// ---------------------------------------------------------------------------
// Values
// ---------------------------------------------------------------------------

/// A number of `serde_json`.
#[verifier::external_type_specification]
#[verifier::external_body]
pub struct ExNumber(serde_json::Number);

/// What a number of `serde_json` is: a whole one where `as_u64` or `as_i64`
/// gives it, and any other as it is printed.
pub uninterp spec fn number_tree(n: serde_json::Number) -> Tree;

/// A number that is not whole.
#[derive(Debug, PartialEq)]
pub struct Fraction {
    number: serde_json::Number,
}

impl Fraction {
    #[verifier::type_invariant]
    spec fn not_whole(self) -> bool {
        number_tree(self.number) is Float
    }

    /// The number as it is printed.
    pub fn text(&self) -> (r: String)
        ensures
            r@ == self@,
    {
        proof {
            use_type_invariant(self);
        }
        print_number(&self.number)
    }
}

impl View for Fraction {
    type V = Seq<char>;

    closed spec fn view(&self) -> Seq<char> {
        number_tree(self.number)->Float_0
    }
}

/// A JSON value. Numbers keep apart what a whole number without a sign, a
/// negative whole number and any other number are.
#[derive(Debug, PartialEq)]
pub enum Json {
    Null,
    Bool(bool),
    UInt(u64),
    Int(i64),
    Float(Fraction),
    Text(String),
    List(Vec<Json>),
    Object(Vec<(String, Json)>),
}

/// What a JSON value is, as a mathematical value. A number that is not whole is
/// what it is printed as.
pub enum Tree {
    Null,
    Bool(bool),
    UInt(u64),
    Int(i64),
    Float(Seq<char>),
    Text(Seq<char>),
    List(Seq<Tree>),
    Object(Seq<(Seq<char>, Tree)>),
}

/// The mathematical value of a JSON value.
pub open spec fn tree_of(j: Json) -> Tree
    decreases j,
{
    match j {
        Json::Null => Tree::Null,
        Json::Bool(b) => Tree::Bool(b),
        Json::UInt(n) => Tree::UInt(n),
        Json::Int(n) => Tree::Int(n),
        Json::Float(t) => Tree::Float(t@),
        Json::Text(t) => Tree::Text(t@),
        Json::List(v) => Tree::List(
            Seq::new(
                v@.len(),
                |i: int|
                    if 0 <= i < v@.len() {
                        tree_of(v@[i])
                    } else {
                        Tree::Null
                    },
            ),
        ),
        Json::Object(v) => Tree::Object(
            Seq::new(
                v@.len(),
                |i: int|
                    if 0 <= i < v@.len() {
                        (v@[i].0@, tree_of(v@[i].1))
                    } else {
                        (Seq::<char>::empty(), Tree::Null)
                    },
            ),
        ),
    }
}

impl View for Json {
    type V = Tree;

    open spec fn view(&self) -> Tree {
        tree_of(*self)
    }
}

/// The trees of a list of values.
pub open spec fn trees(v: Seq<Json>) -> Seq<Tree> {
    v.map_values(|x: Json| x@)
}

/// The value under the first entry with the name `key`.
pub open spec fn lookup(es: Seq<(Seq<char>, Tree)>, key: Seq<char>) -> Option<Tree>
    decreases es.len(),
{
    if es.len() == 0 {
        None
    } else if es[0].0 == key {
        Some(es[0].1)
    } else {
        lookup(es.skip(1), key)
    }
}

/// The field `key` of an object.
pub open spec fn field_of(t: Tree, key: Seq<char>) -> Option<Tree> {
    match t {
        Tree::Object(es) => lookup(es, key),
        _ => None,
    }
}

pub open spec fn text_of(t: Tree) -> Option<Seq<char>> {
    match t {
        Tree::Text(s) => Some(s),
        _ => None,
    }
}

pub open spec fn u64_of(t: Tree) -> Option<u64> {
    match t {
        Tree::UInt(n) => Some(n),
        _ => None,
    }
}

pub open spec fn i64_of(t: Tree) -> Option<i64> {
    match t {
        Tree::UInt(n) if n <= i64::MAX => Some(n as i64),
        Tree::Int(n) => Some(n),
        _ => None,
    }
}

pub open spec fn bool_of(t: Tree) -> Option<bool> {
    match t {
        Tree::Bool(b) => Some(b),
        _ => None,
    }
}

/// The text under the field `key`.
pub open spec fn text_field_of(t: Tree, key: Seq<char>) -> Option<Seq<char>> {
    match field_of(t, key) {
        Some(v) => text_of(v),
        None => None,
    }
}

impl Json {
    /// The field `key` of an object.
    pub fn get(&self, key: &str) -> (r: Option<&Json>)
        ensures
            match r {
                Some(v) => field_of(self@, key@) == Some(v@),
                None => field_of(self@, key@) is None,
            },
    {
        match self {
            Json::Object(es) => {
                let ghost all = self@->Object_0;
                let mut i: usize = 0;
                assert(all.skip(0) =~= all);
                while i < es.len()
                    invariant
                        i <= es@.len(),
                        self@ == Tree::Object(all),
                        all.len() == es@.len(),
                        forall|k: int|
                            0 <= k < es@.len() ==> #[trigger] all[k] == (es@[k].0@, es@[k].1@),
                        lookup(all, key@) == lookup(all.skip(i as int), key@),
                    decreases es.len() - i,
                {
                    assert(all.skip(i as int)[0] == all[i as int]);
                    if same_str(es[i].0.as_str(), key) {
                        return Some(&es[i].1);
                    }
                    assert(all.skip(i as int).skip(1) =~= all.skip(i + 1));
                    i = i + 1;
                }
                None
            },
            _ => None,
        }
    }

    /// The text that this value is.
    pub fn as_str(&self) -> (r: Option<&str>)
        ensures
            match r {
                Some(s) => text_of(self@) == Some(s@),
                None => text_of(self@) is None,
            },
    {
        match self {
            Json::Text(s) => Some(s.as_str()),
            _ => None,
        }
    }

    pub fn as_u64(&self) -> (r: Option<u64>)
        ensures
            r == u64_of(self@),
    {
        match self {
            Json::UInt(n) => Some(*n),
            _ => None,
        }
    }

    pub fn as_i64(&self) -> (r: Option<i64>)
        ensures
            r == i64_of(self@),
    {
        match self {
            Json::UInt(n) => if *n <= 0x7fff_ffff_ffff_ffff {
                Some(*n as i64)
            } else {
                None
            },
            Json::Int(n) => Some(*n),
            _ => None,
        }
    }

    pub fn as_bool(&self) -> (r: Option<bool>)
        ensures
            r == bool_of(self@),
    {
        match self {
            Json::Bool(b) => Some(*b),
            _ => None,
        }
    }

    /// The text under the field `key`.
    pub fn text_field(&self, key: &str) -> (r: Option<&str>)
        ensures
            match r {
                Some(s) => text_field_of(self@, key@) == Some(s@),
                None => text_field_of(self@, key@) is None,
            },
    {
        match self.get(key) {
            Some(v) => v.as_str(),
            None => None,
        }
    }
}

// ---------------------------------------------------------------------------
// Objects in the order of their names
// ---------------------------------------------------------------------------

/// Whether `a` comes before `b` when texts are ordered by their characters.
pub open spec fn before(a: Seq<char>, b: Seq<char>) -> bool
    decreases a.len(),
{
    if b.len() == 0 {
        false
    } else if a.len() == 0 {
        true
    } else if a[0] == b[0] {
        before(a.skip(1), b.skip(1))
    } else {
        (a[0] as int) < (b[0] as int)
    }
}

/// No two entries have one name, and the names ascend.
pub open spec fn ascending(es: Seq<(Seq<char>, Tree)>) -> bool {
    forall|i: int, j: int| 0 <= i < j < es.len() ==> before(#[trigger] es[i].0, #[trigger] es[j].0)
}

/// A value that holds what a JSON value can hold: in every object the names
/// ascend, and a number kept as negative is negative.
pub open spec fn proper(t: Tree) -> bool
    decreases t,
{
    match t {
        Tree::Int(n) => n < 0,
        Tree::List(v) => forall|i: int| 0 <= i < v.len() ==> proper(#[trigger] v[i]),
        Tree::Object(es) => ascending(es) && forall|i: int|
            0 <= i < es.len() ==> proper((#[trigger] es[i]).1),
        _ => true,
    }
}

/// The entries with `key` set to `value`, in the order of the names.
pub open spec fn put_of(es: Seq<(Seq<char>, Tree)>, key: Seq<char>, value: Tree) -> Seq<
    (Seq<char>, Tree),
>
    decreases es.len(),
{
    if es.len() == 0 {
        seq![(key, value)]
    } else if es[0].0 == key {
        seq![(key, value)] + es.skip(1)
    } else if before(key, es[0].0) {
        seq![(key, value)] + es
    } else {
        seq![es[0]] + put_of(es.skip(1), key, value)
    }
}

/// The entries of an object made from `pairs`: of two pairs with one name the
/// later one counts.
pub open spec fn object_of(pairs: Seq<(Seq<char>, Tree)>) -> Seq<(Seq<char>, Tree)>
    decreases pairs.len(),
{
    if pairs.len() == 0 {
        Seq::empty()
    } else {
        put_of(object_of(pairs.drop_last()), pairs.last().0, pairs.last().1)
    }
}

pub proof fn lemma_before_total(a: Seq<char>, b: Seq<char>)
    requires
        a != b,
        !before(a, b),
    ensures
        before(b, a),
    decreases a.len(),
{
    if a.len() == 0 && b.len() == 0 {
        assert(a =~= b);
    } else if a.len() > 0 && b.len() > 0 && a[0] == b[0] {
        if a.skip(1) == b.skip(1) {
            assert(a =~= seq![a[0]] + a.skip(1));
            assert(b =~= seq![b[0]] + b.skip(1));
        }
        lemma_before_total(a.skip(1), b.skip(1));
    }
}

pub proof fn lemma_before_trans(a: Seq<char>, b: Seq<char>, c: Seq<char>)
    requires
        before(a, b),
        before(b, c),
    ensures
        before(a, c),
    decreases a.len(),
{
    if a.len() > 0 && a[0] == b[0] && b[0] == c[0] {
        lemma_before_trans(a.skip(1), b.skip(1), c.skip(1));
    }
}

pub proof fn lemma_before_irreflexive(a: Seq<char>)
    ensures
        !before(a, a),
    decreases a.len(),
{
    if a.len() > 0 {
        lemma_before_irreflexive(a.skip(1));
    }
}

pub proof fn lemma_put_members(
    es: Seq<(Seq<char>, Tree)>,
    key: Seq<char>,
    value: Tree,
)
    ensures
        forall|i: int|
            0 <= i < put_of(es, key, value).len() ==> {
                let e = #[trigger] put_of(es, key, value)[i];
                e == (key, value) || exists|j: int| 0 <= j < es.len() && es[j] == e
            },
    decreases es.len(),
{
    let r = put_of(es, key, value);
    if es.len() > 0 && es[0].0 != key && !before(key, es[0].0) {
        lemma_put_members(es.skip(1), key, value);
        assert forall|i: int| 0 <= i < r.len() implies {
            let e = #[trigger] r[i];
            e == (key, value) || exists|j: int| 0 <= j < es.len() && es[j] == e
        } by {
            if i > 0 {
                let e = put_of(es.skip(1), key, value)[i - 1];
                if e != (key, value) {
                    let j = choose|j: int| 0 <= j < es.skip(1).len() && es.skip(1)[j] == e;
                    assert(es[j + 1] == e);
                }
            } else {
                assert(r[0] == es[0]);
            }
        }
    } else if es.len() > 0 {
        assert forall|i: int| 0 <= i < r.len() implies {
            let e = #[trigger] r[i];
            e == (key, value) || exists|j: int| 0 <= j < es.len() && es[j] == e
        } by {
            if i > 0 {
                if es[0].0 == key {
                    assert(r[i] == es[i]);
                } else {
                    assert(r[i] == es[i - 1]);
                }
            }
        }
    }
}

/// To set a name keeps the names of an object in order.
pub proof fn put_keeps_order(es: Seq<(Seq<char>, Tree)>, key: Seq<char>, value: Tree)
    requires
        ascending(es),
    ensures
        ascending(put_of(es, key, value)),
    decreases es.len(),
{
    let r = put_of(es, key, value);
    if es.len() > 0 {
        assert(ascending(es.skip(1))) by {
            assert forall|i: int, j: int| 0 <= i < j < es.skip(1).len() implies before(
                #[trigger] es.skip(1)[i].0,
                #[trigger] es.skip(1)[j].0,
            ) by {
                assert(before(es[i + 1].0, es[j + 1].0));
            }
        }
        if es[0].0 == key {
            assert forall|i: int, j: int| 0 <= i < j < r.len() implies before(
                #[trigger] r[i].0,
                #[trigger] r[j].0,
            ) by {
                assert(r[i].0 == es[i].0 && r[j].0 == es[j].0);
            }
        } else if before(key, es[0].0) {
            assert forall|i: int, j: int| 0 <= i < j < r.len() implies before(
                #[trigger] r[i].0,
                #[trigger] r[j].0,
            ) by {
                assert(r[j] == es[j - 1]);
                if i > 0 {
                    assert(r[i] == es[i - 1]);
                } else if j > 1 {
                    assert(before(es[0].0, es[j - 1].0));
                    lemma_before_trans(key, es[0].0, es[j - 1].0);
                }
            }
        } else {
            lemma_before_total(key, es[0].0);
            put_keeps_order(es.skip(1), key, value);
            lemma_put_members(es.skip(1), key, value);
            let rest = put_of(es.skip(1), key, value);
            assert forall|i: int, j: int| 0 <= i < j < r.len() implies before(
                #[trigger] r[i].0,
                #[trigger] r[j].0,
            ) by {
                assert(r[j] == rest[j - 1]);
                if i > 0 {
                    assert(r[i] == rest[i - 1]);
                } else {
                    let e = rest[j - 1];
                    if e != (key, value) {
                        let k = choose|k: int| 0 <= k < es.skip(1).len() && es.skip(1)[k] == e;
                        assert(before(es[0].0, es[k + 1].0));
                    }
                }
            }
        }
    }
}

proof fn lemma_lookup_put(es: Seq<(Seq<char>, Tree)>, key: Seq<char>, value: Tree, other: Seq<char>)
    ensures
        lookup(put_of(es, key, value), other) == if other == key {
            Some(value)
        } else {
            lookup(es, other)
        },
    decreases es.len(),
{
    let r = put_of(es, key, value);
    if es.len() == 0 {
        assert(r.skip(1) =~= es);
    } else if es[0].0 == key {
        assert(r.skip(1) =~= es.skip(1));
    } else if before(key, es[0].0) {
        assert(r.skip(1) =~= es);
    } else {
        assert(r.skip(1) =~= put_of(es.skip(1), key, value));
        lemma_lookup_put(es.skip(1), key, value, other);
    }
}

/// What was set under a name is found under it, and what stands under any
/// other name is as it was.
pub proof fn put_then_lookup(
    es: Seq<(Seq<char>, Tree)>,
    key: Seq<char>,
    value: Tree,
    other: Seq<char>,
)
    ensures
        lookup(put_of(es, key, value), key) == Some(value),
        other != key ==> lookup(put_of(es, key, value), other) == lookup(es, other),
{
    lemma_lookup_put(es, key, value, key);
    lemma_lookup_put(es, key, value, other);
}

/// A field of an object made from pairs is the last of the pairs with its name.
pub proof fn last_pair_counts(pairs: Seq<(Seq<char>, Tree)>, key: Seq<char>, value: Tree, other: Seq<
    char,
>)
    ensures
        lookup(object_of(pairs.push((key, value))), other) == if other == key {
            Some(value)
        } else {
            lookup(object_of(pairs), other)
        },
        lookup(object_of(Seq::empty()), other) is None,
{
    assert(pairs.push((key, value)).drop_last() =~= pairs);
    put_then_lookup(object_of(pairs), key, value, other);
}

/// An object made from proper values is proper.
pub proof fn object_is_proper(pairs: Seq<(Seq<char>, Tree)>)
    requires
        forall|i: int| 0 <= i < pairs.len() ==> proper((#[trigger] pairs[i]).1),
    ensures
        proper(Tree::Object(object_of(pairs))),
    decreases pairs.len(),
{
    if pairs.len() > 0 {
        let init = pairs.drop_last();
        assert forall|i: int| 0 <= i < init.len() implies proper((#[trigger] init[i]).1) by {
            assert(init[i] == pairs[i]);
        }
        object_is_proper(init);
        put_is_proper(object_of(init), pairs.last().0, pairs.last().1);
    }
}

/// A proper object stays proper when a name is set to a proper value.
pub proof fn put_is_proper(es: Seq<(Seq<char>, Tree)>, key: Seq<char>, value: Tree)
    requires
        proper(Tree::Object(es)),
        proper(value),
    ensures
        proper(Tree::Object(put_of(es, key, value))),
{
    put_keeps_order(es, key, value);
    lemma_put_members(es, key, value);
    let r = put_of(es, key, value);
    assert forall|i: int| 0 <= i < r.len() implies proper((#[trigger] r[i]).1) by {
        let e = r[i];
        if e != (key, value) {
            let j = choose|j: int| 0 <= j < es.len() && es[j] == e;
            assert(proper(es[j].1));
        }
    }
}

/// Whether `a` comes before `b`.
pub fn comes_before(a: &[char], b: &[char]) -> (r: bool)
    ensures
        r == before(a@, b@),
{
    let mut i: usize = 0;
    assert(a@.skip(0) =~= a@ && b@.skip(0) =~= b@);
    while i < a.len() && i < b.len() && a[i] == b[i]
        invariant
            i <= a@.len(),
            i <= b@.len(),
            before(a@, b@) == before(a@.skip(i as int), b@.skip(i as int)),
        decreases a.len() - i,
    {
        assert(a@.skip(i as int).skip(1) =~= a@.skip(i + 1));
        assert(b@.skip(i as int).skip(1) =~= b@.skip(i + 1));
        i = i + 1;
    }
    if i == b.len() {
        false
    } else if i == a.len() {
        true
    } else {
        let x: char = a[i];
        let y: char = b[i];
        assert(a@.skip(i as int)[0] == x && b@.skip(i as int)[0] == y);
        x < y
    }
}

/// The entries of an object, as mathematical values.
pub open spec fn entries(es: Seq<(String, Json)>) -> Seq<(Seq<char>, Tree)> {
    es.map_values(|e: (String, Json)| (e.0@, e.1@))
}

pub proof fn lemma_entries(j: Json, es: Vec<(String, Json)>)
    requires
        j == Json::Object(es),
    ensures
        j@ == Tree::Object(entries(es@)),
{
    assert(j@->Object_0 =~= entries(es@));
}

/// Sets `key` to `value` among the entries of an object.
pub fn put(es: &mut Vec<(String, Json)>, key: String, value: Json)
    ensures
        entries(final(es)@) == put_of(entries(old(es)@), key@, value@),
{
    let name = chars_of(key.as_str());
    let ghost all = entries(es@);
    let ghost v = value@;
    let mut i: usize = 0;
    assert(all.skip(0) =~= all);
    assert(all.take(0) + put_of(all, key@, v) =~= put_of(all, key@, v));
    while i < es.len()
        invariant
            i <= es@.len(),
            name@ == key@,
            v == value@,
            *es == *old(es),
            all == entries(es@),
            put_of(all, key@, v) == all.take(i as int) + put_of(all.skip(i as int), key@, v),
        decreases es.len() - i,
    {
        let ghost rest = all.skip(i as int);
        assert(rest[0] == all[i as int]);
        assert(all[i as int] == (es@[i as int].0@, es@[i as int].1@));
        if same_str(es[i].0.as_str(), key.as_str()) {
            es.set(i, (key, value));
            assert(rest.skip(1) =~= all.skip(i + 1));
            assert(entries(es@) =~= all.take(i as int) + (seq![(key@, v)] + all.skip(i + 1)));
            return;
        }
        let other = chars_of(es[i].0.as_str());
        if comes_before(name.as_slice(), other.as_slice()) {
            es.insert(i, (key, value));
            assert(entries(es@) =~= all.take(i as int) + (seq![(key@, v)] + rest));
            return;
        }
        assert(rest.skip(1) =~= all.skip(i + 1));
        assert(all.take(i as int) + (seq![rest[0]] + put_of(rest.skip(1), key@, v))
            =~= all.take(i + 1) + put_of(all.skip(i + 1), key@, v));
        i = i + 1;
    }
    es.push((key, value));
    assert(entries(es@) =~= all.take(all.len() as int) + seq![(key@, v)]);
}

/// The object made from `pairs`.
pub fn object(pairs: Vec<(String, Json)>) -> (r: Json)
    ensures
        r@ == Tree::Object(object_of(entries(pairs@))),
        (forall|i: int| 0 <= i < pairs@.len() ==> proper((#[trigger] pairs@[i]).1@)) ==> proper(r@),
{
    let ghost all = entries(pairs@);
    proof {
        if forall|i: int| 0 <= i < pairs@.len() ==> proper((#[trigger] pairs@[i]).1@) {
            assert forall|i: int| 0 <= i < all.len() implies proper((#[trigger] all[i]).1) by {
                assert(proper(pairs@[i].1@));
            }
            object_is_proper(all);
        }
    }
    let mut es: Vec<(String, Json)> = Vec::new();
    assert(entries(es@) =~= object_of(all.take(0)));
    for pair in it: pairs
        invariant
            it.seq() == pairs@,
            all == entries(pairs@),
            entries(es@) == object_of(all.take(it.index() as int)),
    {
        let ghost k = it.index() as int;
        assert(all.take(k + 1).drop_last() =~= all.take(k));
        assert(all.take(k + 1).last() == (pairs@[k].0@, pairs@[k].1@));
        put(&mut es, pair.0, pair.1);
    }
    assert(all.take(all.len() as int) =~= all);
    let r = Json::Object(es);
    proof {
        lemma_entries(r, es);
    }
    r
}

// ---------------------------------------------------------------------------
// Reading and writing
// ---------------------------------------------------------------------------

/// A value of `serde_json`, which holds one JSON document.
#[verifier::external_type_specification]
#[verifier::external_body]
pub struct ExValue(serde_json::Value);

/// What a value of `serde_json` holds.
pub uninterp spec fn value_tree(v: serde_json::Value) -> Tree;

/// The JSON document that `serde_json::from_str` reads out of a text.
pub uninterp spec fn document_of(text: Seq<char>) -> Option<Tree>;

/// The text that `serde_json` writes for a document.
pub uninterp spec fn written_of(t: Tree) -> Seq<char>;

/// One level of a JSON value, over the values `V` inside it.
pub enum Shape<V> {
    Null,
    Bool(bool),
    UInt(u64),
    Int(i64),
    Float(serde_json::Number),
    Text(String),
    List(Vec<V>),
    Object(Vec<(String, V)>),
}

/// The document that one level stands for, when `inner` says what the values
/// inside it stand for.
pub open spec fn shape_tree<V>(s: Shape<V>, inner: spec_fn(V) -> Tree) -> Tree {
    match s {
        Shape::Null => Tree::Null,
        Shape::Bool(b) => Tree::Bool(b),
        Shape::UInt(n) => Tree::UInt(n),
        Shape::Int(n) => Tree::Int(n),
        Shape::Float(n) => number_tree(n),
        Shape::Text(t) => Tree::Text(t@),
        Shape::List(v) => Tree::List(Seq::new(v@.len(), |i: int| inner(v@[i]))),
        Shape::Object(v) => Tree::Object(
            Seq::new(v@.len(), |i: int| (v@[i].0@, inner(v@[i].1))),
        ),
    }
}

/// A document without numbers that are not whole.
pub open spec fn whole(t: Tree) -> bool
    decreases t,
{
    match t {
        Tree::Float(_) => false,
        Tree::List(v) => forall|i: int| 0 <= i < v.len() ==> whole(#[trigger] v[i]),
        Tree::Object(es) => forall|i: int| 0 <= i < es.len() ==> whole((#[trigger] es[i]).1),
        _ => true,
    }
}

/// Lists and objects inside `t` are nested at most `depth` deep.
pub open spec fn nested(t: Tree, depth: nat) -> bool
    decreases t,
{
    match t {
        Tree::List(v) => depth > 0 && forall|i: int|
            0 <= i < v.len() ==> nested(#[trigger] v[i], (depth - 1) as nat),
        Tree::Object(es) => depth > 0 && forall|i: int|
            0 <= i < es.len() ==> nested((#[trigger] es[i]).1, (depth - 1) as nat),
        _ => true,
    }
}

/// An object of whole values stays one when a name is set to a whole value, and
/// is nested no deeper than allowed.
pub proof fn put_is_whole(es: Seq<(Seq<char>, Tree)>, key: Seq<char>, value: Tree, depth: nat)
    requires
        depth > 0,
        whole(Tree::Object(es)),
        nested(Tree::Object(es), depth),
        whole(value),
        nested(value, (depth - 1) as nat),
    ensures
        whole(Tree::Object(put_of(es, key, value))),
        nested(Tree::Object(put_of(es, key, value)), depth),
{
    lemma_put_members(es, key, value);
    let r = put_of(es, key, value);
    match Tree::Object(es) {
        Tree::Object(w) => {
            assert forall|j: int| 0 <= j < w.len() implies whole((#[trigger] w[j]).1) && nested(
                w[j].1,
                (depth - 1) as nat,
            ) by {}
        },
        _ => {},
    }
    assert forall|i: int| 0 <= i < r.len() implies whole((#[trigger] r[i]).1) && nested(
        r[i].1,
        (depth - 1) as nat,
    ) by {
        let e = r[i];
        if e != (key, value) {
            let j = choose|j: int| 0 <= j < es.len() && es[j] == e;
            assert(whole(es[j].1) && nested(es[j].1, (depth - 1) as nat));
        }
    }
}

/// An object made from whole values is whole, and nested one level deeper than
/// they are.
pub proof fn object_is_whole(pairs: Seq<(Seq<char>, Tree)>, depth: nat)
    requires
        depth > 0,
        forall|i: int|
            0 <= i < pairs.len() ==> whole((#[trigger] pairs[i]).1) && nested(
                pairs[i].1,
                (depth - 1) as nat,
            ),
    ensures
        whole(Tree::Object(object_of(pairs))),
        nested(Tree::Object(object_of(pairs)), depth),
    decreases pairs.len(),
{
    if pairs.len() == 0 {
        let none = Tree::Object(object_of(pairs));
        assert(whole(none) && nested(none, depth));
    } else {
        let init = pairs.drop_last();
        assert forall|i: int| 0 <= i < init.len() implies whole((#[trigger] init[i]).1) && nested(
            init[i].1,
            (depth - 1) as nat,
        ) by {
            assert(init[i] == pairs[i]);
        }
        object_is_whole(init, depth);
        let last = pairs[pairs.len() - 1];
        put_is_whole(object_of(init), last.0, last.1, depth);
    }
}

/// `serde_json::from_str`: reads one JSON document, or nothing where the text
/// is none. What is read out of a given text is fixed and has the name
/// `document_of`.
#[verifier::external_body]
fn parse_value(text: &str) -> (r: Option<serde_json::Value>)
    ensures
        match r {
            Some(v) => document_of(text@) == Some(value_tree(v)),
            None => document_of(text@) is None,
        },
{
    serde_json::from_str(text).ok()
}

/// `Number::to_string`: prints a number. One that is not whole is known by what
/// it is printed as.
#[verifier::external_body]
fn print_number(n: &serde_json::Number) -> (r: String)
    ensures
        number_tree(*n) matches Tree::Float(t) ==> r@ == t,
{
    n.to_string()
}

/// `Number::clone`: the same number again.
#[verifier::external_body]
fn copy_number(n: &serde_json::Number) -> (r: serde_json::Number)
    ensures
        number_tree(r) == number_tree(*n),
{
    n.clone()
}

/// Takes one level of a `serde_json::Value` apart by its variants. A number is
/// whole where `Number::as_u64` or `as_i64` gives it, and any other is handed
/// out as it is. An object is walked in the order of its names, which ascend:
/// its map is a `BTreeMap`.
#[verifier::external_body]
fn open_value<'a>(v: &'a serde_json::Value) -> (r: Shape<&'a serde_json::Value>)
    ensures
        value_tree(*v) == shape_tree(r, |x: &'a serde_json::Value| value_tree(*x)),
        r matches Shape::Int(n) ==> n < 0,
        r matches Shape::Float(n) ==> number_tree(n) is Float,
        r matches Shape::Object(es) ==> forall|i: int, j: int|
            0 <= i < j < es@.len() ==> before(#[trigger] es@[i].0@, #[trigger] es@[j].0@),
{
    match v {
        serde_json::Value::Null => Shape::Null,
        serde_json::Value::Bool(b) => Shape::Bool(*b),
        serde_json::Value::Number(n) => match (n.as_u64(), n.as_i64()) {
            (Some(u), _) => Shape::UInt(u),
            (_, Some(i)) => Shape::Int(i),
            _ => Shape::Float(n.clone()),
        },
        serde_json::Value::String(s) => Shape::Text(s.clone()),
        serde_json::Value::Array(a) => Shape::List(a.iter().collect()),
        serde_json::Value::Object(m) => {
            Shape::Object(m.iter().map(|(k, x)| (k.clone(), x)).collect())
        }
    }
}

/// Builds one level of a `serde_json::Value` by the `From` conversions of its
/// variants. A number of `serde_json` is put in as it is.
#[verifier::external_body]
fn close_value(s: Shape<serde_json::Value>) -> (r: serde_json::Value)
    ensures
        match s {
            Shape::Int(n) => n < 0 ==> value_tree(r) == Tree::Int(n),
            Shape::Object(es) => (forall|i: int, j: int|
                0 <= i < j < es@.len() ==> before(#[trigger] es@[i].0@, #[trigger] es@[j].0@))
                ==> value_tree(r) == shape_tree(s, |x: serde_json::Value| value_tree(x)),
            _ => value_tree(r) == shape_tree(s, |x: serde_json::Value| value_tree(x)),
        },
{
    match s {
        Shape::Null => serde_json::Value::Null,
        Shape::Bool(b) => serde_json::Value::Bool(b),
        Shape::UInt(n) => serde_json::Value::from(n),
        Shape::Int(n) => serde_json::Value::from(n),
        Shape::Float(n) => serde_json::Value::Number(n),
        Shape::Text(t) => serde_json::Value::String(t),
        Shape::List(v) => serde_json::Value::Array(v),
        Shape::Object(m) => serde_json::Value::Object(m.into_iter().collect()),
    }
}

/// A text that is written as it is, in quotes.
pub open spec fn bare(s: Seq<char>) -> bool {
    forall|i: int| 0 <= i < s.len() ==> ' ' <= (#[trigger] s[i]) && s[i] != '"' && s[i] != '\\'
}

/// What a value that holds no other is written as; nothing of a text with
/// escapes.
pub open spec fn scalar_text(t: Tree) -> Option<Seq<char>> {
    match t {
        Tree::Null => Some("null"@),
        Tree::Bool(true) => Some("true"@),
        Tree::Bool(false) => Some("false"@),
        Tree::UInt(n) => Some(text::decimal_of(n as nat)),
        Tree::Int(n) => Some(text::decimal_int_of(n as int)),
        Tree::Float(s) => Some(s),
        Tree::Text(s) if bare(s) => Some("\""@ + s + "\""@),
        _ => None,
    }
}

/// What the entries of an object are written as, where none of them holds
/// others.
pub open spec fn entries_text(es: Seq<(Seq<char>, Tree)>) -> Option<Seq<char>>
    decreases es.len(),
{
    if es.len() == 0 {
        Some(Seq::empty())
    } else {
        match (entries_text(es.drop_last()), scalar_text(es.last().1)) {
            (Some(before), Some(value)) if bare(es.last().0) => Some(
                before + (if es.len() == 1 {
                    "\""@
                } else {
                    ",\""@
                }) + es.last().0 + "\":"@ + value,
            ),
            _ => None,
        }
    }
}

/// What a document of one level is written as; nothing of one that is nested,
/// or has escapes.
pub open spec fn plain_text(t: Tree) -> Option<Seq<char>> {
    match t {
        Tree::Object(es) => match entries_text(es) {
            Some(s) => Some("{"@ + s + "}"@),
            None => None,
        },
        _ => scalar_text(t),
    }
}

/// `Value::to_string`: writes a document without spaces. The text of a given
/// document is fixed and has the name `written_of`; where the document is of one
/// level and has no escapes it is stated. Reading it back gives the document
/// again where it has no number that is not whole and is not nested deeper than
/// the reader goes.
#[verifier::external_body]
fn write_value(v: &serde_json::Value) -> (r: String)
    ensures
        r@ == written_of(value_tree(*v)),
        plain_text(value_tree(*v)) matches Some(s) ==> r@ == s,
        whole(value_tree(*v)) && proper(value_tree(*v)) && nested(value_tree(*v), 100)
            ==> document_of(r@) == Some(value_tree(*v)),
{
    v.to_string()
}

/// The document in a value of `serde_json`.
pub fn from_value(v: &serde_json::Value) -> (r: Json)
    ensures
        r@ == value_tree(*v),
        proper(r@),
    decreases value_tree(*v),
{
    match open_value(v) {
        Shape::Null => Json::Null,
        Shape::Bool(b) => Json::Bool(b),
        Shape::UInt(n) => Json::UInt(n),
        Shape::Int(n) => Json::Int(n),
        Shape::Float(n) => Json::Float(Fraction { number: n }),
        Shape::Text(t) => Json::Text(t),
        Shape::List(xs) => {
            let ghost inner = value_tree(*v)->List_0;
            let mut out: Vec<Json> = Vec::new();
            let mut i: usize = 0;
            while i < xs.len()
                invariant
                    i <= xs@.len(),
                    value_tree(*v) == Tree::List(inner),
                    inner.len() == xs@.len(),
                    forall|k: int| 0 <= k < xs@.len() ==> #[trigger] inner[k] == value_tree(*xs@[k]),
                    out@.len() == i,
                    forall|k: int|
                        0 <= k < i ==> (#[trigger] out@[k])@ == inner[k] && proper(out@[k]@),
                decreases xs.len() - i,
            {
                assert(inner[i as int] == value_tree(*xs@[i as int]));
                assert(decreases_to!(value_tree(*v) => value_tree(*v)->List_0[i as int]));
                out.push(from_value(xs[i]));
                i = i + 1;
            }
            let r = Json::List(out);
            assert(r@->List_0 =~= inner);
            assert forall|k: int| 0 <= k < inner.len() implies proper(#[trigger] inner[k]) by {
                assert(out@[k]@ == inner[k]);
            }
            r
        },
        Shape::Object(xs) => {
            let ghost inner = value_tree(*v)->Object_0;
            let mut out: Vec<(String, Json)> = Vec::new();
            let mut i: usize = 0;
            while i < xs.len()
                invariant
                    i <= xs@.len(),
                    value_tree(*v) == Tree::Object(inner),
                    inner.len() == xs@.len(),
                    forall|k: int|
                        0 <= k < xs@.len() ==> #[trigger] inner[k] == (
                            xs@[k].0@,
                            value_tree(*xs@[k].1),
                        ),
                    out@.len() == i,
                    forall|k: int|
                        0 <= k < i ==> ((#[trigger] out@[k]).0@, out@[k].1@) == inner[k] && proper(
                            out@[k].1@,
                        ),
                decreases xs.len() - i,
            {
                assert(inner[i as int].1 == value_tree(*xs@[i as int].1));
                assert(decreases_to!(value_tree(*v) => value_tree(*v)->Object_0[i as int].1));
                let inside = from_value(xs[i].1);
                out.push((xs[i].0.clone(), inside));
                i = i + 1;
            }
            let r = Json::Object(out);
            assert(r@->Object_0 =~= inner);
            assert forall|k: int| 0 <= k < inner.len() implies proper(
                (#[trigger] inner[k]).1,
            ) by {
                assert(out@[k].1@ == inner[k].1);
            }
            assert(ascending(inner)) by {
                assert forall|a: int, b: int| 0 <= a < b < inner.len() implies before(
                    #[trigger] inner[a].0,
                    #[trigger] inner[b].0,
                ) by {
                    assert(before(xs@[a].0@, xs@[b].0@));
                }
            }
            r
        },
    }
}

proof fn lemma_proper_item(v: Seq<Tree>, i: int)
    requires
        proper(Tree::List(v)),
        0 <= i < v.len(),
    ensures
        proper(v[i]),
{
    let t = Tree::List(v);
    assert(t->List_0 == v);
    assert(proper(t));
    match t {
        Tree::List(w) => {
            assert(w == v);
            assert(forall|k: int| 0 <= k < w.len() ==> proper(#[trigger] w[k]));
        },
        _ => {},
    }
}

fn to_value(j: &Json) -> (r: serde_json::Value)
    requires
        proper(j@),
    ensures
        value_tree(r) == j@,
    decreases j,
{
    match j {
        Json::Null => close_value(Shape::Null),
        Json::Bool(b) => close_value(Shape::Bool(*b)),
        Json::UInt(n) => close_value(Shape::UInt(*n)),
        Json::Int(n) => close_value(Shape::Int(*n)),
        Json::Float(f) => {
            proof {
                use_type_invariant(f);
            }
            close_value(Shape::Float(copy_number(&f.number)))
        },
        Json::Text(t) => close_value(Shape::Text(t.clone())),
        Json::List(v) => {
            let ghost t = j@->List_0;
            let mut out: Vec<serde_json::Value> = Vec::new();
            let mut i: usize = 0;
            while i < v.len()
                invariant
                    i <= v@.len(),
                    *j == Json::List(*v),
                    j@ == Tree::List(t),
                    proper(j@),
                    t.len() == v@.len(),
                    forall|k: int| 0 <= k < v@.len() ==> #[trigger] t[k] == v@[k]@,
                    out@.len() == i,
                    forall|k: int| 0 <= k < i ==> value_tree(#[trigger] out@[k]) == t[k],
                decreases v.len() - i,
            {
                assert(t[i as int] == v@[i as int]@);
                proof {
                    lemma_proper_item(t, i as int);
                }
                assert(decreases_to!(*j => v@[i as int]));
                out.push(to_value(&v[i]));
                i = i + 1;
            }
            let r = close_value(Shape::List(out));
            assert(value_tree(r)->List_0 =~= j@->List_0);
            r
        },
        Json::Object(v) => {
            let ghost t = j@->Object_0;
            let mut out: Vec<(String, serde_json::Value)> = Vec::new();
            let mut i: usize = 0;
            while i < v.len()
                invariant
                    i <= v@.len(),
                    *j == Json::Object(*v),
                    j@ == Tree::Object(t),
                    proper(j@),
                    t.len() == v@.len(),
                    forall|k: int| 0 <= k < v@.len() ==> #[trigger] t[k] == (v@[k].0@, v@[k].1@),
                    out@.len() == i,
                    forall|k: int|
                        0 <= k < i ==> (#[trigger] out@[k]).0@ == t[k].0 && value_tree(out@[k].1)
                            == t[k].1,
                decreases v.len() - i,
            {
                assert(t[i as int] == (v@[i as int].0@, v@[i as int].1@) && proper(t[i as int].1));
                assert(decreases_to!(*j => v@[i as int].1));
                let inside = to_value(&v[i].1);
                out.push((v[i].0.clone(), inside));
                i = i + 1;
            }
            assert forall|a: int, b: int| 0 <= a < b < out@.len() implies before(
                #[trigger] out@[a].0@,
                #[trigger] out@[b].0@,
            ) by {
                assert(before(t[a].0, t[b].0));
            }
            let r = close_value(Shape::Object(out));
            assert(value_tree(r)->Object_0 =~= j@->Object_0);
            r
        },
    }
}

/// Reads one JSON document out of a text.
pub fn read(text: &str) -> (r: Option<Json>)
    ensures
        match r {
            Some(j) => document_of(text@) == Some(j@) && proper(j@),
            None => document_of(text@) is None,
        },
{
    match parse_value(text) {
        Some(v) => Some(from_value(&v)),
        None => None,
    }
}

/// Writes a JSON document. Where it has whole numbers only, and is not nested
/// too deep, reading the text gives the document back.
pub fn write(j: &Json) -> (r: String)
    requires
        proper(j@),
    ensures
        r@ == written_of(j@),
        plain_text(j@) matches Some(s) ==> r@ == s,
        whole(j@) && nested(j@, 100) ==> document_of(r@) == Some(j@),
{
    let v = to_value(j);
    write_value(&v)
}

} // verus!
