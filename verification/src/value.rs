//! The runtime value model: the tagged value union, the string-keyed
//! binding maps that back struct values and environments, and value
//! equality as the language defines it.
use vstd::prelude::*;

use crate::interpreter::emodel;
use crate::interpreter::ErrModel;
use crate::interpreter::MolangError;

verus! {

use vstd::assert_by_contradiction;

broadcast use
    vstd::std_specs::vec::axiom_vec_index_decreases,
    vstd::seq::axiom_seq_index_decreases,
    vstd::map::axiom_map_index_decreases_finite;

/// Mathematical model of a runtime value. A struct value is modelled as a
/// mathematical map, so the order in which its fields were inserted is
/// irrelevant to every contract stated over the model.
pub ghost enum ValueModel {
    Number(i64),
    Struct(Map<Seq<char>, ValueModel>),
    Function(u64),
    External(u64),
    Null,
}

/// A string-keyed mapping from names to values, kept as a vector of
/// entries with pairwise distinct keys. It backs struct values as well as
/// the constants and variables environments.
#[derive(Debug, PartialEq)]
pub struct Bindings {
    pub entries: Vec<(String, Value)>,
}

/// A runtime value: a number, a string-keyed struct, a handle to a
/// host-supplied callable, a handle to a host-owned external object, or
/// the null value. Function and external values are handles interpreted
/// by the host, so two copies of a handle alias one underlying object.
#[derive(Debug, PartialEq)]
pub enum Value {
    Number(i64),
    Struct(Bindings),
    Function(u64),
    External(u64),
    Null,
}

/// Model of the first `n` entries: later entries override earlier ones,
/// which collapses to plain map union when the keys are distinct.
pub open spec fn entries_model(v: Vec<(String, Value)>, n: int) -> Map<Seq<char>, ValueModel>
    decreases v, n,
{
    if n <= 0 || n > v@.len() {
        Map::empty()
    } else {
        entries_model(v, n - 1).insert(v@[n - 1].0@, vmodel(v@[n - 1].1))
    }
}

/// The model of a runtime value.
pub open spec fn vmodel(v: Value) -> ValueModel
    decreases v,
{
    match v {
        Value::Number(n) => ValueModel::Number(n),
        Value::Struct(b) => ValueModel::Struct(entries_model(b.entries, b.entries@.len() as int)),
        Value::Function(id) => ValueModel::Function(id),
        Value::External(id) => ValueModel::External(id),
        Value::Null => ValueModel::Null,
    }
}

impl View for Bindings {
    type V = Map<Seq<char>, ValueModel>;

    open spec fn view(&self) -> Map<Seq<char>, ValueModel> {
        entries_model(self.entries, self.entries@.len() as int)
    }
}

/// Well-formedness of a binding map: keys are pairwise distinct and every
/// value is itself well formed.
pub open spec fn bwf(b: Bindings) -> bool
    decreases b,
{
    &&& forall|i: int, j: int|
        0 <= i < j < b.entries@.len() ==> b.entries@[i].0@ != b.entries@[j].0@
    &&& forall|i: int|
        0 <= i < b.entries@.len() ==> vwf(#[trigger] b.entries@[i].1)
}

/// Well-formedness of a value: every struct reachable inside it is well
/// formed.
pub open spec fn vwf(v: Value) -> bool
    decreases v,
{
    match v {
        Value::Struct(b) => bwf(b),
        _ => true,
    }
}

impl Bindings {
    /// The empty binding map.
    pub fn new() -> (r: Bindings)
        ensures
            r@ == Map::<Seq<char>, ValueModel>::empty(),
            bwf(r),
            r.entries@.len() == 0,
    {
        Bindings { entries: Vec::new() }
    }

    /// The index of the entry carrying `name`, if one exists.
    pub fn find_index(&self, name: &String) -> (r: Option<usize>)
        ensures
            match r {
                Some(i) => i < self.entries@.len() && self.entries@[i as int].0@ == name@,
                None => forall|i: int|
                    0 <= i < self.entries@.len() ==> self.entries@[i].0@ != name@,
            },
    {
        let mut i: usize = 0;
        while i < self.entries.len()
            invariant
                i <= self.entries@.len(),
                forall|j: int| 0 <= j < i ==> self.entries@[j].0@ != name@,
            decreases self.entries@.len() - i,
        {
            if self.entries[i].0.eq(name) {
                return Some(i);
            }
            i = i + 1;
        }
        None
    }

    /// Binds `name` to `value`, replacing any existing binding of that name.
    /// The claims hold of every well-formed map; on one that is not, the
    /// call still replaces or appends the entry, promising nothing.
    pub fn insert(&mut self, name: String, value: Value)
        ensures
            bwf(*old(self)) && vwf(value) ==> bwf(*final(self)),
            bwf(*old(self)) ==> final(self)@ == old(self)@.insert(name@, vmodel(value)),
    {
        let ghost old_vec = self.entries;
        match self.find_index(&name) {
            Some(i) => {
                self.entries.set(i, (name, value));
                proof {
                    if bwf(Bindings { entries: old_vec }) {
                        lemma_entries_model_update(
                            old_vec,
                            self.entries,
                            i as int,
                            self.entries@.len() as int,
                        );
                    }
                }
            },
            None => {
                self.entries.push((name, value));
                proof {
                    lemma_entries_model_congruence(old_vec, self.entries, old_vec@.len() as int);
                }
            },
        }
    }

    /// The value bound to `name`, if any. The claims hold of every
    /// well-formed map; on one that is not, the call still finds the
    /// first entry of that name, promising nothing.
    pub fn get(&self, name: &String) -> (r: Option<&Value>)
        ensures
            bwf(*self) ==> match r {
                Some(v) => self@.contains_key(name@) && vmodel(*v) == self@[name@] && vwf(*v),
                None => !self@.contains_key(name@),
            },
    {
        proof {
            if bwf(*self) {
                lemma_bindings_ops(*self);
            }
        }
        match self.find_index(name) {
            Some(i) => Some(&self.entries[i].1),
            None => None,
        }
    }
}

/// Characterises the model of the first `n` entries of a key-distinct
/// entry vector: a key is present exactly when some entry carries it, and
/// it maps to that entry's value.
pub proof fn lemma_entries_model_keys(v: Vec<(String, Value)>, n: int)
    requires
        0 <= n <= v@.len(),
        forall|i: int, j: int| 0 <= i < j < v@.len() ==> v@[i].0@ != v@[j].0@,
    ensures
        forall|k: Seq<char>|
            entries_model(v, n).contains_key(k) <==> (exists|i: int|
                0 <= i < n && #[trigger] v@[i].0@ == k),
        forall|i: int|
            0 <= i < n ==> entries_model(v, n).contains_key(#[trigger] v@[i].0@)
                && entries_model(v, n)[v@[i].0@] == vmodel(v@[i].1),
        entries_model(v, n).dom().finite(),
        entries_model(v, n).dom().len() == n,
    decreases n,
{
    if n > 0 {
        lemma_entries_model_keys(v, n - 1);
        assert(entries_model(v, n).dom() =~= entries_model(v, n - 1).dom().insert(v@[n - 1].0@));
    }
}

/// The standard facts about a well-formed binding map as a whole.
pub proof fn lemma_bindings_ops(b: Bindings)
    requires
        forall|i: int, j: int|
            0 <= i < j < b.entries@.len() ==> b.entries@[i].0@ != b.entries@[j].0@,
    ensures
        forall|k: Seq<char>|
            b@.contains_key(k) <==> (exists|i: int|
                0 <= i < b.entries@.len() && #[trigger] b.entries@[i].0@ == k),
        forall|i: int|
            0 <= i < b.entries@.len() ==> b@.contains_key(#[trigger] b.entries@[i].0@)
                && b@[b.entries@[i].0@] == vmodel(b.entries@[i].1),
        b@.dom().finite(),
        b@.dom().len() == b.entries@.len(),
{
    lemma_entries_model_keys(b.entries, b.entries@.len() as int);
}

/// Two entry vectors that agree on their first `n` entries have the same
/// model of those entries.
pub proof fn lemma_entries_model_congruence(a: Vec<(String, Value)>, b: Vec<(String, Value)>, n: int)
    requires
        n <= a@.len(),
        n <= b@.len(),
        forall|j: int|
            0 <= j < n ==> (#[trigger] a@[j]).0@ == b@[j].0@ && vmodel(a@[j].1) == vmodel(b@[j].1),
    ensures
        entries_model(a, n) == entries_model(b, n),
    decreases n,
{
    if n > 0 {
        lemma_entries_model_congruence(a, b, n - 1);
    }
}

/// Replacing the entry at `i` by one with the same key updates exactly
/// that key's binding in the model.
pub proof fn lemma_entries_model_update(
    old_v: Vec<(String, Value)>,
    new_v: Vec<(String, Value)>,
    i: int,
    n: int,
)
    requires
        old_v@.len() == new_v@.len(),
        0 <= i < n <= new_v@.len(),
        forall|j: int| 0 <= j < new_v@.len() && j != i ==> new_v@[j] == old_v@[j],
        new_v@[i].0@ == old_v@[i].0@,
        forall|p: int, q: int| 0 <= p < q < old_v@.len() ==> old_v@[p].0@ != old_v@[q].0@,
    ensures
        entries_model(new_v, n) == entries_model(old_v, n).insert(
            new_v@[i].0@,
            vmodel(new_v@[i].1),
        ),
    decreases n,
{
    if n - 1 == i {
        lemma_entries_model_congruence(old_v, new_v, i);
        assert(entries_model(new_v, n) =~= entries_model(old_v, n).insert(
            new_v@[i].0@,
            vmodel(new_v@[i].1),
        ));
    } else {
        lemma_entries_model_update(old_v, new_v, i, n - 1);
        assert(entries_model(new_v, n) =~= entries_model(old_v, n).insert(
            new_v@[i].0@,
            vmodel(new_v@[i].1),
        ));
    }
}

/// The short name of a value's kind, as it appears in error descriptions.
pub open spec fn kind_model(v: ValueModel) -> Seq<char> {
    match v {
        ValueModel::Number(_) => "Number"@,
        ValueModel::Struct(_) => "Struct"@,
        ValueModel::Function(_) => "Function"@,
        ValueModel::External(_) => "External"@,
        ValueModel::Null => "Null"@,
    }
}

/// Equality of two values at the model level, as the language defines
/// it: numbers by value, functions by handle identity, structs by key
/// set and pointwise equality of the bound values, null only to null,
/// and every mismatched pair of kinds unequal. Comparing two external
/// handles is decided by the host, so its outcome is not modelled:
/// `None` stands for every comparison the host takes part in.
pub open spec fn val_eq(a: ValueModel, b: ValueModel) -> Option<bool>
    decreases a,
{
    match (a, b) {
        (ValueModel::Number(x), ValueModel::Number(y)) => Some(x == y),
        (ValueModel::Function(x), ValueModel::Function(y)) => Some(x == y),
        (ValueModel::Null, ValueModel::Null) => Some(true),
        (ValueModel::External(_), ValueModel::External(_)) => None,
        (ValueModel::Struct(m1), ValueModel::Struct(m2)) => {
            if !m1.dom().finite() {
                None
            } else if m1.dom() != m2.dom() {
                Some(false)
            } else if exists|k: Seq<char>|
                #[trigger] m1.dom().contains(k) && val_eq(m1[k], m2[k]) is None {
                None
            } else {
                Some(forall|k: Seq<char>|
                    #[trigger] m1.dom().contains(k) ==> val_eq(m1[k], m2[k]) == Some(true))
            }
        },
        _ => Some(false),
    }
}

impl Value {
    /// Equality as the language defines it. Struct values are compared by
    /// key set and pointwise value equality, so the order their fields
    /// were inserted in does not matter; comparing two external handles
    /// is delegated to the host.
    pub fn molang_eq<E: External>(&self, rhs: &Value, host: &E) -> (r: bool)
        ensures
            vwf(*self) && vwf(*rhs) ==> (val_eq(vmodel(*self), vmodel(*rhs)) matches Some(b)
                ==> r == b),
        decreases self,
    {
        match (self, rhs) {
            (Value::Number(a), Value::Number(b)) => *a == *b,
            (Value::Function(a), Value::Function(b)) => *a == *b,
            (Value::Null, Value::Null) => true,
            (Value::External(a), Value::External(_)) => host.molang_eq(*a, rhs),
            (Value::Struct(a), Value::Struct(b)) => struct_eq(a, b, host),
            _ => false,
        }
    }

    /// A deep copy: the copy has the same model as the original.
    pub fn duplicate(&self) -> (r: Value)
        ensures
            vmodel(r) == vmodel(*self),
            vwf(*self) ==> vwf(r),
        decreases self,
    {
        match self {
            Value::Number(n) => Value::Number(*n),
            Value::Function(id) => Value::Function(*id),
            Value::External(id) => Value::External(*id),
            Value::Null => Value::Null,
            Value::Struct(b) => Value::Struct(b.duplicate()),
        }
    }

    /// The short name of this value's kind, for error descriptions.
    pub fn kind_str(&self) -> (r: String)
        ensures
            r@ == kind_model(vmodel(*self)),
    {
        match self {
            Value::Number(_) => "Number".to_owned(),
            Value::Struct(_) => "Struct".to_owned(),
            Value::Function(_) => "Function".to_owned(),
            Value::External(_) => "External".to_owned(),
            Value::Null => "Null".to_owned(),
        }
    }
}

impl Clone for Value {
    /// A deep copy: the copy has the same model as the original.
    fn clone(&self) -> (r: Value)
        ensures
            vmodel(r) == vmodel(*self),
            vwf(*self) ==> vwf(r),
    {
        self.duplicate()
    }
}

impl Clone for Bindings {
    /// A deep copy: the copy has the same model as the original.
    fn clone(&self) -> (r: Bindings)
        ensures
            r@ == self@,
            bwf(*self) ==> bwf(r),
    {
        self.duplicate()
    }
}

/// Structural equality of two struct bodies under the language's value
/// equality.
fn struct_eq<E: External>(a: &Bindings, b: &Bindings, host: &E) -> (r: bool)
    ensures
        bwf(*a) && bwf(*b) ==> (val_eq(vmodel(Value::Struct(*a)), vmodel(Value::Struct(*b)))
            matches Some(res) ==> r == res),
    decreases a,
{
    let ghost ma = a@;
    let ghost mb = b@;
    proof {
        if bwf(*a) {
            lemma_bindings_ops(*a);
        }
        if bwf(*b) {
            lemma_bindings_ops(*b);
        }
    }
    if a.entries.len() != b.entries.len() {
        return false;
    }
    let mut i: usize = 0;
    while i < a.entries.len()
        invariant
            i <= a.entries@.len(),
            a.entries@.len() == b.entries@.len(),
            ma == a@,
            mb == b@,
            bwf(*a) && bwf(*b) ==> forall|j: int|
                0 <= j < i ==> mb.contains_key((#[trigger] a.entries@[j]).0@)
                    && val_eq(vmodel(a.entries@[j].1), mb[a.entries@[j].0@]) != Some(false),
        decreases a.entries@.len() - i,
    {
        proof {
            if bwf(*a) {
                lemma_bindings_ops(*a);
            }
            if bwf(*b) {
                lemma_bindings_ops(*b);
            }
        }
        match b.find_index(&a.entries[i].0) {
            None => {
                return false;
            },
            Some(j) => {
                if !a.entries[i].1.molang_eq(&b.entries[j].1, host) {
                    return false;
                }
            },
        }
        i = i + 1;
    }
    proof {
        if bwf(*a) && bwf(*b) {
            lemma_bindings_ops(*a);
            lemma_bindings_ops(*b);
            match val_eq(ValueModel::Struct(ma), ValueModel::Struct(mb)) {
                Some(res) => {
                    assert forall|k: Seq<char>| ma.dom().contains(k) implies mb.dom().contains(
                        k,
                    ) && val_eq(ma[k], mb[k]) != Some(false) by {
                        let idx = choose|idx: int|
                            0 <= idx < a.entries@.len() && a.entries@[idx].0@ == k;
                        assert(mb.contains_key(a.entries@[idx].0@));
                    }
                    assert_by_contradiction!(mb.dom().subset_of(ma.dom()), {
                        let elt = choose|e: Seq<char>|
                            mb.dom().contains(e) && !ma.dom().contains(e);
                        ma.dom().lemma_subset_not_in_lt(mb.dom(), elt);
                    });
                    assert(ma.dom() =~= mb.dom());
                    assert forall|k: Seq<char>| ma.dom().contains(k) implies val_eq(
                        ma[k],
                        mb[k],
                    ) == Some(true) by {
                        assert(!(val_eq(ValueModel::Struct(ma), ValueModel::Struct(mb)) is None));
                        assert(!(val_eq(ma[k], mb[k]) is None));
                    }
                    assert(res == true);
                },
                None => {},
            }
        }
    }
    true
}

impl Bindings {
    /// A deep copy: the copy has the same model as the original.
    pub fn duplicate(&self) -> (r: Bindings)
        ensures
            r@ == self@,
            bwf(*self) ==> bwf(r),
        decreases self,
    {
        let mut out: Vec<(String, Value)> = Vec::new();
        let mut i: usize = 0;
        while i < self.entries.len()
            invariant
                i <= self.entries@.len(),
                out@.len() == i,
                forall|j: int|
                    0 <= j < i ==> (#[trigger] out@[j]).0@ == self.entries@[j].0@
                        && vmodel(out@[j].1) == vmodel(self.entries@[j].1)
                        && (vwf(self.entries@[j].1) ==> vwf(out@[j].1)),
            decreases self.entries@.len() - i,
        {
            let k = self.entries[i].0.clone();
            let v = self.entries[i].1.duplicate();
            out.push((k, v));
            i = i + 1;
        }
        let r = Bindings { entries: out };
        proof {
            lemma_entries_model_congruence(r.entries, self.entries, self.entries@.len() as int);
        }
        r
    }
}

/// The capability interface for host-owned objects and host-supplied
/// callables. The engine refers to such objects by numeric handles; the
/// host interprets the handles, so two copies of a handle share one
/// underlying object and mutation through either copy is visible through
/// both. Nothing is assumed about any of these operations: every claim
/// the evaluator makes is conditional on the evaluation never reaching
/// the host.
pub trait External {
    /// The value of a named property; a missing property is `Null`.
    fn get(&mut self, obj: u64, property: &str) -> Value;

    /// Stores a value into a named property.
    fn set(&mut self, obj: u64, property: &str, value: Value) -> Result<(), MolangError>;

    /// Invokes a named method of the object.
    fn call_function(&mut self, obj: u64, function: &str, args: Vec<Value>) -> Result<
        Value,
        MolangError,
    >;

    /// The value at an index of the object.
    fn index_get(&mut self, obj: u64, index: Value) -> Result<Value, MolangError>;

    /// Stores a value at an index of the object.
    fn index_set(&mut self, obj: u64, index: Value, value: Value) -> Result<(), MolangError>;

    /// The object's own equality rule against another value.
    fn molang_eq(&self, obj: u64, rhs: &Value) -> bool;

    /// Invokes a host-supplied callable, the referent of a function value.
    fn call(&mut self, function: u64, args: Vec<Value>) -> Result<Value, MolangError>;
}

/// A host with no external objects and no callables: every handle is
/// dangling, so every operation on one fails or yields nothing.
pub struct NoExternals;

impl External for NoExternals {
    fn get(&mut self, obj: u64, property: &str) -> Value {
        Value::Null
    }

    fn set(&mut self, obj: u64, property: &str, value: Value) -> Result<(), MolangError> {
        Err(MolangError::NotAssignable(property.to_owned()))
    }

    fn call_function(&mut self, obj: u64, function: &str, args: Vec<Value>) -> Result<
        Value,
        MolangError,
    > {
        Err(MolangError::FunctionNotFound(function.to_owned()))
    }

    fn index_get(&mut self, obj: u64, index: Value) -> Result<Value, MolangError> {
        Err(MolangError::BadAccess("[]".to_owned(), "External".to_owned()))
    }

    fn index_set(&mut self, obj: u64, index: Value, value: Value) -> Result<(), MolangError> {
        Err(MolangError::BadAccess("[]".to_owned(), "External".to_owned()))
    }

    fn molang_eq(&self, obj: u64, rhs: &Value) -> bool {
        false
    }

    fn call(&mut self, function: u64, args: Vec<Value>) -> Result<Value, MolangError> {
        Err(MolangError::FunctionNotFound("function".to_owned()))
    }
}

/// Conversion of a host value into a runtime value, so host data can be
/// bound among the constants and variables a script sees.
pub trait ToMolangValue {
    /// This value, as a runtime value.
    fn to_value(self) -> Value;
}

/// Conversion of a runtime value back into a host value, failing with a
/// type error where the shapes do not line up.
pub trait FromMolangValue: Sized {
    /// The host value a runtime value stands for, if it fits.
    fn from_value(v: Value) -> Result<Self, MolangError>;
}

impl ToMolangValue for Value {
    fn to_value(self) -> (r: Value)
        ensures
            r == self,
    {
        self
    }
}

impl FromMolangValue for Value {
    fn from_value(v: Value) -> (r: Result<Value, MolangError>)
        ensures
            r == Ok::<Value, MolangError>(v),
    {
        Ok(v)
    }
}

impl ToMolangValue for i64 {
    fn to_value(self) -> (r: Value)
        ensures
            r == Value::Number(self),
    {
        Value::Number(self)
    }
}

impl FromMolangValue for i64 {
    fn from_value(v: Value) -> (r: Result<i64, MolangError>)
        ensures
            match r {
                Ok(n) => v == Value::Number(n),
                Err(e) => !(v is Number) && emodel(e) == ErrModel::TypeError(
                    "Number"@,
                    kind_model(vmodel(v)),
                ),
            },
    {
        match v {
            Value::Number(n) => Ok(n),
            a => {
                let d = a.kind_str();
                Err(MolangError::TypeError("Number".to_owned(), d))
            },
        }
    }
}

impl ToMolangValue for Bindings {
    fn to_value(self) -> (r: Value)
        ensures
            r == Value::Struct(self),
    {
        Value::Struct(self)
    }
}

impl<T: ToMolangValue> ToMolangValue for Option<T> {
    fn to_value(self) -> (r: Value)
        ensures
            self is None ==> r == Value::Null,
    {
        match self {
            Some(s) => s.to_value(),
            None => Value::Null,
        }
    }
}

impl<T: FromMolangValue> FromMolangValue for Option<T> {
    fn from_value(v: Value) -> (r: Result<Option<T>, MolangError>)
        ensures
            v == Value::Null ==> r == Ok::<Option<T>, MolangError>(None),
    {
        match v {
            Value::Null => Ok(None),
            a => match T::from_value(a) {
                Ok(t) => Ok(Some(t)),
                Err(e) => Err(e),
            },
        }
    }
}

/// The alias table: short names a script may use for canonical variable
/// names, substituted once when the root of an access chain is resolved.
#[derive(Debug, PartialEq)]
pub struct Aliases {
    pub entries: Vec<(String, String)>,
}

/// Model of the first `n` alias entries: later entries override earlier
/// ones.
pub open spec fn alias_model(v: Seq<(String, String)>, n: int) -> Map<Seq<char>, Seq<char>>
    decreases n,
{
    if n <= 0 || n > v.len() {
        Map::empty()
    } else {
        alias_model(v, n - 1).insert(v[n - 1].0@, v[n - 1].1@)
    }
}

impl View for Aliases {
    type V = Map<Seq<char>, Seq<char>>;

    open spec fn view(&self) -> Map<Seq<char>, Seq<char>> {
        alias_model(self.entries@, self.entries@.len() as int)
    }
}

/// Well-formedness of the alias table: alias names are pairwise distinct.
pub open spec fn awf(a: Aliases) -> bool {
    forall|i: int, j: int|
        0 <= i < j < a.entries@.len() ==> a.entries@[i].0@ != a.entries@[j].0@
}

/// Characterises the alias model: an alias is present exactly when some
/// entry carries it, and it maps to that entry's canonical name.
pub proof fn lemma_alias_model_keys(v: Seq<(String, String)>, n: int)
    requires
        0 <= n <= v.len(),
        forall|i: int, j: int| 0 <= i < j < v.len() ==> v[i].0@ != v[j].0@,
    ensures
        forall|k: Seq<char>|
            alias_model(v, n).contains_key(k) <==> (exists|i: int|
                0 <= i < n && #[trigger] v[i].0@ == k),
        forall|i: int|
            0 <= i < n ==> alias_model(v, n).contains_key(#[trigger] v[i].0@)
                && alias_model(v, n)[v[i].0@] == v[i].1@,
    decreases n,
{
    if n > 0 {
        lemma_alias_model_keys(v, n - 1);
        assert forall|k: Seq<char>| alias_model(v, n).contains_key(k) implies (exists|i: int|
            0 <= i < n && #[trigger] v[i].0@ == k) by {
            if k != v[n - 1].0@ {
                assert(alias_model(v, n - 1).contains_key(k));
            }
        }
    }
}

impl Aliases {
    /// The empty alias table.
    pub fn new() -> (r: Aliases)
        ensures
            r@ == Map::<Seq<char>, Seq<char>>::empty(),
            awf(r),
    {
        Aliases { entries: Vec::new() }
    }

    /// The index of the entry declaring `alias`, if one exists.
    pub fn find_index(&self, alias: &String) -> (r: Option<usize>)
        ensures
            match r {
                Some(i) => i < self.entries@.len() && self.entries@[i as int].0@ == alias@,
                None => forall|i: int|
                    0 <= i < self.entries@.len() ==> self.entries@[i].0@ != alias@,
            },
    {
        let mut i: usize = 0;
        while i < self.entries.len()
            invariant
                i <= self.entries@.len(),
                forall|j: int| 0 <= j < i ==> self.entries@[j].0@ != alias@,
            decreases self.entries@.len() - i,
        {
            if self.entries[i].0.eq(alias) {
                return Some(i);
            }
            i = i + 1;
        }
        None
    }

    /// Declares `alias` as a short name for `name`, replacing any
    /// existing declaration of the same alias.
    pub fn insert(&mut self, alias: String, name: String)
        requires
            awf(*old(self)),
        ensures
            awf(*final(self)),
            final(self)@ == old(self)@.insert(alias@, name@),
    {
        let ghost old_entries = self.entries@;
        match self.find_index(&alias) {
            Some(i) => {
                self.entries.set(i, (alias, name));
                proof {
                    lemma_alias_update(old_entries, self.entries@, i as int, old_entries.len() as int);
                }
            },
            None => {
                self.entries.push((alias, name));
                proof {
                    lemma_alias_congruence(old_entries, self.entries@, old_entries.len() as int);
                }
            },
        }
    }

    /// The canonical name declared for `alias`, if any. The claims hold
    /// of every well-formed table; on one that is not, the call still
    /// finds the first entry of that alias, promising nothing.
    pub fn get(&self, alias: &String) -> (r: Option<&String>)
        ensures
            awf(*self) ==> match r {
                Some(n) => self@.contains_key(alias@) && n@ == self@[alias@],
                None => !self@.contains_key(alias@),
            },
    {
        proof {
            if awf(*self) {
                lemma_alias_model_keys(self.entries@, self.entries@.len() as int);
            }
        }
        match self.find_index(alias) {
            Some(i) => Some(&self.entries[i].1),
            None => None,
        }
    }
}

/// Two alias entry sequences that agree on their first `n` entries have
/// the same model of those entries.
proof fn lemma_alias_congruence(a: Seq<(String, String)>, b: Seq<(String, String)>, n: int)
    requires
        n <= a.len(),
        n <= b.len(),
        forall|j: int| 0 <= j < n ==> a[j] == b[j],
    ensures
        alias_model(a, n) == alias_model(b, n),
    decreases n,
{
    if n > 0 {
        lemma_alias_congruence(a, b, n - 1);
    }
}

/// Replacing the alias entry at `i` by one with the same alias updates
/// exactly that alias in the model.
proof fn lemma_alias_update(old_v: Seq<(String, String)>, new_v: Seq<(String, String)>, i: int, n: int)
    requires
        old_v.len() == new_v.len(),
        0 <= i < n <= new_v.len(),
        forall|j: int| 0 <= j < new_v.len() && j != i ==> new_v[j] == old_v[j],
        new_v[i].0@ == old_v[i].0@,
        forall|p: int, q: int| 0 <= p < q < old_v.len() ==> old_v[p].0@ != old_v[q].0@,
    ensures
        alias_model(new_v, n) == alias_model(old_v, n).insert(new_v[i].0@, new_v[i].1@),
    decreases n,
{
    if n - 1 == i {
        lemma_alias_congruence(old_v, new_v, i);
        assert(alias_model(new_v, n) =~= alias_model(old_v, n).insert(new_v[i].0@, new_v[i].1@));
    } else {
        lemma_alias_update(old_v, new_v, i, n - 1);
        assert(alias_model(new_v, n) =~= alias_model(old_v, n).insert(new_v[i].0@, new_v[i].1@));
    }
}

} // verus!
