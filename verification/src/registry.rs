//! The calls and the types of the protocol.
use crate::names::{
    law_find_name_put, law_name_put_keeps, law_row_found, name_put, name_sorted, NameTable,
};
use crate::table::find;
use crate::text::{push_text, same_text};
use vstd::prelude::*;

verus! {

/// How far a call is supported.
#[derive(Clone, Copy, Debug, PartialEq, Eq, Structural)]
pub enum RpcClass {
    Active,
    TransportOnly,
    DtoOnly,
}

/// One field of a type.
#[derive(Clone, Debug)]
pub struct FieldSpec {
    pub name: String,
    pub wire_type: String,
    pub id: i16,
}

/// One type: its namespace, its name and its fields.
#[derive(Clone, Debug)]
pub struct TypeSpec {
    pub namespace: String,
    pub name: String,
    pub fields: Vec<FieldSpec>,
}

/// One call: its name, its category, how far it is supported and which types its
/// request and its response may have.
#[derive(Clone, Debug)]
pub struct RpcSpec {
    pub name: String,
    pub category: String,
    pub class: String,
    pub request_candidates: Vec<String>,
    pub response_candidates: Vec<String>,
    pub request_wires: Vec<WireSpec>,
    pub response_wires: Vec<WireSpec>,
    pub has_server_time: bool,
}

/// A type in a namespace.
#[derive(Clone, Debug)]
pub struct WireSpec {
    pub namespace: String,
    pub wire_type: String,
}

/// A call of the protocol: the name as it is sent, its category and how far it is
/// supported.
#[derive(Clone, Debug, PartialEq, Eq)]
pub struct RpcName {
    pub name: String,
    pub category: String,
    pub class: RpcClass,
}

impl RpcName {
    /// The name as it is sent.
    pub fn as_str(&self) -> (name: &str)
        ensures
            name@ == self.name@,
    {
        self.name.as_str()
    }

    /// The category of the call.
    pub fn category(&self) -> (category: &str)
        ensures
            category@ == self.category@,
    {
        self.category.as_str()
    }

    /// How far the call is supported.
    pub fn class(&self) -> (class: RpcClass)
        ensures
            class == self.class,
    {
        self.class
    }
}

/// Whether a name is that of a call.
pub open spec fn names_call(name: RpcName, spec: RpcSpec) -> bool {
    &&& name.name@ == spec.name@
    &&& name.category@ == spec.category@
    &&& Some(name.class) == class_named(spec.class@)
}

/// How far a call of a named class is supported.
pub open spec fn class_named(class: Seq<char>) -> Option<RpcClass> {
    if class == "active"@ {
        Some(RpcClass::Active)
    } else if class == "transport-only"@ {
        Some(RpcClass::TransportOnly)
    } else if class == "dto-only"@ {
        Some(RpcClass::DtoOnly)
    } else {
        None
    }
}

impl RpcSpec {
    /// How far the call is supported.
    pub fn rpc_class(&self) -> (class: RpcClass)
        requires
            class_named(self.class@) is Some,
        ensures
            class_named(self.class@) == Some(class),
    {
        if same_text(self.class.as_str(), "active") {
            RpcClass::Active
        } else if same_text(self.class.as_str(), "transport-only") {
            RpcClass::TransportOnly
        } else {
            RpcClass::DtoOnly
        }
    }

    /// The name of the call.
    pub fn rpc_name(&self) -> (name: RpcName)
        requires
            class_named(self.class@) is Some,
        ensures
            names_call(name, *self),
    {
        RpcName {
            name: self.name.clone(),
            category: self.category.clone(),
            class: self.rpc_class(),
        }
    }
}

/// Calls by their names; of two with the same name the later one.
pub open spec fn calls_by_name(specs: Seq<RpcSpec>) -> Seq<(Seq<char>, RpcSpec)>
    decreases specs.len(),
{
    if specs.len() == 0 {
        Seq::empty()
    } else {
        name_put(calls_by_name(specs.drop_last()), specs.last().name@, specs.last())
    }
}

/// The full name of a type.
pub open spec fn full_name(namespace: Seq<char>, name: Seq<char>) -> Seq<char> {
    namespace + "::"@ + name
}

/// Types by their full names; of two with the same name the later one.
pub open spec fn types_by_name(specs: Seq<TypeSpec>) -> Seq<(Seq<char>, TypeSpec)>
    decreases specs.len(),
{
    if specs.len() == 0 {
        Seq::empty()
    } else {
        let last = specs.last();
        name_put(
            types_by_name(specs.drop_last()),
            full_name(last.namespace@, last.name@),
            last,
        )
    }
}

pub fn exec_full_name(namespace: &str, name: &str) -> (r: String)
    ensures
        r@ == full_name(namespace@, name@),
{
    let mut r = String::new();
    push_text(&mut r, namespace);
    push_text(&mut r, "::");
    push_text(&mut r, name);
    proof {
        assert(r@ =~= full_name(namespace@, name@));
    }
    r
}

/// The calls and the types, by name.
#[derive(Debug)]
pub struct ProtocolSchema {
    pub calls: NameTable<RpcSpec>,
    pub types: NameTable<TypeSpec>,
}

impl ProtocolSchema {
    /// The schema of a document.
    pub fn new(calls: Vec<RpcSpec>, types: Vec<TypeSpec>) -> (schema: ProtocolSchema)
        ensures
            schema.calls@ == calls_by_name(calls@),
            schema.types@ == types_by_name(types@),
    {
        ProtocolSchema { calls: collect_calls(calls), types: collect_types(types) }
    }

    /// The call with a name.
    pub fn call(&self, name: &str) -> (r: Option<&RpcSpec>)
        ensures
            match r {
                Some(spec) => find(self.calls@, name@) == Some(*spec),
                None => find(self.calls@, name@) is None,
            },
    {
        self.calls.find(name)
    }

    /// The call with the name of one of its calls.
    pub fn call_typed(&self, name: RpcName) -> (spec: &RpcSpec)
        requires
            find(self.calls@, name.name@) is Some,
        ensures
            find(self.calls@, name.name@) == Some(*spec),
    {
        match self.calls.find(name.as_str()) {
            Some(spec) => spec,
            None => self.calls.row_at(0),
        }
    }

    /// The type with a full name.
    pub fn type_spec(&self, name: &str) -> (r: Option<&TypeSpec>)
        ensures
            match r {
                Some(spec) => find(self.types@, name@) == Some(*spec),
                None => find(self.types@, name@) is None,
            },
    {
        self.types.find(name)
    }

    /// The calls, in the order of their names.
    pub fn calls(&self) -> (r: Vec<&RpcSpec>)
        ensures
            name_sorted(self.calls@),
            r@.len() == self.calls@.len(),
            forall|i: int| 0 <= i < r@.len() ==> *(#[trigger] r@[i]) == self.calls@[i].1,
    {
        let n: usize = self.calls.len();
        let mut r: Vec<&RpcSpec> = Vec::new();
        let mut i: usize = 0;
        while i < n
            invariant
                i <= n == self.calls@.len(),
                r@.len() == i,
                forall|j: int| 0 <= j < i ==> *(#[trigger] r@[j]) == self.calls@[j].1,
            decreases n - i,
        {
            r.push(self.calls.row_at(i));
            i = i + 1;
        }
        r
    }

    /// The names of all calls, in their order.
    pub fn rpc_names(&self) -> (r: Vec<RpcName>)
        requires
            forall|i: int|
                0 <= i < self.calls@.len() ==> class_named(
                    (#[trigger] self.calls@[i]).1.class@,
                ) is Some,
        ensures
            r@.len() == self.calls@.len(),
            forall|i: int| 0 <= i < r@.len() ==> names_call(#[trigger] r@[i], self.calls@[i].1),
    {
        let n: usize = self.calls.len();
        let mut r: Vec<RpcName> = Vec::new();
        let mut i: usize = 0;
        while i < n
            invariant
                i <= n == self.calls@.len(),
                r@.len() == i,
                forall|j: int|
                    0 <= j < self.calls@.len() ==> class_named(
                        (#[trigger] self.calls@[j]).1.class@,
                    ) is Some,
                forall|j: int| 0 <= j < i ==> names_call(#[trigger] r@[j], self.calls@[j].1),
            decreases n - i,
        {
            proof {
                assert(class_named(self.calls@[i as int].1.class@) is Some);
            }
            r.push(self.calls.row_at(i).rpc_name());
            i = i + 1;
        }
        r
    }

    /// The types, in the order of their full names.
    pub fn types(&self) -> (r: Vec<&TypeSpec>)
        ensures
            name_sorted(self.types@),
            r@.len() == self.types@.len(),
            forall|i: int| 0 <= i < r@.len() ==> *(#[trigger] r@[i]) == self.types@[i].1,
    {
        let n: usize = self.types.len();
        let mut r: Vec<&TypeSpec> = Vec::new();
        let mut i: usize = 0;
        while i < n
            invariant
                i <= n == self.types@.len(),
                r@.len() == i,
                forall|j: int| 0 <= j < i ==> *(#[trigger] r@[j]) == self.types@[j].1,
            decreases n - i,
        {
            r.push(self.types.row_at(i));
            i = i + 1;
        }
        r
    }
}

/// Whether calls are listed in the order of their names, each under its own.
pub open spec fn filed(calls: Seq<(Seq<char>, RpcSpec)>) -> bool {
    name_sorted(calls) && forall|i: int|
        0 <= i < calls.len() ==> (#[trigger] calls[i]).0 == calls[i].1.name@
}

/// The calls of a document are listed in the order of their names, each under its
/// own.
pub proof fn law_calls_filed(specs: Seq<RpcSpec>)
    ensures
        filed(calls_by_name(specs)),
    decreases specs.len(),
{
    if specs.len() > 0 {
        let before = calls_by_name(specs.drop_last());
        let last = specs.last();
        law_calls_filed(specs.drop_last());
        law_name_put_keeps(before, last.name@, last);
        let after = calls_by_name(specs);
        assert forall|i: int| 0 <= i < after.len() implies (#[trigger] after[i]).0
            == after[i].1.name@ by {
            if after[i] != (last.name@, last) {
                let j = choose|j: int| 0 <= j < before.len() && before[j] == after[i];
                assert(before[j].0 == before[j].1.name@);
            }
        }
    }
}

/// Every listed call is found under its own name, and so under its typed name,
/// which says of it what the call says of itself.
pub proof fn law_listed_calls_found(calls: Seq<(Seq<char>, RpcSpec)>, i: int, name: RpcName)
    requires
        filed(calls),
        0 <= i < calls.len(),
        names_call(name, calls[i].1),
    ensures
        find(calls, calls[i].1.name@) == Some(calls[i].1),
        find(calls, name.name@) matches Some(found) && names_call(name, found),
{
    law_row_found(calls, i);
}

/// Every call of a document with distinct names is found under its own.
pub proof fn law_document_calls_found(specs: Seq<RpcSpec>, i: int)
    requires
        0 <= i < specs.len(),
        forall|a: int, b: int|
            0 <= a < b < specs.len() ==> (#[trigger] specs[a]).name@ != (#[trigger] specs[b]).name@,
    ensures
        find(calls_by_name(specs), specs[i].name@) == Some(specs[i]),
    decreases specs.len(),
{
    let front = specs.drop_last();
    let last = specs.last();
    law_find_name_put(calls_by_name(front), last.name@, last, specs[i].name@);
    if i < specs.len() - 1 {
        assert(specs[specs.len() - 1] == last);
        assert forall|a: int, b: int| 0 <= a < b < front.len() implies (#[trigger] front[a]).name@
            != (#[trigger] front[b]).name@ by {
            assert(front[a] == specs[a] && front[b] == specs[b]);
        }
        assert(front[i] == specs[i]);
        law_document_calls_found(front, i);
    }
}

fn collect_calls(specs: Vec<RpcSpec>) -> (t: NameTable<RpcSpec>)
    ensures
        t@ == calls_by_name(specs@),
{
    let ghost all = specs@;
    let n: usize = specs.len();
    let mut rest: Vec<RpcSpec> = specs;
    let mut t: NameTable<RpcSpec> = NameTable::new();
    let mut i: usize = 0;
    proof {
        assert(all.take(0) =~= Seq::empty());
        assert(all.skip(0) =~= all);
    }
    while i < n
        invariant
            i <= n == all.len(),
            rest@ == all.skip(i as int),
            t@ == calls_by_name(all.take(i as int)),
        decreases n - i,
    {
        let spec = rest.remove(0);
        proof {
            assert(spec == all[i as int]);
            assert(rest@ =~= all.skip(i + 1));
            assert(all.take(i + 1).drop_last() =~= all.take(i as int));
        }
        t.put(spec.name.clone(), spec);
        i = i + 1;
    }
    proof {
        assert(all.take(i as int) =~= all);
    }
    t
}

fn collect_types(specs: Vec<TypeSpec>) -> (t: NameTable<TypeSpec>)
    ensures
        t@ == types_by_name(specs@),
{
    let ghost all = specs@;
    let n: usize = specs.len();
    let mut rest: Vec<TypeSpec> = specs;
    let mut t: NameTable<TypeSpec> = NameTable::new();
    let mut i: usize = 0;
    proof {
        assert(all.take(0) =~= Seq::empty());
        assert(all.skip(0) =~= all);
    }
    while i < n
        invariant
            i <= n == all.len(),
            rest@ == all.skip(i as int),
            t@ == types_by_name(all.take(i as int)),
        decreases n - i,
    {
        let spec = rest.remove(0);
        proof {
            assert(spec == all[i as int]);
            assert(rest@ =~= all.skip(i + 1));
            assert(all.take(i + 1).drop_last() =~= all.take(i as int));
        }
        t.put(exec_full_name(spec.namespace.as_str(), spec.name.as_str()), spec);
        i = i + 1;
    }
    proof {
        assert(all.take(i as int) =~= all);
    }
    t
}

} // verus!
