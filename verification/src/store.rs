//! The object store: a flattened, depth-annotated collection of objects
//! produced by an external document parser, together with the registry of
//! object types.
//!
//! `ObjectStore::load` is the single entry point: it drops degenerate
//! objects (no own values and no children), parses every attributed value
//! out of its raw field map, and rejects the whole batch when a required
//! flag field is missing or when an object references a type that the
//! registry does not know.

use vstd::prelude::*;
use vstd::string::StringExecFns;

verus! {

/// One entry of the type registry: a type identifier and its
/// human-readable name.
#[derive(Debug)]
pub struct TypeDescriptor {
    pub id: String,
    pub name: String,
}

impl Clone for TypeDescriptor {
    fn clone(&self) -> (r: Self)
        ensures
            r == *self,
    {
        TypeDescriptor { id: self.id.clone(), name: self.name.clone() }
    }
}

/// One named value of an object, with the flags that decide whether the
/// summarizer shows it.
#[derive(Debug)]
pub struct AttributedValue {
    pub name: String,
    pub value: String,
    pub is_url: bool,
    pub is_decorative: bool,
    pub is_id: bool,
}

impl Clone for AttributedValue {
    fn clone(&self) -> (r: Self)
        ensures
            r == *self,
    {
        AttributedValue {
            name: self.name.clone(),
            value: self.value.clone(),
            is_url: self.is_url,
            is_decorative: self.is_decorative,
            is_id: self.is_id,
        }
    }
}

/// One object of a loaded store.  Parent and children are id references;
/// a child id may be dangling, and every consumer treats a failed lookup
/// as "no such child".
#[derive(Debug)]
pub struct ObjectNode {
    pub id: String,
    pub type_id: String,
    pub parent_id: Option<String>,
    pub depth: u16,
    pub values: Vec<AttributedValue>,
    pub child_ids: Vec<String>,
}

/// Clones a vector of strings, keeping the exact contents.
pub fn clone_string_vec(v: &Vec<String>) -> (r: Vec<String>)
    ensures
        r@ == v@,
{
    let mut r: Vec<String> = Vec::new();
    let mut i: usize = 0;
    while i < v.len()
        invariant
            0 <= i <= v@.len(),
            r@ =~= v@.subrange(0, i as int),
        decreases v@.len() - i,
    {
        r.push(v[i].clone());
        i = i + 1;
    }
    proof {
        assert(v@.subrange(0, v@.len() as int) =~= v@);
    }
    r
}

/// One key/value field of a raw attributed value, as the external parser
/// hands it over.
#[derive(Debug)]
pub struct InputField {
    pub key: String,
    pub value: String,
}

impl Clone for InputField {
    fn clone(&self) -> (r: Self)
        ensures
            r == *self,
    {
        InputField { key: self.key.clone(), value: self.value.clone() }
    }
}

/// One raw attributed value: a name and a field map that must contain the
/// text under `value` and the three flags `is_url`, `is_decorative` and
/// `is_id`.
#[derive(Debug)]
pub struct InputValue {
    pub name: String,
    pub fields: Vec<InputField>,
}

/// One raw object of an input batch.
#[derive(Debug)]
pub struct InputNode {
    pub id: String,
    pub type_id: String,
    pub parent_id: Option<String>,
    pub depth: u16,
    pub values: Vec<InputValue>,
    pub child_ids: Vec<String>,
}

/// A whole input batch: the type descriptors and the raw objects.
#[derive(Debug)]
pub struct Input {
    pub types: Vec<TypeDescriptor>,
    pub nodes: Vec<InputNode>,
}

/// Why a batch was rejected by `load`.
#[derive(Debug, PartialEq, Eq, Structural, Clone, Copy)]
pub enum LoadError {
    /// A retained object has a value whose field map is missing the text
    /// or one of the required flags.
    MalformedValue,
    /// A retained object references a type id that the registry does not
    /// contain.
    UnresolvedType,
}

/// The value of the first field named `key`, if any.
pub open spec fn lookup_field(fields: Seq<InputField>, key: Seq<char>) -> Option<Seq<char>>
    decreases fields.len(),
{
    if fields.len() == 0 {
        None
    } else if fields[0].key@ == key {
        Some(fields[0].value@)
    } else {
        lookup_field(fields.drop_first(), key)
    }
}

/// A raw value parses iff its field map holds the text and all three
/// required flags.
pub open spec fn value_ok(v: InputValue) -> bool {
    &&& lookup_field(v.fields@, "value"@) is Some
    &&& lookup_field(v.fields@, "is_url"@) is Some
    &&& lookup_field(v.fields@, "is_decorative"@) is Some
    &&& lookup_field(v.fields@, "is_id"@) is Some
}

/// `av` is the parse of the raw value `iv`: same name, the text from the
/// `value` field, and each flag true exactly when its field holds `true`.
pub open spec fn attr_of(av: AttributedValue, iv: InputValue) -> bool {
    &&& av.name@ == iv.name@
    &&& Some(av.value@) == lookup_field(iv.fields@, "value"@)
    &&& av.is_url == (lookup_field(iv.fields@, "is_url"@) == Some("true"@))
    &&& av.is_decorative == (lookup_field(iv.fields@, "is_decorative"@) == Some("true"@))
    &&& av.is_id == (lookup_field(iv.fields@, "is_id"@) == Some("true"@))
}

/// Finds the first field named `key` and hands its value out.
pub fn find_field(fields: &Vec<InputField>, key: &String) -> (r: Option<String>)
    ensures
        match r {
            Some(v) => lookup_field(fields@, key@) == Some(v@),
            None => lookup_field(fields@, key@) is None,
        },
{
    let mut i: usize = 0;
    proof {
        assert(fields@.skip(0) =~= fields@);
    }
    while i < fields.len()
        invariant
            0 <= i <= fields@.len(),
            lookup_field(fields@, key@) == lookup_field(fields@.skip(i as int), key@),
        decreases fields@.len() - i,
    {
        if fields[i].key == *key {
            proof {
                assert(fields@.skip(i as int)[0] == fields@[i as int]);
            }
            return Some(fields[i].value.clone());
        }
        proof {
            assert(fields@.skip(i as int).drop_first() =~= fields@.skip(i + 1));
        }
        i = i + 1;
    }
    proof {
        assert(fields@.skip(fields@.len() as int) =~= Seq::<InputField>::empty());
    }
    None
}

/// Parses one raw value, failing when a required field is missing.
pub fn parse_value(v: &InputValue) -> (r: Option<AttributedValue>)
    ensures
        match r {
            Some(av) => value_ok(*v) && attr_of(av, *v),
            None => !value_ok(*v),
        },
{
    let key_value = String::from_str("value");
    let key_url = String::from_str("is_url");
    let key_decorative = String::from_str("is_decorative");
    let key_id = String::from_str("is_id");
    let truth = String::from_str("true");
    let text = match find_field(&v.fields, &key_value) {
        Some(t) => t,
        None => {
            return None;
        },
    };
    let url = match find_field(&v.fields, &key_url) {
        Some(t) => t,
        None => {
            return None;
        },
    };
    let decorative = match find_field(&v.fields, &key_decorative) {
        Some(t) => t,
        None => {
            return None;
        },
    };
    let id_flag = match find_field(&v.fields, &key_id) {
        Some(t) => t,
        None => {
            return None;
        },
    };
    Some(
        AttributedValue {
            name: v.name.clone(),
            value: text,
            is_url: url == truth,
            is_decorative: decorative == truth,
            is_id: id_flag == truth,
        },
    )
}

} // verus!

verus! {

/// A node is kept by `load` iff it is not degenerate: it has own values
/// or children.
pub open spec fn keeps(n: InputNode) -> bool {
    n.values@.len() > 0 || n.child_ids@.len() > 0
}

/// The non-degenerate nodes among the first `k` input nodes, in input
/// order.
pub open spec fn retained_upto(nodes: Seq<InputNode>, k: int) -> Seq<InputNode>
    decreases k,
{
    if k <= 0 {
        Seq::empty()
    } else {
        let p = retained_upto(nodes, k - 1);
        if keeps(nodes[k - 1]) {
            p.push(nodes[k - 1])
        } else {
            p
        }
    }
}

/// The non-degenerate nodes of an input batch, in input order.
pub open spec fn retained(nodes: Seq<InputNode>) -> Seq<InputNode> {
    retained_upto(nodes, nodes.len() as int)
}

/// Every value of `n` parses.
pub open spec fn node_values_ok(n: InputNode) -> bool {
    forall|k: int| 0 <= k < n.values@.len() ==> value_ok(#[trigger] n.values@[k])
}

/// `on` is the parse of the raw node `inn`: identity, depth and links are
/// kept verbatim and each raw value is parsed in place.
pub open spec fn node_matches(on: ObjectNode, inn: InputNode) -> bool {
    &&& on.id == inn.id
    &&& on.type_id == inn.type_id
    &&& match (on.parent_id, inn.parent_id) {
        (Some(a), Some(b)) => a == b,
        (None, None) => true,
        _ => false,
    }
    &&& on.depth == inn.depth
    &&& on.values@.len() == inn.values@.len()
    &&& forall|k: int|
        0 <= k < on.values@.len() ==> attr_of(#[trigger] on.values@[k], inn.values@[k])
    &&& on.child_ids@ == inn.child_ids@
}

/// The name registered for type `id`, if any (first match).
pub open spec fn registered_name(types: Seq<TypeDescriptor>, id: Seq<char>) -> Option<Seq<char>>
    decreases types.len(),
{
    if types.len() == 0 {
        None
    } else if types[0].id@ == id {
        Some(types[0].name@)
    } else {
        registered_name(types.drop_first(), id)
    }
}

/// Whether the registry knows type `id`.
pub open spec fn has_type(types: Seq<TypeDescriptor>, id: Seq<char>) -> bool {
    registered_name(types, id) is Some
}

/// Finds the registered name of type `id`.
pub fn find_type_name(types: &Vec<TypeDescriptor>, id: &String) -> (r: Option<String>)
    ensures
        match r {
            Some(n) => registered_name(types@, id@) == Some(n@),
            None => registered_name(types@, id@) is None,
        },
{
    let mut i: usize = 0;
    proof {
        assert(types@.skip(0) =~= types@);
    }
    while i < types.len()
        invariant
            0 <= i <= types@.len(),
            registered_name(types@, id@) == registered_name(types@.skip(i as int), id@),
        decreases types@.len() - i,
    {
        if types[i].id == *id {
            proof {
                assert(types@.skip(i as int)[0] == types@[i as int]);
            }
            return Some(types[i].name.clone());
        }
        proof {
            assert(types@.skip(i as int).drop_first() =~= types@.skip(i + 1));
        }
        i = i + 1;
    }
    proof {
        assert(types@.skip(types@.len() as int) =~= Seq::<TypeDescriptor>::empty());
    }
    None
}

/// The largest depth among the first `k` nodes (0 when there are none).
pub open spec fn max_depth_upto(nodes: Seq<ObjectNode>, k: int) -> int
    decreases k,
{
    if k <= 0 {
        0
    } else {
        let p = max_depth_upto(nodes, k - 1);
        if nodes[k - 1].depth as int > p {
            nodes[k - 1].depth as int
        } else {
            p
        }
    }
}

/// The largest depth in the store (0 when the store is empty).
pub open spec fn spec_max_depth(nodes: Seq<ObjectNode>) -> int {
    max_depth_upto(nodes, nodes.len() as int)
}

} // verus!

verus! {

/// Appending more input keeps what was already retained, in place.
pub proof fn lemma_retained_prefix(nodes: Seq<InputNode>, k: int, m: int)
    requires
        0 <= k <= m,
    ensures
        retained_upto(nodes, k).len() <= retained_upto(nodes, m).len(),
        forall|idx: int|
            0 <= idx < retained_upto(nodes, k).len() ==> #[trigger] retained_upto(nodes, m)[idx]
                == retained_upto(nodes, k)[idx],
    decreases m - k,
{
    if m > k {
        lemma_retained_prefix(nodes, k, m - 1);
    }
}

/// Every retained node is one of the input nodes, and is not degenerate.
pub proof fn lemma_retained_props(nodes: Seq<InputNode>, k: int)
    requires
        0 <= k <= nodes.len(),
    ensures
        forall|idx: int|
            0 <= idx < retained_upto(nodes, k).len() ==> keeps(
                #[trigger] retained_upto(nodes, k)[idx],
            ),
        forall|idx: int|
            0 <= idx < retained_upto(nodes, k).len() ==> exists|m: int|
                0 <= m < k && #[trigger] retained_upto(nodes, k)[idx] == nodes[m],
    decreases k,
{
    if k > 0 {
        lemma_retained_props(nodes, k - 1);
        assert forall|idx: int| 0 <= idx < retained_upto(nodes, k).len() implies exists|m: int|
            0 <= m < k && #[trigger] retained_upto(nodes, k)[idx] == nodes[m] by {
            if idx < retained_upto(nodes, k - 1).len() {
                let m = choose|m: int|
                    0 <= m < k - 1 && retained_upto(nodes, k - 1)[idx] == nodes[m];
                assert(retained_upto(nodes, k)[idx] == nodes[m]);
            } else {
                assert(retained_upto(nodes, k)[idx] == nodes[k - 1]);
            }
        }
    }
}

/// Every value of every retained node of the batch parses.
pub open spec fn batch_values_ok(nodes: Seq<InputNode>) -> bool {
    forall|j: int|
        0 <= j < retained(nodes).len() ==> node_values_ok(#[trigger] retained(nodes)[j])
}

/// Every retained node of the batch references a registered type.
pub open spec fn batch_types_ok(nodes: Seq<InputNode>, types: Seq<TypeDescriptor>) -> bool {
    forall|j: int|
        0 <= j < retained(nodes).len() ==> has_type(
            types,
            (#[trigger] retained(nodes)[j]).type_id@,
        )
}

/// The loaded store with its derived maximum depth and its registry.
pub struct ObjectStore {
    pub nodes: Vec<ObjectNode>,
    pub types: Vec<TypeDescriptor>,
    pub max_depth: u16,
}

impl ObjectStore {
    /// Well-formedness of a loaded store: no degenerate node survived,
    /// every node's type is registered, and `max_depth` is the maximum
    /// depth over the nodes.
    pub open spec fn wf(self) -> bool {
        &&& forall|i: int|
            0 <= i < self.nodes@.len() ==> (#[trigger] self.nodes@[i]).values@.len() > 0
                || self.nodes@[i].child_ids@.len() > 0
        &&& forall|i: int|
            0 <= i < self.nodes@.len() ==> has_type(
                self.types@,
                (#[trigger] self.nodes@[i]).type_id@,
            )
        &&& self.max_depth as int == spec_max_depth(self.nodes@)
    }

    /// The store before anything was loaded.
    pub fn empty() -> (s: ObjectStore)
        ensures
            s.wf(),
            s.nodes@.len() == 0,
            s.types@.len() == 0,
            s.max_depth == 0,
    {
        ObjectStore { nodes: Vec::new(), types: Vec::new(), max_depth: 0 }
    }

    /// Loads an input batch: drops degenerate nodes, parses every retained
    /// value, and rejects the batch when a value is missing a required
    /// field or a node references an unregistered type.
    pub fn load(input: &Input) -> (r: Result<ObjectStore, LoadError>)
        ensures
            match r {
                Ok(st) => {
                    &&& st.wf()
                    &&& batch_values_ok(input.nodes@)
                    &&& batch_types_ok(input.nodes@, input.types@)
                    &&& st.types@ == input.types@
                    &&& st.nodes@.len() == retained(input.nodes@).len()
                    &&& forall|j: int|
                        0 <= j < st.nodes@.len() ==> node_matches(
                            #[trigger] st.nodes@[j],
                            retained(input.nodes@)[j],
                        )
                },
                Err(LoadError::MalformedValue) => !batch_values_ok(input.nodes@),
                Err(LoadError::UnresolvedType) => batch_values_ok(input.nodes@)
                    && !batch_types_ok(input.nodes@, input.types@),
            },
    {
        let ghost all = input.nodes@;
        let mut parsed: Vec<ObjectNode> = Vec::new();
        let mut i: usize = 0;
        while i < input.nodes.len()
            invariant
                0 <= i <= all.len(),
                all == input.nodes@,
                parsed@.len() == retained_upto(all, i as int).len(),
                forall|j: int|
                    0 <= j < parsed@.len() ==> node_matches(
                        #[trigger] parsed@[j],
                        retained_upto(all, i as int)[j],
                    ),
                forall|j: int|
                    0 <= j < parsed@.len() ==> node_values_ok(
                        #[trigger] retained_upto(all, i as int)[j],
                    ),
            decreases all.len() - i,
        {
            let n = &input.nodes[i];
            if n.values.len() > 0 || n.child_ids.len() > 0 {
                let mut values: Vec<AttributedValue> = Vec::new();
                let mut k: usize = 0;
                while k < n.values.len()
                    invariant
                        all == input.nodes@,
                        0 <= i < all.len(),
                        *n == all[i as int],
                        keeps(all[i as int]),
                        parsed@.len() == retained_upto(all, i as int).len(),
                        0 <= k <= n.values@.len(),
                        values@.len() == k,
                        forall|m: int|
                            0 <= m < k ==> attr_of(#[trigger] values@[m], n.values@[m])
                                && value_ok(n.values@[m]),
                    decreases n.values@.len() - k,
                {
                    match parse_value(&n.values[k]) {
                        Some(av) => {
                            values.push(av);
                        },
                        None => {
                            proof {
                                let r_i1 = retained_upto(all, i as int + 1);
                                assert(r_i1[parsed@.len() as int] == all[i as int]);
                                lemma_retained_prefix(all, i as int + 1, all.len() as int);
                                assert(retained(all)[parsed@.len() as int] == all[i as int]);
                                assert(!node_values_ok(all[i as int]));
                            }
                            return Err(LoadError::MalformedValue);
                        },
                    }
                    k = k + 1;
                }
                let parent_id = match &n.parent_id {
                    Some(p) => Some(p.clone()),
                    None => None,
                };
                let node = ObjectNode {
                    id: n.id.clone(),
                    type_id: n.type_id.clone(),
                    parent_id,
                    depth: n.depth,
                    values,
                    child_ids: clone_string_vec(&n.child_ids),
                };
                proof {
                    assert(node_matches(node, all[i as int]));
                    assert forall|kk: int| 0 <= kk < all[i as int].values@.len() implies value_ok(
                        #[trigger] all[i as int].values@[kk],
                    ) by {
                        assert(attr_of(values@[kk], n.values@[kk]));
                    }
                    assert(node_values_ok(all[i as int]));
                    assert(retained_upto(all, i as int + 1) == retained_upto(all, i as int).push(
                        all[i as int],
                    ));
                }
                parsed.push(node);
            } else {
                proof {
                    assert(retained_upto(all, i as int + 1) == retained_upto(all, i as int));
                }
            }
            i = i + 1;
        }
        proof {
            assert(retained_upto(all, i as int) == retained(all));
        }
        let mut j: usize = 0;
        while j < parsed.len()
            invariant
                0 <= j <= parsed@.len(),
                all == input.nodes@,
                parsed@.len() == retained(all).len(),
                forall|m: int|
                    0 <= m < parsed@.len() ==> node_matches(
                        #[trigger] parsed@[m],
                        retained(all)[m],
                    ),
                forall|m: int|
                    0 <= m < parsed@.len() ==> node_values_ok(#[trigger] retained(all)[m]),
                forall|m: int|
                    0 <= m < j ==> has_type(input.types@, (#[trigger] parsed@[m]).type_id@),
            decreases parsed@.len() - j,
        {
            match find_type_name(&input.types, &parsed[j].type_id) {
                Some(_) => {},
                None => {
                    proof {
                        assert(retained(all)[j as int].type_id@ == parsed@[j as int].type_id@);
                        assert(!has_type(input.types@, retained(all)[j as int].type_id@));
                    }
                    return Err(LoadError::UnresolvedType);
                },
            }
            j = j + 1;
        }
        let mut md: u16 = 0;
        let mut m: usize = 0;
        while m < parsed.len()
            invariant
                0 <= m <= parsed@.len(),
                md as int == max_depth_upto(parsed@, m as int),
            decreases parsed@.len() - m,
        {
            if parsed[m].depth > md {
                md = parsed[m].depth;
            }
            m = m + 1;
        }
        let mut types: Vec<TypeDescriptor> = Vec::new();
        let mut t: usize = 0;
        while t < input.types.len()
            invariant
                0 <= t <= input.types@.len(),
                types@ =~= input.types@.subrange(0, t as int),
            decreases input.types@.len() - t,
        {
            types.push(input.types[t].clone());
            t = t + 1;
        }
        proof {
            assert(types@ =~= input.types@);
            lemma_retained_props(all, all.len() as int);
            assert forall|idx: int| 0 <= idx < parsed@.len() implies (#[trigger] parsed@[idx]).values@.len()
                > 0 || parsed@[idx].child_ids@.len() > 0 by {
                assert(keeps(retained(all)[idx]));
                assert(node_matches(parsed@[idx], retained(all)[idx]));
            }
            assert forall|idx: int|
                0 <= idx < retained(all).len() implies has_type(
                input.types@,
                (#[trigger] retained(all)[idx]).type_id@,
            ) by {
                assert(node_matches(parsed@[idx], retained(all)[idx]));
                assert(has_type(input.types@, parsed@[idx].type_id@));
            }
        }
        Ok(ObjectStore { nodes: parsed, types, max_depth: md })
    }
}

/// `c` names `p` as its parent.
pub open spec fn parent_link(c: ObjectNode, p: ObjectNode) -> bool {
    match c.parent_id {
        Some(pid) => pid@ == p.id@,
        None => false,
    }
}

/// `c` names `p` as its parent, on raw input nodes.
pub open spec fn parent_link_input(c: InputNode, p: InputNode) -> bool {
    match c.parent_id {
        Some(pid) => pid@ == p.id@,
        None => false,
    }
}

/// The depth invariant: whenever a node's parent id resolves to a node of
/// the collection, the child sits one level below that parent.
pub open spec fn depth_links_ok(nodes: Seq<ObjectNode>) -> bool {
    forall|i: int, j: int|
        0 <= i < nodes.len() && 0 <= j < nodes.len() && parent_link(
            #[trigger] nodes[i],
            #[trigger] nodes[j],
        ) ==> nodes[i].depth == nodes[j].depth + 1
}

/// The depth invariant on a raw input batch.
pub open spec fn depth_links_ok_input(nodes: Seq<InputNode>) -> bool {
    forall|i: int, j: int|
        0 <= i < nodes.len() && 0 <= j < nodes.len() && parent_link_input(
            #[trigger] nodes[i],
            #[trigger] nodes[j],
        ) ==> nodes[i].depth == nodes[j].depth + 1
}

/// Loading preserves the depth invariant: when every parent link of the
/// input batch points one level up, the same holds of every parent link
/// of the loaded store.  Dropping degenerate nodes only removes links.
pub proof fn lemma_load_preserves_depth_links(input: Input, st: ObjectStore)
    requires
        depth_links_ok_input(input.nodes@),
        st.nodes@.len() == retained(input.nodes@).len(),
        forall|j: int|
            0 <= j < st.nodes@.len() ==> node_matches(
                #[trigger] st.nodes@[j],
                retained(input.nodes@)[j],
            ),
    ensures
        depth_links_ok(st.nodes@),
{
    let all = input.nodes@;
    lemma_retained_props(all, all.len() as int);
    assert forall|i: int, j: int|
        0 <= i < st.nodes@.len() && 0 <= j < st.nodes@.len() && parent_link(
            #[trigger] st.nodes@[i],
            #[trigger] st.nodes@[j],
        ) implies st.nodes@[i].depth == st.nodes@[j].depth + 1 by {
        let ri = retained(all)[i];
        let rj = retained(all)[j];
        assert(parent_link_input(ri, rj));
        let mi = choose|m: int| 0 <= m < all.len() && retained(all)[i] == all[m];
        let mj = choose|m: int| 0 <= m < all.len() && retained(all)[j] == all[m];
        assert(parent_link_input(all[mi], all[mj]));
    }
}

} // verus!
