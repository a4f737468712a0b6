//! The summarizer: a bounded recursive rendering of one object as plain
//! text.
//!
//! The object's own values come first (skipping url, decorative and id
//! values), then — below the top level — a histogram of the immediate
//! children grouped by type name and sorted by it, and then the text of
//! each child that is not already represented by the histogram.  Recursion
//! stops at a fixed relative depth, so the rendering terminates for any
//! store, dangling or cyclic child references included.

use vstd::prelude::*;
use vstd::string::StringExecFns;

use crate::store::ObjectNode;
use crate::store::TypeDescriptor;
use crate::store::AttributedValue;
use crate::store::registered_name;
use crate::text::lex_lt;
use crate::text::lemma_lex_trichotomy;
use crate::text::lemma_lex_transitive;
use crate::text::trim_of;
use crate::text::trim_str;
use crate::text::str_lt;
use crate::text::dec_str;
use crate::text::push_decimal;

verus! {

/// The first node carrying `id`, if any.
pub open spec fn find_node(nodes: Seq<ObjectNode>, id: Seq<char>) -> Option<ObjectNode>
    decreases nodes.len(),
{
    if nodes.len() == 0 {
        None
    } else if nodes[0].id@ == id {
        Some(nodes[0])
    } else {
        find_node(nodes.drop_first(), id)
    }
}

/// Finds the node carrying `id` in the store, treating a missing id as
/// "no such node".
pub fn lookup_node<'a>(nodes: &'a Vec<ObjectNode>, id: &String) -> (r: Option<&'a ObjectNode>)
    ensures
        match r {
            Some(n) => find_node(nodes@, id@) == Some(*n),
            None => find_node(nodes@, id@) is None,
        },
{
    let mut i: usize = 0;
    proof {
        assert(nodes@.skip(0) =~= nodes@);
    }
    while i < nodes.len()
        invariant
            0 <= i <= nodes@.len(),
            find_node(nodes@, id@) == find_node(nodes@.skip(i as int), id@),
        decreases nodes@.len() - i,
    {
        if nodes[i].id == *id {
            proof {
                assert(nodes@.skip(i as int)[0] == nodes@[i as int]);
            }
            return Some(&nodes[i]);
        }
        proof {
            assert(nodes@.skip(i as int).drop_first() =~= nodes@.skip(i + 1));
        }
        i = i + 1;
    }
    proof {
        assert(nodes@.skip(nodes@.len() as int) =~= Seq::<ObjectNode>::empty());
    }
    None
}

/// A value is shown unless it is flagged as a url, as decorative or as an
/// id.
pub open spec fn shown(v: AttributedValue) -> bool {
    !v.is_url && !v.is_decorative && !v.is_id
}

/// The text contributed by the first `k` own values: each shown value,
/// trimmed, preceded by one space.
pub open spec fn own_text_upto(vals: Seq<AttributedValue>, k: int) -> Seq<char>
    decreases k,
{
    if k <= 0 {
        Seq::empty()
    } else {
        own_text_upto(vals, k - 1) + (if shown(vals[k - 1]) {
            seq![' '] + trim_of(vals[k - 1].value@)
        } else {
            Seq::empty()
        })
    }
}

/// The object's own text: its shown values, trimmed, each preceded by one
/// space.
pub open spec fn own_text(vals: Seq<AttributedValue>) -> Seq<char> {
    own_text_upto(vals, vals.len() as int)
}

/// Renders the object's own values.
pub fn render_own_text(vals: &Vec<AttributedValue>) -> (r: String)
    ensures
        r@ == own_text(vals@),
{
    let mut r = String::new();
    let mut i: usize = 0;
    while i < vals.len()
        invariant
            0 <= i <= vals@.len(),
            r@ == own_text_upto(vals@, i as int),
        decreases vals@.len() - i,
    {
        let v = &vals[i];
        if !v.is_url && !v.is_decorative && !v.is_id {
            r.append(" ");
            let t = trim_str(&v.value);
            r.append(t.as_str());
            proof {
                reveal_strlit(" ");
                assert(" "@ =~= seq![' ']);
                assert(own_text_upto(vals@, i as int) + " "@ + trim_of(vals@[i as int].value@)
                    =~= own_text_upto(vals@, i + 1));
            }
        } else {
            proof {
                assert(own_text_upto(vals@, i as int) + Seq::<char>::empty() =~= own_text_upto(
                    vals@,
                    i + 1,
                ));
            }
        }
        i = i + 1;
    }
    r
}

/// The values behind a sequence of node references.
pub open spec fn derefs(s: Seq<&ObjectNode>) -> Seq<ObjectNode> {
    s.map_values(|p: &ObjectNode| *p)
}

/// The children of a node among the first `k` of its child ids, in order,
/// with dangling ids silently dropped.
pub open spec fn resolved_upto(ids: Seq<String>, nodes: Seq<ObjectNode>, k: int) -> Seq<ObjectNode>
    decreases k,
{
    if k <= 0 {
        Seq::empty()
    } else {
        let p = resolved_upto(ids, nodes, k - 1);
        match find_node(nodes, ids[k - 1]@) {
            Some(n) => p.push(n),
            None => p,
        }
    }
}

/// The resolved children of a node, in child-id order.
pub open spec fn resolved_children(node: ObjectNode, nodes: Seq<ObjectNode>) -> Seq<ObjectNode> {
    resolved_upto(node.child_ids@, nodes, node.child_ids@.len() as int)
}

/// Resolves the children of a node, dropping dangling ids.
pub fn resolve_children<'a>(node: &ObjectNode, nodes: &'a Vec<ObjectNode>) -> (r: Vec<
    &'a ObjectNode,
>)
    ensures
        derefs(r@) == resolved_children(*node, nodes@),
{
    let mut r: Vec<&'a ObjectNode> = Vec::new();
    let mut i: usize = 0;
    while i < node.child_ids.len()
        invariant
            0 <= i <= node.child_ids@.len(),
            derefs(r@) == resolved_upto(node.child_ids@, nodes@, i as int),
        decreases node.child_ids@.len() - i,
    {
        match lookup_node(nodes, &node.child_ids[i]) {
            Some(n) => {
                r.push(n);
                proof {
                    assert(derefs(r@) =~= resolved_upto(node.child_ids@, nodes@, i + 1));
                }
            },
            None => {
                proof {
                    assert(derefs(r@) =~= resolved_upto(node.child_ids@, nodes@, i + 1));
                }
            },
        }
        i = i + 1;
    }
    r
}

/// How many of the first `k` children share the type `tid`.
pub open spec fn count_type_upto(kids: Seq<ObjectNode>, tid: Seq<char>, k: int) -> int
    decreases k,
{
    if k <= 0 {
        0
    } else {
        count_type_upto(kids, tid, k - 1) + (if kids[k - 1].type_id@ == tid {
            1int
        } else {
            0int
        })
    }
}

/// How many children share the type `tid`.
pub open spec fn count_type(kids: Seq<ObjectNode>, tid: Seq<char>) -> int {
    count_type_upto(kids, tid, kids.len() as int)
}

/// Counts the children sharing type `tid`.
pub fn count_same_type(kids: &Vec<&ObjectNode>, tid: &String) -> (c: usize)
    ensures
        c as int == count_type(derefs(kids@), tid@),
{
    let mut c: usize = 0;
    let mut i: usize = 0;
    while i < kids.len()
        invariant
            0 <= i <= kids@.len(),
            c as int == count_type_upto(derefs(kids@), tid@, i as int),
            c <= i,
        decreases kids@.len() - i,
    {
        if kids[i].type_id == *tid {
            c = c + 1;
        }
        i = i + 1;
    }
    c
}

} // verus!

verus! {

/// The views of a vector of strings.
pub open spec fn views_of(s: Seq<String>) -> Seq<Seq<char>> {
    s.map_values(|x: String| x@)
}

/// The type names of the first `k` resolved children, in child order,
/// skipping children whose type the registry does not know.
pub open spec fn kid_names_upto(
    kids: Seq<ObjectNode>,
    types: Seq<TypeDescriptor>,
    k: int,
) -> Seq<Seq<char>>
    decreases k,
{
    if k <= 0 {
        Seq::empty()
    } else {
        let p = kid_names_upto(kids, types, k - 1);
        match registered_name(types, kids[k - 1].type_id@) {
            Some(nm) => p.push(nm),
            None => p,
        }
    }
}

/// The type names of the resolved children, one entry per child.
pub open spec fn kid_names(kids: Seq<ObjectNode>, types: Seq<TypeDescriptor>) -> Seq<Seq<char>> {
    kid_names_upto(kids, types, kids.len() as int)
}

/// Inserts `x` into an ascending sequence of names, keeping it ascending
/// and dropping `x` when it is already present.
pub open spec fn insert_name(s: Seq<Seq<char>>, x: Seq<char>) -> Seq<Seq<char>>
    decreases s.len(),
{
    if s.len() == 0 {
        seq![x]
    } else if x == s[0] {
        s
    } else if lex_lt(x, s[0]) {
        seq![x] + s
    } else {
        seq![s[0]] + insert_name(s.drop_first(), x)
    }
}

/// The distinct names among the first `k`, in ascending order.
pub open spec fn sorted_names_upto(names: Seq<Seq<char>>, k: int) -> Seq<Seq<char>>
    decreases k,
{
    if k <= 0 {
        Seq::empty()
    } else {
        insert_name(sorted_names_upto(names, k - 1), names[k - 1])
    }
}

/// The distinct names, in ascending order.
pub open spec fn sorted_names(names: Seq<Seq<char>>) -> Seq<Seq<char>> {
    sorted_names_upto(names, names.len() as int)
}

/// Strictly ascending in the lexicographic order: sorted, with no name
/// repeated.
pub open spec fn strictly_sorted(s: Seq<Seq<char>>) -> bool {
    forall|i: int, j: int| 0 <= i < j < s.len() ==> lex_lt(s[i], s[j])
}

/// Inserting keeps a strictly ascending sequence strictly ascending, and
/// introduces no name besides `x`.
pub proof fn lemma_insert_name_sorted(s: Seq<Seq<char>>, x: Seq<char>)
    requires
        strictly_sorted(s),
    ensures
        strictly_sorted(insert_name(s, x)),
        forall|idx: int|
            0 <= idx < insert_name(s, x).len() ==> #[trigger] insert_name(s, x)[idx] == x
                || s.contains(insert_name(s, x)[idx]),
        insert_name(s, x).contains(x),
        forall|y: Seq<char>| s.contains(y) ==> #[trigger] insert_name(s, x).contains(y),
    decreases s.len(),
{
    let r = insert_name(s, x);
    if s.len() == 0 {
        assert(r[0] == x);
    } else if x == s[0] {
        assert(r.contains(x)) by {
            assert(r[0] == x);
        }
    } else if lex_lt(x, s[0]) {
        assert forall|i: int, j: int| 0 <= i < j < r.len() implies lex_lt(r[i], r[j]) by {
            if i == 0 {
                if j > 1 {
                    lemma_lex_transitive(x, s[0], s[j - 1]);
                }
            }
        }
        assert(r.contains(x)) by {
            assert(r[0] == x);
        }
        assert forall|y: Seq<char>| s.contains(y) implies #[trigger] r.contains(y) by {
            let w = choose|w: int| 0 <= w < s.len() && s[w] == y;
            assert(r[w + 1] == y);
        }
    } else {
        let d = s.drop_first();
        lemma_lex_trichotomy(x, s[0]);
        assert(strictly_sorted(d)) by {
            assert(forall|i: int, j: int|
                0 <= i < j < d.len() ==> d[i] == s[i + 1] && d[j] == s[j + 1]);
        }
        lemma_insert_name_sorted(d, x);
        let rd = insert_name(d, x);
        assert(r == seq![s[0]] + rd);
        assert forall|i: int, j: int| 0 <= i < j < r.len() implies lex_lt(r[i], r[j]) by {
            if i == 0 {
                assert(r[j] == rd[j - 1]);
                if rd[j - 1] == x {
                    // s[0] < x because x is neither equal to nor below s[0]
                } else {
                    let w = choose|w: int| 0 <= w < d.len() && d[w] == rd[j - 1];
                    assert(d[w] == s[w + 1]);
                    assert(lex_lt(s[0], s[w + 1]));
                }
            } else {
                assert(r[i] == rd[i - 1] && r[j] == rd[j - 1]);
            }
        }
        assert(r.contains(x)) by {
            let w = choose|w: int| 0 <= w < rd.len() && rd[w] == x;
            assert(r[w + 1] == x);
        }
        assert forall|idx: int| 0 <= idx < r.len() implies #[trigger] r[idx] == x || s.contains(
            r[idx],
        ) by {
            if idx == 0 {
                assert(s[0] == r[0]);
            } else {
                assert(r[idx] == rd[idx - 1]);
                if rd[idx - 1] != x {
                    let w = choose|w: int| 0 <= w < d.len() && d[w] == rd[idx - 1];
                    assert(s[w + 1] == d[w]);
                }
            }
        }
        assert forall|y: Seq<char>| s.contains(y) implies #[trigger] r.contains(y) by {
            let w = choose|w: int| 0 <= w < s.len() && s[w] == y;
            if w == 0 {
                assert(r[0] == y);
            } else {
                assert(d[w - 1] == y);
                assert(d.contains(y));
                assert(rd.contains(y));
                let v = choose|v: int| 0 <= v < rd.len() && rd[v] == y;
                assert(r[v + 1] == y);
            }
        }
    }
}

/// The histogram's name column is strictly ascending: entries appear
/// sorted by type name, each name once.
pub proof fn lemma_sorted_names_sorted(names: Seq<Seq<char>>, k: int)
    requires
        0 <= k <= names.len(),
    ensures
        strictly_sorted(sorted_names_upto(names, k)),
    decreases k,
{
    if k > 0 {
        lemma_sorted_names_sorted(names, k - 1);
        lemma_insert_name_sorted(sorted_names_upto(names, k - 1), names[k - 1]);
    }
}

} // verus!

verus! {

/// Where `x` lands in an ascending vector: the index of the first entry
/// not below `x`.
fn lower_bound(sorted: &Vec<String>, x: &String) -> (j: usize)
    ensures
        0 <= j <= sorted@.len(),
        forall|m: int| 0 <= m < j ==> lex_lt((#[trigger] sorted@[m])@, x@),
        j < sorted@.len() ==> !lex_lt(sorted@[j as int]@, x@),
{
    let mut j: usize = 0;
    while j < sorted.len()
        invariant
            0 <= j <= sorted@.len(),
            forall|m: int| 0 <= m < j ==> lex_lt((#[trigger] sorted@[m])@, x@),
        decreases sorted@.len() - j,
    {
        if !str_lt(&sorted[j], x) {
            return j;
        }
        j = j + 1;
    }
    j
}

/// Inserting at the first position not below `x` is what `insert_name`
/// does.
pub proof fn lemma_insert_name_at(s: Seq<Seq<char>>, x: Seq<char>, j: int)
    requires
        0 <= j <= s.len(),
        forall|m: int| 0 <= m < j ==> lex_lt(#[trigger] s[m], x),
        j < s.len() ==> !lex_lt(s[j], x),
    ensures
        insert_name(s, x) == if j < s.len() && s[j] == x {
            s
        } else {
            s.insert(j, x)
        },
    decreases j,
{
    if j == 0 {
        if s.len() == 0 {
            assert(insert_name(s, x) =~= s.insert(0, x));
        } else if x == s[0] {
        } else {
            lemma_lex_trichotomy(x, s[0]);
            assert(seq![x] + s =~= s.insert(0, x));
        }
    } else {
        lemma_lex_trichotomy(x, s[0]);
        let d = s.drop_first();
        assert(forall|m: int| 0 <= m < d.len() ==> #[trigger] d[m] == s[m + 1]);
        lemma_insert_name_at(d, x, j - 1);
        if j < s.len() && s[j] == x {
            assert(d[j - 1] == x);
            assert(seq![s[0]] + d =~= s);
        } else {
            assert(insert_name(d, x) == d.insert(j - 1, x));
            assert(seq![s[0]] + d.insert(j - 1, x) =~= s.insert(j, x));
        }
    }
}

/// Inserts `x` into an ascending vector of names, dropping it when it is
/// already present.
fn insert_into_sorted(sorted: &mut Vec<String>, x: String)
    ensures
        views_of(final(sorted)@) == insert_name(views_of(old(sorted)@), x@),
{
    let ghost s = views_of(sorted@);
    let j = lower_bound(sorted, &x);
    proof {
        assert(forall|m: int| 0 <= m < j ==> s[m] == (#[trigger] sorted@[m])@);
        lemma_insert_name_at(s, x@, j as int);
    }
    if j < sorted.len() && sorted[j] == x {
        proof {
            assert(s[j as int] == x@);
        }
    } else {
        proof {
            if j < sorted.len() {
                assert(s[j as int] == sorted@[j as int]@);
            }
        }
        sorted.insert(j, x);
        proof {
            assert(views_of(sorted@) =~= s.insert(j as int, x@));
        }
    }
}

/// How many of the first `k` names equal `x`.
pub open spec fn count_name_upto(names: Seq<Seq<char>>, x: Seq<char>, k: int) -> int
    decreases k,
{
    if k <= 0 {
        0
    } else {
        count_name_upto(names, x, k - 1) + (if names[k - 1] == x {
            1int
        } else {
            0int
        })
    }
}

/// How many names equal `x`.
pub open spec fn count_name(names: Seq<Seq<char>>, x: Seq<char>) -> int {
    count_name_upto(names, x, names.len() as int)
}

/// Counts the occurrences of the name `x`.
fn count_name_exec(names: &Vec<String>, x: &String) -> (c: usize)
    ensures
        c as int == count_name(views_of(names@), x@),
{
    let mut c: usize = 0;
    let mut i: usize = 0;
    while i < names.len()
        invariant
            0 <= i <= names@.len(),
            c as int == count_name_upto(views_of(names@), x@, i as int),
            c <= i,
        decreases names@.len() - i,
    {
        if names[i] == *x {
            c = c + 1;
        }
        i = i + 1;
    }
    c
}

/// The histogram entries for the first `j` sorted names: each name, then
/// ` x `, its count and a trailing space.
pub open spec fn hist_text_upto(sorted: Seq<Seq<char>>, names: Seq<Seq<char>>, j: int) -> Seq<char>
    decreases j,
{
    if j <= 0 {
        Seq::empty()
    } else {
        hist_text_upto(sorted, names, j - 1) + sorted[j - 1] + seq![' ', 'x', ' '] + dec_str(
            count_name(names, sorted[j - 1]),
        ) + seq![' ']
    }
}

/// The histogram of the resolved children grouped by type name, sorted
/// ascending by name.
pub open spec fn histogram_text(kids: Seq<ObjectNode>, types: Seq<TypeDescriptor>) -> Seq<char> {
    let names = kid_names(kids, types);
    let sorted = sorted_names(names);
    hist_text_upto(sorted, names, sorted.len() as int)
}

/// Appends the histogram of the resolved children to `out`.
fn append_histogram(out: &mut String, kids: &Vec<&ObjectNode>, types: &Vec<TypeDescriptor>)
    ensures
        final(out)@ == old(out)@ + histogram_text(derefs(kids@), types@),
{
    let ghost base = out@;
    let mut names: Vec<String> = Vec::new();
    let mut i: usize = 0;
    while i < kids.len()
        invariant
            0 <= i <= kids@.len(),
            views_of(names@) == kid_names_upto(derefs(kids@), types@, i as int),
        decreases kids@.len() - i,
    {
        match crate::store::find_type_name(types, &kids[i].type_id) {
            Some(nm) => {
                names.push(nm);
                proof {
                    assert(views_of(names@) =~= kid_names_upto(derefs(kids@), types@, i + 1));
                }
            },
            None => {
                proof {
                    assert(views_of(names@) =~= kid_names_upto(derefs(kids@), types@, i + 1));
                }
            },
        }
        i = i + 1;
    }
    let mut sorted: Vec<String> = Vec::new();
    let mut k: usize = 0;
    while k < names.len()
        invariant
            0 <= k <= names@.len(),
            views_of(sorted@) == sorted_names_upto(views_of(names@), k as int),
        decreases names@.len() - k,
    {
        insert_into_sorted(&mut sorted, names[k].clone());
        k = k + 1;
    }
    let ghost sorted_views = views_of(sorted@);
    let ghost name_views = views_of(names@);
    let mut j: usize = 0;
    while j < sorted.len()
        invariant
            0 <= j <= sorted@.len(),
            sorted_views == views_of(sorted@),
            name_views == views_of(names@),
            out@ == base + hist_text_upto(sorted_views, name_views, j as int),
        decreases sorted@.len() - j,
    {
        out.append(sorted[j].as_str());
        out.append(" x ");
        let c = count_name_exec(&names, &sorted[j]);
        push_decimal(out, c);
        out.append(" ");
        proof {
            reveal_strlit(" x ");
            reveal_strlit(" ");
            assert(" x "@ =~= seq![' ', 'x', ' ']);
            assert(" "@ =~= seq![' ']);
            assert(out@ =~= base + hist_text_upto(sorted_views, name_views, j + 1));
        }
        j = j + 1;
    }
    proof {
        assert(out@ == base + histogram_text(derefs(kids@), types@));
    }
}

} // verus!

verus! {

/// The marker appended when the depth cap cuts the rendering off.
pub open spec fn ellipsis() -> Seq<char> {
    seq!['.', '.', '.']
}

/// The full summary of one object at relative depth `rd`: its own text,
/// then (below the top level) the child histogram, then the text of each
/// child not collapsed into the histogram.  Above relative depth 3 the
/// rendering is cut off with an ellipsis, so the definition is bounded
/// for any store, cycles included.
pub open spec fn summarize_spec(
    node: ObjectNode,
    nodes: Seq<ObjectNode>,
    types: Seq<TypeDescriptor>,
    rd: int,
) -> Seq<char>
    decreases 4 - rd, 1int, 0int,
{
    let base = own_text(node.values@);
    if rd > 3 {
        base + ellipsis()
    } else {
        let kids = resolved_children(node, nodes);
        let hist = if rd > 0 {
            histogram_text(kids, types)
        } else {
            Seq::empty()
        };
        base + hist + children_text_upto(kids, nodes, types, rd, kids.len() as int)
    }
}

/// The concatenated summaries of the first `k` resolved children.  Below
/// the top level, a child whose type occurs more than once among its
/// siblings is skipped: the histogram already represents it.
pub open spec fn children_text_upto(
    kids: Seq<ObjectNode>,
    nodes: Seq<ObjectNode>,
    types: Seq<TypeDescriptor>,
    rd: int,
    k: int,
) -> Seq<char>
    decreases 4 - rd, 0int, k,
{
    if rd > 3 || k <= 0 {
        Seq::empty()
    } else {
        let piece = if rd > 0 && count_type(kids, kids[k - 1].type_id@) > 1 {
            Seq::empty()
        } else {
            summarize_spec(kids[k - 1], nodes, types, rd + 1)
        };
        children_text_upto(kids, nodes, types, rd, k - 1) + piece
    }
}

/// Renders one object as bounded plain text.
///
/// The result is a function of the object, the store and the registry
/// alone, so two calls on the same arguments render the same text, and
/// the recursion's `decreases` measure caps the relative depth actually
/// descended to at 4, whatever the store holds.
pub fn summarize(
    node: &ObjectNode,
    nodes: &Vec<ObjectNode>,
    types: &Vec<TypeDescriptor>,
    relative_depth: u16,
) -> (r: String)
    ensures
        r@ == summarize_spec(*node, nodes@, types@, relative_depth as int),
    decreases 4 - relative_depth as int,
{
    let mut r = render_own_text(&node.values);
    if relative_depth > 3 {
        r.append("...");
        proof {
            reveal_strlit("...");
            assert(r@ =~= own_text(node.values@) + ellipsis());
        }
        return r;
    }
    let kids = resolve_children(node, nodes);
    if relative_depth > 0 {
        append_histogram(&mut r, &kids, types);
    }
    let ghost base = own_text(node.values@);
    let ghost hist = if relative_depth > 0 {
        histogram_text(derefs(kids@), types@)
    } else {
        Seq::<char>::empty()
    };
    proof {
        assert(r@ =~= base + hist);
    }
    let mut i: usize = 0;
    while i < kids.len()
        invariant
            0 <= i <= kids@.len(),
            relative_depth <= 3,
            derefs(kids@) == resolved_children(*node, nodes@),
            hist == if relative_depth > 0 {
                histogram_text(derefs(kids@), types@)
            } else {
                Seq::<char>::empty()
            },
            base == own_text(node.values@),
            r@ == base + hist + children_text_upto(
                derefs(kids@),
                nodes@,
                types@,
                relative_depth as int,
                i as int,
            ),
        decreases kids@.len() - i,
    {
        let kid: &ObjectNode = kids[i];
        let cnt = count_same_type(&kids, &kid.type_id);
        if relative_depth > 0 && cnt > 1 {
            proof {
                assert(r@ =~= base + hist + children_text_upto(
                    derefs(kids@),
                    nodes@,
                    types@,
                    relative_depth as int,
                    i + 1,
                ));
            }
        } else {
            let sub = summarize(kid, nodes, types, relative_depth + 1);
            r.append(sub.as_str());
            proof {
                assert(r@ =~= base + hist + children_text_upto(
                    derefs(kids@),
                    nodes@,
                    types@,
                    relative_depth as int,
                    i + 1,
                ));
            }
        }
        i = i + 1;
    }
    r
}

/// The depth cap: at any relative depth above 3 the summary is the
/// object's own text followed by the ellipsis, and nothing is recursed
/// into — the bound holds for any store, dangling or cyclic references
/// included.
pub proof fn lemma_summarize_depth_capped(
    node: ObjectNode,
    nodes: Seq<ObjectNode>,
    types: Seq<TypeDescriptor>,
    rd: int,
)
    requires
        rd > 3,
    ensures
        summarize_spec(node, nodes, types, rd) == own_text(node.values@) + ellipsis(),
{
}

/// The histogram lists each type name once, in strictly ascending order.
pub proof fn lemma_histogram_names_sorted(kids: Seq<ObjectNode>, types: Seq<TypeDescriptor>)
    ensures
        strictly_sorted(sorted_names(kid_names(kids, types))),
{
    lemma_sorted_names_sorted(kid_names(kids, types), kid_names(kids, types).len() as int);
}

} // verus!
