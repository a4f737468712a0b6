//! The nested form of a parsed document: a tree of content records, each
//! with named values and child records.  The browser's store is flat;
//! this form is what a collaborator hands over before flattening, and
//! `go_down_depth` collects the records sitting at one depth of it.

use vstd::prelude::*;

verus! {

/// Whether one value is the record's primary content.
pub struct ContentValueMetadata {
    pub is_primary_content: bool,
}

/// One named value of a content record.
pub struct ContentValue {
    pub meta: ContentValueMetadata,
    pub name: String,
    pub value: String,
}

/// The tree position of a record: whether it is the root, and its
/// parent's id.
pub struct ContentMetadataRecursive {
    pub is_root: bool,
    pub parent_id: Option<String>,
}

/// The metadata of a record; the tree position is optional.
pub struct ContentMetadata {
    pub recursive: Option<ContentMetadataRecursive>,
}

/// One record of the nested document tree.
pub struct Content {
    pub id: String,
    pub meta: ContentMetadata,
    pub values: Vec<ContentValue>,
    pub children: Vec<Content>,
}

/// The values behind a sequence of record references.
pub open spec fn content_derefs(s: Seq<&Content>) -> Seq<Content> {
    s.map_values(|p: &Content| *p)
}

/// The records exactly `depth` levels below `c`, left to right.
pub open spec fn collect_at_depth(c: Content, depth: int) -> Seq<Content>
    decreases depth, 1int, 0int,
{
    if depth <= 0 {
        seq![c]
    } else {
        children_collect(c.children@, depth, c.children@.len() as int)
    }
}

/// The records `depth - 1` levels below the first `k` children.
pub open spec fn children_collect(cs: Seq<Content>, depth: int, k: int) -> Seq<Content>
    decreases depth, 0int, k,
{
    if depth <= 0 || k <= 0 {
        Seq::empty()
    } else {
        children_collect(cs, depth, k - 1) + collect_at_depth(cs[k - 1], depth - 1)
    }
}

impl Content {
    /// Appends to `results` every record exactly `depth` levels below
    /// this one, in left-to-right order.
    pub fn go_down_depth<'a>(&'a self, depth: usize, results: &mut Vec<&'a Content>)
        ensures
            content_derefs(final(results)@) == content_derefs(old(results)@) + collect_at_depth(
                *self,
                depth as int,
            ),
        decreases depth,
    {
        if depth == 0 {
            results.push(self);
            proof {
                assert(content_derefs(results@) =~= content_derefs(old(results)@) + seq![*self]);
            }
        } else {
            let mut i: usize = 0;
            while i < self.children.len()
                invariant
                    0 <= i <= self.children@.len(),
                    depth >= 1,
                    content_derefs(results@) == content_derefs(old(results)@) + children_collect(
                        self.children@,
                        depth as int,
                        i as int,
                    ),
                decreases self.children@.len() - i,
            {
                self.children[i].go_down_depth(depth - 1, results);
                proof {
                    assert(content_derefs(results@) =~= content_derefs(old(results)@)
                        + children_collect(self.children@, depth as int, i + 1));
                }
                i = i + 1;
            }
        }
    }
}

} // verus!

verus! {

impl Clone for ContentValueMetadata {
    fn clone(&self) -> (r: Self)
        ensures
            r == *self,
    {
        ContentValueMetadata { is_primary_content: self.is_primary_content }
    }
}

impl Clone for ContentValue {
    fn clone(&self) -> (r: Self)
        ensures
            r == *self,
    {
        ContentValue {
            meta: self.meta.clone(),
            name: self.name.clone(),
            value: self.value.clone(),
        }
    }
}

/// The display order of two values: primary content strictly before
/// secondary, and within one kind ascending by name.
pub open spec fn val_before(a: ContentValue, b: ContentValue) -> bool {
    if a.meta.is_primary_content != b.meta.is_primary_content {
        a.meta.is_primary_content
    } else {
        crate::text::lex_lt(a.name@, b.name@)
    }
}

/// Inserts `x` behind every value it does not strictly precede, so that
/// values the order ties stay in their arrival order.
pub open spec fn insert_stable(s: Seq<ContentValue>, x: ContentValue) -> Seq<ContentValue>
    decreases s.len(),
{
    if s.len() == 0 {
        seq![x]
    } else if val_before(x, s[0]) {
        seq![x] + s
    } else {
        seq![s[0]] + insert_stable(s.drop_first(), x)
    }
}

/// The first `k` values in display order, ties kept stable.
pub open spec fn sorted_values_upto(vals: Seq<ContentValue>, k: int) -> Seq<ContentValue>
    decreases k,
{
    if k <= 0 {
        Seq::empty()
    } else {
        insert_stable(sorted_values_upto(vals, k - 1), vals[k - 1])
    }
}

/// The values in display order, ties kept stable.
pub open spec fn sorted_values(vals: Seq<ContentValue>) -> Seq<ContentValue> {
    sorted_values_upto(vals, vals.len() as int)
}

/// Whether `a` is shown strictly before `b`.
fn val_before_exec(a: &ContentValue, b: &ContentValue) -> (r: bool)
    ensures
        r == val_before(*a, *b),
{
    if a.meta.is_primary_content != b.meta.is_primary_content {
        a.meta.is_primary_content
    } else {
        crate::text::str_lt(&a.name, &b.name)
    }
}

/// Inserting at the first position whose value `x` strictly precedes is
/// what `insert_stable` does.
pub proof fn lemma_insert_stable_at(s: Seq<ContentValue>, x: ContentValue, j: int)
    requires
        0 <= j <= s.len(),
        forall|m: int| 0 <= m < j ==> !val_before(x, #[trigger] s[m]),
        j < s.len() ==> val_before(x, s[j]),
    ensures
        insert_stable(s, x) == s.insert(j, x),
    decreases j,
{
    if j == 0 {
        if s.len() == 0 {
            assert(insert_stable(s, x) =~= s.insert(0, x));
        } else {
            assert(seq![x] + s =~= s.insert(0, x));
        }
    } else {
        let d = s.drop_first();
        assert(forall|m: int| 0 <= m < d.len() ==> #[trigger] d[m] == s[m + 1]);
        lemma_insert_stable_at(d, x, j - 1);
        assert(seq![s[0]] + d.insert(j - 1, x) =~= s.insert(j, x));
    }
}

/// Orders a record's values for display: primary content first, then
/// ascending by name, values the order ties in their arrival order.
pub fn sort_content_values(vals: &Vec<ContentValue>) -> (r: Vec<ContentValue>)
    ensures
        r@ == sorted_values(vals@),
{
    let mut r: Vec<ContentValue> = Vec::new();
    let mut i: usize = 0;
    while i < vals.len()
        invariant
            0 <= i <= vals@.len(),
            r@ == sorted_values_upto(vals@, i as int),
        decreases vals@.len() - i,
    {
        let x = vals[i].clone();
        let mut j: usize = 0;
        let mut done = false;
        while j < r.len() && !done
            invariant
                0 <= j <= r@.len(),
                x == vals@[i as int],
                forall|m: int| 0 <= m < j ==> !val_before(x, #[trigger] r@[m]),
                done ==> j < r@.len() && val_before(x, r@[j as int]),
            decreases r@.len() - j, (if done {
                0int
            } else {
                1int
            }),
        {
            if val_before_exec(&x, &r[j]) {
                done = true;
            } else {
                j = j + 1;
            }
        }
        proof {
            lemma_insert_stable_at(r@, x, j as int);
        }
        r.insert(j, x);
        i = i + 1;
    }
    r
}

} // verus!
