//! The navigator: a stateful cursor over the loaded store.
//!
//! The store is browsed one depth level at a time.  The visible list is
//! recomputed from scratch on every transition: an object is visible iff
//! it sits at the current depth and, when an ancestor has been selected,
//! its parent is that ancestor.  Descending pushes the selected object
//! onto the ancestor stack; when exactly one object remains visible it is
//! selected and the descent repeats, collapsing chains of single children
//! into one user-facing action.

use vstd::prelude::*;
use vstd::string::StringExecFns;

use crate::session::Session;
use crate::store::Input;
use crate::store::LoadError;
use crate::store::ObjectNode;
use crate::store::ObjectStore;
use crate::summarize::summarize;
use crate::summarize::summarize_spec;

verus! {

/// The depth shown right after a batch is loaded, when the store is deep
/// enough.
pub const DEFAULT_DEPTH: u16 = 1;

/// The colors the presentation layer paints with, as hex strings.  The
/// navigator only carries them.
pub struct ColorPalette {
    pub primary_hex: String,
    pub secondary_hex: String,
    pub background_hex: String,
}

/// An ordered list with a movable cursor and a remembered last position.
pub struct StatefulList<T> {
    pub items: Vec<T>,
    pub selected: Option<usize>,
    pub last_selected: Option<usize>,
}

impl<T> StatefulList<T> {
    /// Cursor and memory, when set, point into the list.
    pub open spec fn wf(self) -> bool {
        &&& match self.selected {
            Some(i) => i < self.items@.len(),
            None => true,
        }
        &&& match self.last_selected {
            Some(i) => i < self.items@.len(),
            None => true,
        }
    }

    /// Where `next` moves the cursor: one step down, wrapping to the
    /// start, falling back to the remembered position or the start.
    pub open spec fn next_index(self) -> int {
        match self.selected {
            Some(i) => if i as int >= self.items@.len() - 1 {
                0
            } else {
                i as int + 1
            },
            None => match self.last_selected {
                Some(j) => j as int,
                None => 0,
            },
        }
    }

    /// Where `previous` moves the cursor: one step up, wrapping to the
    /// end, falling back to the remembered position or the start.
    pub open spec fn previous_index(self) -> int {
        match self.selected {
            Some(i) => if i == 0 {
                self.items@.len() - 1
            } else {
                i as int - 1
            },
            None => match self.last_selected {
                Some(j) => j as int,
                None => 0,
            },
        }
    }

    /// A fresh list with no selection.
    pub fn with_items(items: Vec<T>) -> (l: StatefulList<T>)
        ensures
            l.items == items,
            l.selected is None,
            l.last_selected is None,
            l.wf(),
    {
        StatefulList { items, selected: None, last_selected: None }
    }

    /// Moves the cursor one step down, wrapping around; a no-op on an
    /// empty list.
    pub fn next(&mut self)
        requires
            old(self).wf(),
        ensures
            final(self).wf(),
            final(self).items == old(self).items,
            final(self).last_selected == old(self).last_selected,
            old(self).items@.len() == 0 ==> *final(self) == *old(self),
            old(self).items@.len() > 0 ==> final(self).selected == Some(
                old(self).next_index() as usize,
            ),
    {
        if self.items.len() == 0 {
            return ;
        }
        let i: usize = match self.selected {
            Some(i) => if i >= self.items.len() - 1 {
                0
            } else {
                i + 1
            },
            None => match self.last_selected {
                Some(j) => j,
                None => 0,
            },
        };
        self.selected = Some(i);
    }

    /// Moves the cursor one step up, wrapping around; a no-op on an
    /// empty list.
    pub fn previous(&mut self)
        requires
            old(self).wf(),
        ensures
            final(self).wf(),
            final(self).items == old(self).items,
            final(self).last_selected == old(self).last_selected,
            old(self).items@.len() == 0 ==> *final(self) == *old(self),
            old(self).items@.len() > 0 ==> final(self).selected == Some(
                old(self).previous_index() as usize,
            ),
    {
        if self.items.len() == 0 {
            return ;
        }
        let i: usize = match self.selected {
            Some(i) => if i == 0 {
                self.items.len() - 1
            } else {
                i - 1
            },
            None => match self.last_selected {
                Some(j) => j,
                None => 0,
            },
        };
        self.selected = Some(i);
    }

    /// Jumps to the first entry; a no-op on an empty list.
    pub fn start(&mut self)
        ensures
            final(self).items == old(self).items,
            final(self).last_selected == old(self).last_selected,
            old(self).items@.len() == 0 ==> *final(self) == *old(self),
            old(self).items@.len() > 0 ==> final(self).selected == Some(0usize),
            old(self).wf() ==> final(self).wf(),
    {
        if self.items.len() > 0 {
            self.selected = Some(0);
        }
    }

    /// Jumps to the last entry; a no-op on an empty list.
    pub fn end(&mut self)
        ensures
            final(self).items == old(self).items,
            final(self).last_selected == old(self).last_selected,
            old(self).items@.len() == 0 ==> *final(self) == *old(self),
            old(self).items@.len() > 0 ==> final(self).selected == Some(
                (old(self).items@.len() - 1) as usize,
            ),
            old(self).wf() ==> final(self).wf(),
    {
        if self.items.len() > 0 {
            self.selected = Some(self.items.len() - 1);
        }
    }

    /// Selects the entry at `index` and remembers it; a no-op when the
    /// index is out of range.
    pub fn select(&mut self, index: usize)
        ensures
            final(self).items == old(self).items,
            index < old(self).items@.len() ==> final(self).selected == Some(index)
                && final(self).last_selected == Some(index),
            index >= old(self).items@.len() ==> *final(self) == *old(self),
            old(self).wf() ==> final(self).wf(),
    {
        if index < self.items.len() {
            self.selected = Some(index);
            self.last_selected = Some(index);
        }
    }
}

/// The ancestor the visible set is scoped to: the top of the stack, or
/// nothing at the root.
pub open spec fn scope_of(parents: Seq<String>) -> Option<Seq<char>> {
    if parents.len() == 0 {
        None
    } else {
        Some(parents.last()@)
    }
}

/// Whether a node is visible at depth `d` under the parent scope.
pub open spec fn vis_pred(n: ObjectNode, d: u16, scope: Option<Seq<char>>) -> bool {
    &&& n.depth == d
    &&& match scope {
        None => true,
        Some(p) => match n.parent_id {
            Some(pid) => pid@ == p,
            None => false,
        },
    }
}

/// The store positions of the visible nodes among the first `k`, in
/// store order.
pub open spec fn visible_upto(
    nodes: Seq<ObjectNode>,
    d: u16,
    scope: Option<Seq<char>>,
    k: int,
) -> Seq<usize>
    decreases k,
{
    if k <= 0 {
        Seq::empty()
    } else {
        let p = visible_upto(nodes, d, scope, k - 1);
        if vis_pred(nodes[k - 1], d, scope) {
            p.push((k - 1) as usize)
        } else {
            p
        }
    }
}

/// The store positions of all visible nodes, in store order.
pub open spec fn visible_indices(nodes: Seq<ObjectNode>, d: u16, scope: Option<Seq<char>>) -> Seq<
    usize,
> {
    visible_upto(nodes, d, scope, nodes.len() as int)
}

/// Every visible position points into the store, at a node that is at
/// depth `d` and inside the scope.
pub proof fn lemma_visible_upto_ok(nodes: Seq<ObjectNode>, d: u16, scope: Option<Seq<char>>, k: int)
    requires
        0 <= k <= nodes.len(),
        nodes.len() <= usize::MAX,
    ensures
        forall|j: int|
            0 <= j < visible_upto(nodes, d, scope, k).len() ==> (#[trigger] visible_upto(
                nodes,
                d,
                scope,
                k,
            )[j]) < k && vis_pred(nodes[visible_upto(nodes, d, scope, k)[j] as int], d, scope),
    decreases k,
{
    if k > 0 {
        lemma_visible_upto_ok(nodes, d, scope, k - 1);
        let prev = visible_upto(nodes, d, scope, k - 1);
        let cur = visible_upto(nodes, d, scope, k);
        assert forall|j: int| 0 <= j < cur.len() implies (#[trigger] cur[j]) < k && vis_pred(
            nodes[cur[j] as int],
            d,
            scope,
        ) by {
            if j < prev.len() {
                assert(cur[j] == prev[j]);
            } else {
                assert(cur[j] == (k - 1) as usize);
            }
        }
    }
}

} // verus!

verus! {

/// The whole navigator state: the loaded store, the cursor over the
/// visible list, the ancestor stack, and the flags and colors the
/// surrounding program reads.
pub struct App {
    pub should_quit: bool,
    pub color_palette: ColorPalette,
    pub store: ObjectStore,
    pub display_items: StatefulList<usize>,
    pub current_depth: u16,
    pub selected_parents: Vec<String>,
}

impl App {
    /// The navigator invariant: the store is well formed, the cursor
    /// points into the visible list, the visible list is exactly the
    /// store positions passing the depth/scope filter, and the ancestor
    /// stack is no deeper than the current depth.
    pub open spec fn wf(self) -> bool {
        &&& self.store.wf()
        &&& self.display_items.wf()
        &&& self.display_items.items@ == visible_indices(
            self.store.nodes@,
            self.current_depth,
            scope_of(self.selected_parents@),
        )
        &&& self.selected_parents@.len() <= self.current_depth
    }

    /// A fresh navigator over an empty store.
    pub fn new() -> (app: App)
        ensures
            app.wf(),
            !app.should_quit,
            app.store.nodes@.len() == 0,
            app.store.types@.len() == 0,
            app.store.max_depth == 0,
            app.current_depth == DEFAULT_DEPTH,
            app.selected_parents@.len() == 0,
            app.display_items.items@.len() == 0,
            app.display_items.selected is None,
            app.color_palette.primary_hex@ == "#00FF00"@,
            app.color_palette.secondary_hex@ == "#FFFFFF"@,
            app.color_palette.background_hex@ == "#000011"@,
    {
        let app = App {
            should_quit: false,
            color_palette: ColorPalette {
                primary_hex: String::from_str("#00FF00"),
                secondary_hex: String::from_str("#FFFFFF"),
                background_hex: String::from_str("#000011"),
            },
            store: ObjectStore::empty(),
            display_items: StatefulList::with_items(Vec::new()),
            current_depth: DEFAULT_DEPTH,
            selected_parents: Vec::new(),
        };
        proof {
            assert(app.display_items.items@ =~= visible_indices(
                app.store.nodes@,
                app.current_depth,
                scope_of(app.selected_parents@),
            ));
        }
        app
    }

    /// Asks the surrounding program to stop.
    pub fn quit(&mut self)
        ensures
            final(self).should_quit,
            final(self).color_palette == old(self).color_palette,
            final(self).store == old(self).store,
            final(self).display_items == old(self).display_items,
            final(self).current_depth == old(self).current_depth,
            final(self).selected_parents == old(self).selected_parents,
    {
        self.should_quit = true;
    }

    /// Recomputes the visible list for the current depth and scope,
    /// clearing the selection.
    fn init_display_items(&mut self)
        ensures
            final(self).store == old(self).store,
            final(self).current_depth == old(self).current_depth,
            final(self).selected_parents == old(self).selected_parents,
            final(self).should_quit == old(self).should_quit,
            final(self).color_palette == old(self).color_palette,
            final(self).display_items.items@ == visible_indices(
                old(self).store.nodes@,
                old(self).current_depth,
                scope_of(old(self).selected_parents@),
            ),
            final(self).display_items.selected is None,
            final(self).display_items.last_selected is None,
            final(self).display_items.wf(),
    {
        let mut items: Vec<usize> = Vec::new();
        let mut i: usize = 0;
        let ghost scope = scope_of(self.selected_parents@);
        while i < self.store.nodes.len()
            invariant
                0 <= i <= self.store.nodes@.len(),
                scope == scope_of(self.selected_parents@),
                items@ == visible_upto(self.store.nodes@, self.current_depth, scope, i as int),
            decreases self.store.nodes@.len() - i,
        {
            let n = &self.store.nodes[i];
            let visible = if n.depth != self.current_depth {
                false
            } else if self.selected_parents.len() == 0 {
                true
            } else {
                match &n.parent_id {
                    Some(pid) => *pid == self.selected_parents[self.selected_parents.len() - 1],
                    None => false,
                }
            };
            proof {
                assert(visible == vis_pred(self.store.nodes@[i as int], self.current_depth, scope));
            }
            if visible {
                items.push(i);
            }
            i = i + 1;
        }
        self.display_items = StatefulList::with_items(items);
    }

    /// Loads an input batch.  On success the navigator is reset: depth
    /// back to the default (clamped to the store's depth), no ancestor
    /// scope, no selection.  On failure the batch is rejected and the
    /// prior state stays in effect.
    pub fn load_input(&mut self, input: &Input) -> (r: Result<(), LoadError>)
        ensures
            match r {
                Ok(()) => {
                    &&& final(self).wf()
                    &&& crate::store::batch_values_ok(input.nodes@)
                    &&& crate::store::batch_types_ok(input.nodes@, input.types@)
                    &&& final(self).store.types@ == input.types@
                    &&& final(self).store.nodes@.len() == crate::store::retained(
                        input.nodes@,
                    ).len()
                    &&& forall|j: int|
                        0 <= j < final(self).store.nodes@.len() ==> crate::store::node_matches(
                            #[trigger] final(self).store.nodes@[j],
                            crate::store::retained(input.nodes@)[j],
                        )
                    &&& final(self).current_depth == if DEFAULT_DEPTH
                        <= final(self).store.max_depth {
                        DEFAULT_DEPTH as int
                    } else {
                        final(self).store.max_depth as int
                    }
                    &&& final(self).selected_parents@.len() == 0
                    &&& final(self).display_items.selected is None
                    &&& final(self).should_quit == old(self).should_quit
                },
                Err(LoadError::MalformedValue) => *final(self) == *old(self)
                    && !crate::store::batch_values_ok(input.nodes@),
                Err(LoadError::UnresolvedType) => *final(self) == *old(self)
                    && crate::store::batch_values_ok(input.nodes@)
                    && !crate::store::batch_types_ok(input.nodes@, input.types@),
            },
    {
        match ObjectStore::load(input) {
            Ok(st) => {
                self.store = st;
                self.current_depth = if DEFAULT_DEPTH <= self.store.max_depth {
                    DEFAULT_DEPTH
                } else {
                    self.store.max_depth
                };
                self.selected_parents = Vec::new();
                self.init_display_items();
                Ok(())
            },
            Err(e) => Err(e),
        }
    }

    /// The snapshot handed to session persistence.
    pub fn get_session(&self) -> (s: Session)
        ensures
            s.depth == self.current_depth,
    {
        Session { depth: self.current_depth }
    }

    /// Applies a saved session as the depth to start browsing at,
    /// clamped to the store's depth; the scope and selection are reset.
    pub fn apply_session(&mut self, s: &Session)
        requires
            old(self).store.wf(),
        ensures
            final(self).wf(),
            final(self).store == old(self).store,
            final(self).should_quit == old(self).should_quit,
            final(self).current_depth == if s.depth <= old(self).store.max_depth {
                s.depth as int
            } else {
                old(self).store.max_depth as int
            },
            final(self).selected_parents@.len() == 0,
            final(self).display_items.selected is None,
    {
        self.current_depth = s.clamped_depth(self.store.max_depth);
        self.selected_parents = Vec::new();
        self.init_display_items();
    }

    /// The currently selected visible object, if any.
    pub fn get_current_object(&self) -> (r: Option<&ObjectNode>)
        requires
            self.wf(),
        ensures
            match r {
                Some(n) => {
                    &&& self.display_items.selected is Some
                    &&& *n == self.store.nodes@[self.display_items.items@[
                        self.display_items.selected->Some_0 as int] as int]
                    &&& vis_pred(*n, self.current_depth, scope_of(self.selected_parents@))
                },
                None => self.display_items.selected is None,
            },
    {
        let n_count = self.store.nodes.len();
        match self.display_items.selected {
            Some(i) => {
                proof {
                    assert(self.store.nodes@.len() == n_count);
                    lemma_visible_upto_ok(
                        self.store.nodes@,
                        self.current_depth,
                        scope_of(self.selected_parents@),
                        self.store.nodes@.len() as int,
                    );
                }
                let ix = self.display_items.items[i];
                Some(&self.store.nodes[ix])
            },
            None => None,
        }
    }
}

} // verus!

verus! {

impl App {
    /// Descends one level under the selected object.  A no-op when
    /// nothing is selected or the bottom of the tree is reached.  After
    /// descending, while exactly one object stays visible and the bottom
    /// is not reached, it is selected and the descent repeats; so on
    /// return a single visible object can only remain at the bottom,
    /// selected.  The depth never passes the store's maximum.
    pub fn deeper(&mut self)
        requires
            old(self).wf(),
        ensures
            final(self).wf(),
            final(self).store == old(self).store,
            final(self).should_quit == old(self).should_quit,
            final(self).color_palette == old(self).color_palette,
            (old(self).display_items.selected is None
                || old(self).current_depth >= old(self).store.max_depth)
                ==> *final(self) == *old(self),
            final(self).current_depth == old(self).current_depth
                || final(self).current_depth <= old(self).store.max_depth,
            (old(self).display_items.selected is Some
                && old(self).current_depth < old(self).store.max_depth) ==> {
                &&& old(self).current_depth < final(self).current_depth
                &&& final(self).current_depth <= old(self).store.max_depth
                &&& final(self).selected_parents@.len()
                    == old(self).selected_parents@.len()
                    + (final(self).current_depth - old(self).current_depth)
                &&& forall|m: int|
                    0 <= m < old(self).selected_parents@.len()
                        ==> final(self).selected_parents@[m]
                        == old(self).selected_parents@[m]
                &&& (final(self).display_items.items@.len() == 1
                    ==> final(self).display_items.selected == Some(0usize)
                        && final(self).current_depth == old(self).store.max_depth)
                &&& final(self).selected_parents@[old(self).selected_parents@.len() as int]@
                    == old(self).store.nodes@[old(self).display_items.items@[
                    old(self).display_items.selected->Some_0 as int] as int].id@
            },
        decreases self.store.max_depth as int - self.current_depth as int,
    {
        let sel = self.display_items.selected;
        if let Some(i) = sel {
            if self.current_depth < self.store.max_depth {
                let n_count = self.store.nodes.len();
                proof {
                    assert(self.store.nodes@.len() == n_count);
                    lemma_visible_upto_ok(
                        self.store.nodes@,
                        self.current_depth,
                        scope_of(self.selected_parents@),
                        self.store.nodes@.len() as int,
                    );
                }
                let ix = self.display_items.items[i];
                let id = self.store.nodes[ix].id.clone();
                self.selected_parents.push(id);
                self.current_depth = self.current_depth + 1;
                self.init_display_items();
                if self.display_items.items.len() == 1 {
                    self.display_items.select(0);
                    self.deeper();
                }
            }
        }
    }

    /// Ascends one level, dropping the innermost ancestor scope.  A
    /// no-op at depth 0: the state is left unchanged.
    pub fn higher(&mut self)
        requires
            old(self).wf(),
        ensures
            final(self).wf(),
            final(self).store == old(self).store,
            final(self).should_quit == old(self).should_quit,
            final(self).color_palette == old(self).color_palette,
            old(self).current_depth == 0 ==> *final(self) == *old(self),
            old(self).current_depth > 0 ==> {
                &&& final(self).current_depth == old(self).current_depth - 1
                &&& final(self).selected_parents@ == if old(self).selected_parents@.len() > 0 {
                    old(self).selected_parents@.drop_last()
                } else {
                    old(self).selected_parents@
                }
                &&& final(self).display_items.selected is None
            },
    {
        if self.current_depth > 0 {
            self.selected_parents.pop();
            self.current_depth = self.current_depth - 1;
            self.init_display_items();
        }
    }

    /// Selects the `index`-th visible object; a no-op when the index is
    /// out of range.
    pub fn select(&mut self, index: usize)
        requires
            old(self).wf(),
        ensures
            final(self).wf(),
            final(self).store == old(self).store,
            final(self).should_quit == old(self).should_quit,
            final(self).color_palette == old(self).color_palette,
            final(self).current_depth == old(self).current_depth,
            final(self).selected_parents == old(self).selected_parents,
            final(self).display_items.items == old(self).display_items.items,
            index < old(self).display_items.items@.len() ==> final(self).display_items.selected
                == Some(index),
            index >= old(self).display_items.items@.len() ==> *final(self) == *old(self),
    {
        self.display_items.select(index);
    }

    /// How deep the cursor currently is.
    pub fn current_depth(&self) -> (d: u16)
        ensures
            d == self.current_depth,
    {
        self.current_depth
    }

    /// The deepest level of the loaded store.
    pub fn max_depth(&self) -> (d: u16)
        ensures
            d == self.store.max_depth,
    {
        self.store.max_depth
    }

    /// How many objects are visible.
    pub fn visible_len(&self) -> (n: usize)
        ensures
            n == self.display_items.items@.len(),
    {
        self.display_items.items.len()
    }

    /// The `i`-th visible object.
    pub fn visible_node(&self, i: usize) -> (n: &ObjectNode)
        requires
            self.wf(),
            i < self.display_items.items@.len(),
        ensures
            *n == self.store.nodes@[self.display_items.items@[i as int] as int],
            vis_pred(*n, self.current_depth, scope_of(self.selected_parents@)),
    {
        let n_count = self.store.nodes.len();
        proof {
            assert(self.store.nodes@.len() == n_count);
            lemma_visible_upto_ok(
                self.store.nodes@,
                self.current_depth,
                scope_of(self.selected_parents@),
                self.store.nodes@.len() as int,
            );
        }
        let ix = self.display_items.items[i];
        &self.store.nodes[ix]
    }

    /// The position of the cursor in the visible list, if any.
    pub fn selected_index(&self) -> (r: Option<usize>)
        ensures
            r == self.display_items.selected,
    {
        self.display_items.selected
    }

    /// Renders one object of the loaded store as display text; the
    /// result is a function of the object and the store alone.
    pub fn summarize(&self, node: &ObjectNode) -> (r: String)
        ensures
            r@ == summarize_spec(*node, self.store.nodes@, self.store.types@, 0),
    {
        summarize(node, &self.store.nodes, &self.store.types, 0)
    }
}

/// After any transition that reestablishes the navigator invariant,
/// every visible object sits at the current depth, and under an ancestor
/// scope its parent is the selected ancestor.
pub proof fn lemma_visible_scoped(app: App)
    requires
        app.wf(),
        app.store.nodes@.len() <= usize::MAX,
    ensures
        forall|j: int|
            0 <= j < app.display_items.items@.len() ==> {
                let ix = #[trigger] app.display_items.items@[j];
                &&& ix < app.store.nodes@.len()
                &&& app.store.nodes@[ix as int].depth == app.current_depth
                &&& (app.selected_parents@.len() > 0 ==> match app.store.nodes@[
                    ix as int].parent_id {
                    Some(pid) => pid@ == app.selected_parents@.last()@,
                    None => false,
                })
            },
{
    lemma_visible_upto_ok(
        app.store.nodes@,
        app.current_depth,
        scope_of(app.selected_parents@),
        app.store.nodes@.len() as int,
    );
}

} // verus!
