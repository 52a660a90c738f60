//! The placement tree: destinations grouped by nesting, and the order in
//! which they can be moved into place.

use vstd::prelude::*;
use crate::paths::{lemma_contains_transitive, path_below, strictly_contains};

verus! {

/// A destination and the place where its content is staged.
pub type Entry = (Seq<char>, Seq<char>);

/// The mathematical value of a `Location`: a destination, its staging path
/// and the destinations nested below it.
pub struct Placement {
    pub root: Seq<char>,
    pub temp: Seq<char>,
    pub children: Seq<Placement>,
}

/// A placement with nothing nested below it.
pub open spec fn leaf(root: Seq<char>, temp: Seq<char>) -> Placement {
    Placement { root, temp, children: Seq::empty() }
}

/// The pair that a placement contributes to the order.
pub open spec fn entry_of(node: Placement) -> Entry {
    (node.root, node.temp)
}

/// The order in which a placement and everything below it is moved into
/// place: the placement itself, then its children from the last to the
/// first, each with what lies below it.
pub open spec fn node_order(node: Placement) -> Seq<Entry>
    decreases node,
{
    seq![entry_of(node)] + forest_order(node.children)
}

/// The order in which a list of placements is moved into place: from the
/// last to the first, each with what lies below it.
pub open spec fn forest_order(forest: Seq<Placement>) -> Seq<Entry>
    decreases forest,
{
    if forest.len() == 0 {
        Seq::empty()
    } else {
        node_order(forest.last()) + forest_order(forest.drop_last())
    }
}

/// Whether some destination in `order` is an ancestor of `path`.
pub open spec fn holds(order: Seq<Entry>, path: Seq<char>) -> bool {
    exists|j: int| 0 <= j < order.len() && strictly_contains(#[trigger] order[j].0, path)
}

/// The position just behind the last destination in `order` that is an
/// ancestor of `path`; 0 where there is none.
pub open spec fn slot(order: Seq<Entry>, path: Seq<char>) -> int
    decreases order.len(),
{
    if order.len() == 0 {
        0
    } else if strictly_contains(order.last().0, path) {
        order.len() as int
    } else {
        slot(order.drop_last(), path)
    }
}

/// The index of the first placement in `forest` that is an ancestor of
/// `path`, or has one below it; the length of `forest` where there is none.
pub open spec fn first_taker(forest: Seq<Placement>, path: Seq<char>) -> int
    decreases forest.len(),
{
    if forest.len() == 0 {
        0
    } else if holds(node_order(forest[0]), path) {
        0
    } else {
        1 + first_taker(forest.skip(1), path)
    }
}

/// The placement after `path` was offered to it: the first child that can
/// take the path does so; if no child can and the placement itself is an
/// ancestor of the path, the path becomes its last child; otherwise nothing
/// changes. So the deepest ancestor gets the path.
pub open spec fn node_insert(node: Placement, path: Seq<char>, temp: Seq<char>) -> Placement
    decreases node,
{
    if holds(forest_order(node.children), path) {
        Placement { children: forest_insert(node.children, path, temp), ..node }
    } else if strictly_contains(node.root, path) {
        Placement { children: node.children.push(leaf(path, temp)), ..node }
    } else {
        node
    }
}

/// The placements after `path` was offered to each in turn: the first that
/// can take it does so, and the others stay as they are.
pub open spec fn forest_insert(forest: Seq<Placement>, path: Seq<char>, temp: Seq<char>) -> Seq<
    Placement,
>
    decreases forest,
{
    let taker = first_taker(forest, path);
    if 0 <= taker < forest.len() {
        forest.update(taker, node_insert(forest[taker], path, temp))
    } else {
        forest
    }
}

/// The roots of a tree after `path` was added: it goes to the first root that
/// can take it, and becomes a new last root where none can. Roots and
/// children that are there stay where they are, also where the new path is
/// an ancestor of theirs.
pub open spec fn roots_insert(roots: Seq<Placement>, path: Seq<char>, temp: Seq<char>) -> Seq<
    Placement,
> {
    if holds(forest_order(roots), path) {
        forest_insert(roots, path, temp)
    } else {
        roots.push(leaf(path, temp))
    }
}

/// The roots of the tree that results from adding `inputs` one after the
/// other to an empty tree.
pub open spec fn built(inputs: Seq<Entry>) -> Seq<Placement>
    decreases inputs.len(),
{
    if inputs.len() == 0 {
        Seq::empty()
    } else {
        roots_insert(built(inputs.drop_last()), inputs.last().0, inputs.last().1)
    }
}

/// Whether every destination in `order` comes before all destinations that
/// lie strictly below it.
pub open spec fn parent_first(order: Seq<Entry>) -> bool {
    forall|i: int, j: int|
        0 <= i < order.len() && 0 <= j < order.len() && strictly_contains(
            #[trigger] order[i].0,
            #[trigger] order[j].0,
        ) ==> i < j
}

/// Whether a placement is nested as destinations are: each of its children
/// lies below it, none of them lies below a child that stands before it, and
/// the same holds of every child.
pub open spec fn node_nested(node: Placement) -> bool
    decreases node,
{
    &&& forest_nested(node.children)
    &&& forall|i: int|
        0 <= i < node.children.len() ==> strictly_contains(
            node.root,
            (#[trigger] node.children[i]).root,
        )
}

/// Whether each of a list of placements is nested, and none of them lies
/// below one that stands before it in the list.
pub open spec fn forest_nested(forest: Seq<Placement>) -> bool
    decreases forest,
{
    &&& forall|i: int| 0 <= i < forest.len() ==> node_nested(#[trigger] forest[i])
    &&& forall|i: int, j: int|
        0 <= i < j < forest.len() ==> !strictly_contains(
            (#[trigger] forest[i]).root,
            (#[trigger] forest[j]).root,
        )
}

/// A destination to be created, with the destinations that have to be placed
/// after it.
#[derive(Debug, PartialEq)]
pub struct Location {
    /// The path that this location stands for.
    pub root: String,
    /// The path where its content is staged.
    pub temp: String,
    /// The locations that are placed after this one.
    pub children: Vec<Box<Location>>,
}

impl Location {
    /// The value of this location: its two paths and the values of its
    /// children, in order.
    pub open spec fn model(&self) -> Placement
        decreases self,
    {
        Placement {
            root: self.root@,
            temp: self.temp@,
            children: Seq::new(
                self.children@.len(),
                |i: int|
                    if 0 <= i < self.children@.len() {
                        self.children@[i].model()
                    } else {
                        arbitrary()
                    },
            ),
        }
    }

    /// Creates a location with no children.
    pub fn root(root: String, temp: String) -> (node: Location)
        ensures
            node@ == leaf(root@, temp@),
            node.root == root,
            node.temp == temp,
            node.children@.len() == 0,
            node_nested(node@),
    {
        let node = Location { root, temp, children: Vec::new() };
        assert(node.model().children =~= Seq::<Placement>::empty());
        node
    }

    /// Offers a path to this location: to each of its children in turn, then
    /// to the location itself. The first that is an ancestor of the path
    /// takes it as its new last child, and `None` is returned; if there is
    /// none, the location stays as it is and the path is handed back.
    pub fn recognize(&mut self, other: String, temp: String) -> (remainder: Option<String>)
        ensures
            remainder is None <==> holds(node_order(old(self)@), other@),
            final(self)@ == node_insert(old(self)@, other@, temp@),
            remainder matches Some(rest) ==> rest == other && final(self)@ == old(self)@,
            node_nested(old(self)@) ==> node_nested(final(self)@),
        decreases old(self)@,
    {
        let ghost before = self@;
        proof {
            if node_nested(before) {
                lemma_node_insert_nested(before, other@, temp@);
            }
        }
        let mut i: usize = 0;
        while i < self.children.len()
            invariant
                i <= self.children.len(),
                self@ == before,
                before == old(self)@,
                node_nested(before) ==> node_nested(node_insert(before, other@, temp@)),
                forall|k: int|
                    0 <= k < i ==> !holds(node_order(#[trigger] before.children[k]), other@),
            decreases self.children.len() - i,
        {
            let ghost kids = self.children@;
            assert(kids[i as int].model() == before.children[i as int]);
            let offered = self.children[i].recognize(other.clone(), temp.clone());
            if offered.is_none() {
                proof {
                    lemma_forest_holds(before.children, other@);
                    lemma_first_taker(before.children, other@);
                    lemma_holds_concat(
                        seq![entry_of(before)],
                        forest_order(before.children),
                        other@,
                    );
                    assert(self@.children =~= forest_insert(before.children, other@, temp@));
                }
                return None;
            }
            assert(self@.children =~= before.children);
            i += 1;
        }
        proof {
            lemma_forest_holds(before.children, other@);
            lemma_holds_concat(seq![entry_of(before)], forest_order(before.children), other@);
            let head = seq![entry_of(before)];
            assert(holds(head, other@) <==> strictly_contains(before.root, other@)) by {
                if strictly_contains(before.root, other@) {
                    assert(strictly_contains(head[0].0, other@));
                }
            }
        }
        if path_below(self.root.as_str(), other.as_str()) {
            let ghost path = other@;
            let ghost staged = temp@;
            self.children.push(Box::new(Location::root(other, temp)));
            assert(self@.children =~= before.children.push(leaf(path, staged)));
            None
        } else {
            Some(other)
        }
    }
}

impl Clone for Location {
    /// A copy of this location and of everything below it.
    fn clone(&self) -> (copy: Location)
        ensures
            copy@ == self@,
        decreases self,
    {
        let mut children: Vec<Box<Location>> = Vec::new();
        let mut i: usize = 0;
        while i < self.children.len()
            invariant
                i <= self.children.len(),
                children@.len() == i,
                forall|k: int|
                    0 <= k < i ==> (#[trigger] children@[k]).model() == self.children@[k].model(),
            decreases self.children.len() - i,
        {
            let child = (&*self.children[i]).clone();
            children.push(Box::new(child));
            i += 1;
        }
        let copy = Location { root: self.root.clone(), temp: self.temp.clone(), children };
        assert(copy.model().children =~= self.model().children);
        copy
    }
}

impl View for Location {
    type V = Placement;

    open spec fn view(&self) -> Placement {
        self.model()
    }
}

/// The values of a list of locations, in order.
pub open spec fn models(nodes: Seq<Location>) -> Seq<Placement> {
    nodes.map_values(|node: Location| node@)
}

/// The locations of a run, grouped so that each destination can be placed
/// before the destinations below it.
pub struct LayerTree {
    /// The locations that have no ancestor among those added before them.
    pub locations: Vec<Location>,
}

impl View for LayerTree {
    type V = Seq<Placement>;

    open spec fn view(&self) -> Seq<Placement> {
        models(self.locations@)
    }
}

impl Default for LayerTree {
    /// A tree without locations.
    fn default() -> (tree: LayerTree)
        ensures
            tree@ == Seq::<Placement>::empty(),
            tree.order() == Seq::<Entry>::empty(),
            forest_nested(tree@),
            parent_first(tree.order()),
    {
        let tree = LayerTree { locations: Vec::new() };
        tree
    }
}

impl LayerTree {
    /// The order in which the destinations of this tree are moved into place.
    pub open spec fn order(&self) -> Seq<Entry> {
        forest_order(self@)
    }

    /// Places a destination and its staging path into the tree. The path is
    /// offered to each root in turn; the first location, children before
    /// their parent, that is an ancestor of the path takes it as its new last
    /// child. Where there is none the path becomes a new last root.
    pub fn add(&mut self, path: String, temp: String)
        ensures
            final(self)@ == roots_insert(old(self)@, path@, temp@),
            final(self).order() == old(self).order().insert(
                slot(old(self).order(), path@),
                (path@, temp@),
            ),
            final(self).order().to_multiset() == old(self).order().to_multiset().insert(
                (path@, temp@),
            ),
            final(self).order().len() == old(self).order().len() + 1,
            parent_first(old(self).order()) ==> parent_first(final(self).order()),
            forest_nested(old(self)@) ==> forest_nested(final(self)@),
    {
        let ghost before = self@;
        let mut i: usize = 0;
        while i < self.locations.len()
            invariant
                i <= self.locations.len(),
                self@ == before,
                before == old(self)@,
                forall|k: int| 0 <= k < i ==> !holds(node_order(#[trigger] before[k]), path@),
            decreases self.locations.len() - i,
        {
            let offered = self.locations[i].recognize(path.clone(), temp.clone());
            if offered.is_none() {
                proof {
                    assert(holds(node_order(before[i as int]), path@));
                    lemma_forest_holds(before, path@);
                    lemma_first_taker(before, path@);
                    lemma_add(before, path@, temp@);
                }
                return ;
            }
            i += 1;
        }
        let ghost final_path = path@;
        let ghost staged = temp@;
        self.locations.push(Location::root(path, temp));
        proof {
            lemma_forest_holds(before, final_path);
            assert(self@ =~= before.push(leaf(final_path, staged)));
            lemma_add(before, final_path, staged);
        }
    }

    /// Empties the tree into the order in which its destinations are moved
    /// into place: every location before its children, and of two locations
    /// side by side the later one first, with all that lies below it.
    pub fn consume(self) -> (order: Vec<(String, String)>)
        ensures
            order.deep_view() == self.order(),
            parent_first(self.order()) ==> parent_first(order.deep_view()),
    {
        let ghost whole = forest_order(self@);
        let mut out: Vec<(String, String)> = Vec::new();
        let mut queue = self.locations;
        while queue.len() > 0
            invariant
                out.deep_view() + forest_order(models(queue@)) == whole,
            decreases forest_order(models(queue@)).len(),
        {
            let ghost waiting = models(queue@);
            let current = queue.pop().unwrap();
            let ghost rest = models(queue@);
            assert(rest =~= waiting.drop_last());
            let Location { root, temp, children } = current;
            let ghost below = current@.children;
            out.push((root, temp));
            for child in walk: children
                invariant
                    walk.seq().len() == below.len(),
                    forall|k: int|
                        0 <= k < below.len() ==> (#[trigger] walk.seq()[k])@ == below[k],
                    models(queue@) == rest + below.take(walk.index() as int),
            {
                let ghost at = walk.index() as int;
                let ghost queued = queue@;
                queue.push(*child);
                assert(models(queue@) =~= models(queued).push(below[at]));
            }
            proof {
                let grown = rest + below;
                lemma_forest_order_split(grown, rest.len() as int);
                assert(grown.skip(rest.len() as int) =~= below);
                assert(grown.take(rest.len() as int) =~= rest);
                assert(models(queue@) == grown);
                assert(forest_order(waiting) == node_order(current@) + forest_order(rest));
            }
        }
        out
    }
}

/// The slot lies just behind the last ancestor of the path.
pub proof fn lemma_slot(order: Seq<Entry>, path: Seq<char>)
    ensures
        0 <= slot(order, path) <= order.len(),
        slot(order, path) > 0 <==> holds(order, path),
        slot(order, path) > 0 ==> strictly_contains(order[slot(order, path) - 1].0, path),
        forall|j: int|
            slot(order, path) <= j < order.len() ==> !strictly_contains(
                #[trigger] order[j].0,
                path,
            ),
    decreases order.len(),
{
    if order.len() > 0 {
        let rest = order.drop_last();
        lemma_slot(rest, path);
        if !strictly_contains(order.last().0, path) {
            assert forall|j: int| slot(order, path) <= j < order.len() implies !strictly_contains(
                #[trigger] order[j].0,
                path,
            ) by {
                if j < rest.len() {
                    assert(order[j] == rest[j]);
                }
            }
        }
    }
}

/// What adding a path does to the order of a tree: the new pair goes in at
/// the slot of its path, nothing else moves, nothing is lost, and parents
/// stay before what lies below them.
pub proof fn lemma_add(roots: Seq<Placement>, path: Seq<char>, temp: Seq<char>)
    ensures
        forest_order(roots_insert(roots, path, temp)) == forest_order(roots).insert(
            slot(forest_order(roots), path),
            (path, temp),
        ),
        forest_order(roots_insert(roots, path, temp)).to_multiset() == forest_order(
            roots,
        ).to_multiset().insert((path, temp)),
        forest_order(roots_insert(roots, path, temp)).len() == forest_order(roots).len() + 1,
        parent_first(forest_order(roots)) ==> parent_first(
            forest_order(roots_insert(roots, path, temp)),
        ),
        forest_nested(roots) ==> forest_nested(roots_insert(roots, path, temp)),
{
    let order = forest_order(roots);
    if forest_nested(roots) {
        lemma_roots_insert_nested(roots, path, temp);
    }
    lemma_roots_insert_order(roots, path, temp);
    lemma_slot(order, path);
    lemma_insert_multiset(order, slot(order, path), (path, temp));
    if parent_first(order) {
        lemma_slot_keeps_parent_first(order, path, temp);
    }
}

/// In whatever sequence destinations are added to an empty tree, the order
/// of the tree has every destination before all those strictly below it.
pub proof fn lemma_built_parent_first(inputs: Seq<Entry>)
    ensures
        parent_first(forest_order(built(inputs))),
    decreases inputs.len(),
{
    if inputs.len() > 0 {
        lemma_built_parent_first(inputs.drop_last());
        lemma_add(built(inputs.drop_last()), inputs.last().0, inputs.last().1);
    }
}

/// In whatever sequence destinations are added to an empty tree, the tree is
/// nested: what stands below a location lies below its destination, and
/// side by side no location lies below one that was there before it.
pub proof fn lemma_built_nested(inputs: Seq<Entry>)
    ensures
        forest_nested(built(inputs)),
    decreases inputs.len(),
{
    if inputs.len() > 0 {
        lemma_built_nested(inputs.drop_last());
        lemma_add(built(inputs.drop_last()), inputs.last().0, inputs.last().1);
    }
}

/// The order of a tree holds exactly the pairs that were added to it, each
/// as often as it was added.
pub proof fn lemma_built_partition(inputs: Seq<Entry>)
    ensures
        forest_order(built(inputs)).to_multiset() == inputs.to_multiset(),
        forest_order(built(inputs)).len() == inputs.len(),
    decreases inputs.len(),
{
    if inputs.len() == 0 {
        assert(forest_order(built(inputs)) =~= inputs);
    } else {
        let earlier = inputs.drop_last();
        lemma_built_partition(earlier);
        lemma_add(built(earlier), inputs.last().0, inputs.last().1);
        vstd::seq_lib::to_multiset_build(earlier, inputs.last());
        assert(earlier.push(inputs.last()) =~= inputs);
    }
}

/// Along a chain of destinations, each an ancestor of the next, the
/// positions in the order of a tree only grow, in whatever sequence the
/// destinations were added; `chain` lists the positions of the chain.
pub proof fn lemma_chain_in_order(inputs: Seq<Entry>, chain: Seq<int>)
    requires
        forall|k: int|
            0 <= k < chain.len() ==> 0 <= #[trigger] chain[k] < forest_order(built(inputs)).len(),
        forall|k: int|
            0 <= k < chain.len() - 1 ==> strictly_contains(
                forest_order(built(inputs))[#[trigger] chain[k]].0,
                forest_order(built(inputs))[chain[k + 1]].0,
            ),
    ensures
        forall|a: int, b: int| 0 <= a < b < chain.len() ==> chain[a] < chain[b],
{
    lemma_built_parent_first(inputs);
    assert forall|a: int, b: int| 0 <= a < b < chain.len() implies chain[a] < chain[b] by {
        lemma_chain_climbs(forest_order(built(inputs)), chain, a, b);
    }
}

/// Destinations of which none is an ancestor of another all become roots,
/// and leave the tree in the reverse of the sequence in which they were
/// added.
pub proof fn lemma_built_apart(inputs: Seq<Entry>)
    requires
        forall|i: int, j: int|
            0 <= i < inputs.len() && 0 <= j < inputs.len() && i != j ==> !strictly_contains(
                #[trigger] inputs[i].0,
                #[trigger] inputs[j].0,
            ),
    ensures
        built(inputs) == inputs.map_values(|entry: Entry| leaf(entry.0, entry.1)),
        forest_order(built(inputs)) == inputs.reverse(),
    decreases inputs.len(),
{
    if inputs.len() > 0 {
        let earlier = inputs.drop_last();
        let last = inputs.last();
        assert forall|i: int, j: int|
            0 <= i < earlier.len() && 0 <= j < earlier.len() && i != j implies !strictly_contains(
            #[trigger] earlier[i].0,
            #[trigger] earlier[j].0,
        ) by {}
        lemma_built_apart(earlier);
        let order = forest_order(built(earlier));
        assert(!holds(order, last.0));
        lemma_add(built(earlier), last.0, last.1);
        lemma_slot(order, last.0);
    }
}

proof fn lemma_chain_climbs(order: Seq<Entry>, chain: Seq<int>, a: int, b: int)
    requires
        parent_first(order),
        forall|k: int| 0 <= k < chain.len() ==> 0 <= #[trigger] chain[k] < order.len(),
        forall|k: int|
            0 <= k < chain.len() - 1 ==> strictly_contains(
                order[#[trigger] chain[k]].0,
                order[chain[k + 1]].0,
            ),
        0 <= a < b < chain.len(),
    ensures
        chain[a] < chain[b],
    decreases b - a,
{
    if a < b - 1 {
        lemma_chain_climbs(order, chain, a, b - 1);
    }
}

/// The order of a list with one more placement at its end starts with that
/// placement.
proof fn lemma_forest_order_push(forest: Seq<Placement>, node: Placement)
    ensures
        forest_order(forest.push(node)) == node_order(node) + forest_order(forest),
{
    assert(forest.push(node).drop_last() =~= forest);
}

/// A joined order has an ancestor of a path exactly when one of its two
/// parts has.
proof fn lemma_holds_concat(front: Seq<Entry>, back: Seq<Entry>, path: Seq<char>)
    ensures
        holds(front + back, path) == (holds(front, path) || holds(back, path)),
{
    let joined = front + back;
    if holds(front, path) {
        let j = choose|j: int|
            0 <= j < front.len() && strictly_contains(#[trigger] front[j].0, path);
        assert(joined[j] == front[j]);
    }
    if holds(back, path) {
        let j = choose|j: int| 0 <= j < back.len() && strictly_contains(#[trigger] back[j].0, path);
        assert(joined[front.len() + j] == back[j]);
    }
}

/// The slot of a joined order lies in its back part where that part has an
/// ancestor of the path, and in its front part otherwise.
proof fn lemma_slot_concat(front: Seq<Entry>, back: Seq<Entry>, path: Seq<char>)
    ensures
        slot(front + back, path) == if holds(back, path) {
            front.len() + slot(back, path)
        } else {
            slot(front, path)
        },
    decreases back.len(),
{
    let joined = front + back;
    if back.len() > 0 {
        let rest = back.drop_last();
        assert(joined.drop_last() =~= front + rest);
        lemma_slot_concat(front, rest, path);
        lemma_slot(back, path);
        lemma_slot(rest, path);
    }
}

/// A list of placements has an ancestor of a path exactly when one of them
/// has.
proof fn lemma_forest_holds(forest: Seq<Placement>, path: Seq<char>)
    ensures
        holds(forest_order(forest), path) <==> exists|i: int|
            0 <= i < forest.len() && holds(node_order(#[trigger] forest[i]), path),
    decreases forest.len(),
{
    if forest.len() > 0 {
        let rest = forest.drop_last();
        lemma_forest_holds(rest, path);
        lemma_holds_concat(node_order(forest.last()), forest_order(rest), path);
        if exists|i: int| 0 <= i < forest.len() && holds(node_order(#[trigger] forest[i]), path) {
            let i = choose|i: int|
                0 <= i < forest.len() && holds(node_order(#[trigger] forest[i]), path);
            if i < rest.len() {
                assert(forest[i] == rest[i]);
            }
        }
    }
}

/// The first taker is the least index of a placement that has an ancestor
/// of the path.
proof fn lemma_first_taker(forest: Seq<Placement>, path: Seq<char>)
    ensures
        0 <= first_taker(forest, path) <= forest.len(),
        first_taker(forest, path) < forest.len() ==> holds(
            node_order(forest[first_taker(forest, path)]),
            path,
        ),
        forall|i: int|
            0 <= i < first_taker(forest, path) ==> !holds(node_order(#[trigger] forest[i]), path),
    decreases forest.len(),
{
    if forest.len() > 0 && !holds(node_order(forest[0]), path) {
        let rest = forest.skip(1);
        lemma_first_taker(rest, path);
        assert forall|i: int| 0 <= i < first_taker(forest, path) implies !holds(
            node_order(#[trigger] forest[i]),
            path,
        ) by {
            if i > 0 {
                assert(forest[i] == rest[i - 1]);
            }
        }
    }
}

/// The order of a list of placements is that of its back part followed by
/// that of its front part.
proof fn lemma_forest_order_split(forest: Seq<Placement>, at: int)
    requires
        0 <= at <= forest.len(),
    ensures
        forest_order(forest) == forest_order(forest.skip(at)) + forest_order(forest.take(at)),
    decreases forest.len(),
{
    if at == forest.len() {
        assert(forest.take(at) =~= forest);
    } else {
        let rest = forest.drop_last();
        lemma_forest_order_split(rest, at);
        assert(rest.take(at) =~= forest.take(at));
        assert(forest.skip(at) =~= rest.skip(at).push(forest.last()));
        lemma_forest_order_push(rest.skip(at), forest.last());
    }
}

/// The order of a list of placements, cut around one of them.
proof fn lemma_forest_order_around(forest: Seq<Placement>, at: int)
    requires
        0 <= at < forest.len(),
    ensures
        forest_order(forest) == forest_order(forest.skip(at + 1)) + node_order(forest[at])
            + forest_order(forest.take(at)),
{
    lemma_forest_order_split(forest, at);
    let back = forest.skip(at);
    lemma_forest_order_split(back, 1);
    assert(back.skip(1) =~= forest.skip(at + 1));
    let single = back.take(1);
    assert(forest_order(single.drop_last()) =~= Seq::<Entry>::empty());
}

/// Offering a path to a placement that has an ancestor of it puts the new
/// pair into the order at the slot of the path, and leaves the rest of the
/// order as it was.
proof fn lemma_node_insert_order(node: Placement, path: Seq<char>, temp: Seq<char>)
    requires
        holds(node_order(node), path),
    ensures
        node_order(node_insert(node, path, temp)) == node_order(node).insert(
            slot(node_order(node), path),
            (path, temp),
        ),
    decreases node,
{
    let head = seq![entry_of(node)];
    let below = forest_order(node.children);
    lemma_slot_concat(head, below, path);
    if holds(below, path) {
        lemma_forest_insert_order(node.children, path, temp);
        lemma_slot(below, path);
    } else {
        lemma_forest_order_push(node.children, leaf(path, temp));
    }
}

/// Offering a path to a list of placements that has an ancestor of it puts
/// the new pair into the order at the slot of the path, and leaves the rest
/// of the order as it was.
proof fn lemma_forest_insert_order(forest: Seq<Placement>, path: Seq<char>, temp: Seq<char>)
    requires
        holds(forest_order(forest), path),
    ensures
        forest_order(forest_insert(forest, path, temp)) == forest_order(forest).insert(
            slot(forest_order(forest), path),
            (path, temp),
        ),
    decreases forest,
{
    let taker = first_taker(forest, path);
    lemma_first_taker(forest, path);
    lemma_forest_holds(forest, path);
    assert(taker < forest.len());
    let changed = node_insert(forest[taker], path, temp);
    let after = forest.update(taker, changed);
    lemma_node_insert_order(forest[taker], path, temp);
    lemma_forest_order_around(forest, taker);
    lemma_forest_order_around(after, taker);
    assert(after.skip(taker + 1) =~= forest.skip(taker + 1));
    assert(after.take(taker) =~= forest.take(taker));
    let late = forest_order(forest.skip(taker + 1));
    let own = node_order(forest[taker]);
    let early = forest_order(forest.take(taker));
    lemma_forest_holds(forest.take(taker), path);
    assert(!holds(early, path));
    lemma_slot_concat(late + own, early, path);
    lemma_slot_concat(late, own, path);
    lemma_slot(own, path);
}

/// Adding a path to a tree puts the new pair into the order at the slot of
/// the path, and leaves the rest of the order as it was.
proof fn lemma_roots_insert_order(roots: Seq<Placement>, path: Seq<char>, temp: Seq<char>)
    ensures
        forest_order(roots_insert(roots, path, temp)) == forest_order(roots).insert(
            slot(forest_order(roots), path),
            (path, temp),
        ),
{
    lemma_slot(forest_order(roots), path);
    if holds(forest_order(roots), path) {
        lemma_forest_insert_order(roots, path, temp);
    } else {
        lemma_forest_order_push(roots, leaf(path, temp));
    }
}

/// An order in which parents come first stays one when a pair is put in at
/// the slot of its path.
proof fn lemma_slot_keeps_parent_first(order: Seq<Entry>, path: Seq<char>, temp: Seq<char>)
    requires
        parent_first(order),
    ensures
        parent_first(order.insert(slot(order, path), (path, temp))),
{
    let at = slot(order, path);
    let after = order.insert(at, (path, temp));
    lemma_slot(order, path);
    assert forall|i: int, j: int|
        0 <= i < after.len() && 0 <= j < after.len() && strictly_contains(
            #[trigger] after[i].0,
            #[trigger] after[j].0,
        ) implies i < j by {
        let before_j = if j < at { j } else { j - 1 };
        if i == at && j != at && at > 0 {
            lemma_contains_transitive(order[at - 1].0, path, order[before_j].0);
        }
    }
}

/// Putting a pair into an order adds it to what the order holds, and takes
/// nothing away.
proof fn lemma_insert_multiset(order: Seq<Entry>, at: int, entry: Entry)
    requires
        0 <= at <= order.len(),
    ensures
        order.insert(at, entry).to_multiset() == order.to_multiset().insert(entry),
        order.insert(at, entry).len() == order.len() + 1,
{
    let after = order.insert(at, entry);
    assert(after.remove(at) =~= order);
    vstd::seq_lib::to_multiset_remove(after, at);
    after.to_multiset_ensures();
    assert(after.contains(entry));
}

/// A nested placement stays nested when a path is offered to it, and keeps
/// its own destination.
proof fn lemma_node_insert_nested(node: Placement, path: Seq<char>, temp: Seq<char>)
    requires
        node_nested(node),
    ensures
        node_nested(node_insert(node, path, temp)),
        node_insert(node, path, temp).root == node.root,
    decreases node,
{
    if holds(forest_order(node.children), path) {
        lemma_forest_insert_nested(node.children, path, temp);
    } else if strictly_contains(node.root, path) {
        let grown = node.children.push(leaf(path, temp));
        lemma_forest_holds(node.children, path);
        assert forall|i: int| 0 <= i < grown.len() implies node_nested(#[trigger] grown[i]) by {}
        assert forall|i: int, j: int| 0 <= i < j < grown.len() implies !strictly_contains(
            (#[trigger] grown[i]).root,
            (#[trigger] grown[j]).root,
        ) by {
            if j == node.children.len() {
                assert(!strictly_contains(node_order(node.children[i])[0].0, path));
            }
        }
        assert forall|i: int| 0 <= i < grown.len() implies strictly_contains(
            node.root,
            (#[trigger] grown[i]).root,
        ) by {}
    }
}

/// A nested list of placements stays nested when a path is offered to it,
/// and every placement in it keeps its own destination.
proof fn lemma_forest_insert_nested(forest: Seq<Placement>, path: Seq<char>, temp: Seq<char>)
    requires
        forest_nested(forest),
    ensures
        forest_nested(forest_insert(forest, path, temp)),
        forest_insert(forest, path, temp).len() == forest.len(),
        forall|i: int|
            0 <= i < forest.len() ==> (#[trigger] forest_insert(forest, path, temp)[i]).root
                == forest[i].root,
    decreases forest,
{
    let taker = first_taker(forest, path);
    lemma_first_taker(forest, path);
    if taker < forest.len() {
        lemma_node_insert_nested(forest[taker], path, temp);
        let after = forest_insert(forest, path, temp);
        assert forall|i: int| 0 <= i < after.len() implies node_nested(#[trigger] after[i]) by {}
        assert forall|i: int, j: int| 0 <= i < j < after.len() implies !strictly_contains(
            (#[trigger] after[i]).root,
            (#[trigger] after[j]).root,
        ) by {}
    }
}

/// A nested tree stays nested when a path is added to it.
proof fn lemma_roots_insert_nested(roots: Seq<Placement>, path: Seq<char>, temp: Seq<char>)
    requires
        forest_nested(roots),
    ensures
        forest_nested(roots_insert(roots, path, temp)),
{
    if holds(forest_order(roots), path) {
        lemma_forest_insert_nested(roots, path, temp);
    } else {
        let grown = roots.push(leaf(path, temp));
        lemma_forest_holds(roots, path);
        assert forall|i: int| 0 <= i < grown.len() implies node_nested(#[trigger] grown[i]) by {}
        assert forall|i: int, j: int| 0 <= i < j < grown.len() implies !strictly_contains(
            (#[trigger] grown[i]).root,
            (#[trigger] grown[j]).root,
        ) by {
            if j == roots.len() {
                assert(!strictly_contains(node_order(roots[i])[0].0, path));
            }
        }
    }
}

} // verus!
