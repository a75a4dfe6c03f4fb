use vstd::prelude::*;

verus! {

/// The name given to an entity's offset component.
pub const OFFSET_NAME: &'static str = "__offset_name__";

/// A 2D shift in whole pixels.
#[derive(Clone, Copy, Debug, PartialEq, Eq, Structural)]
pub struct Offset {
    pub x: i32,
    pub y: i32,
}

/// What a component carries: the reserved offset, or the application's own data.
pub enum ComponentBody<C> {
    Offset(Offset),
    Custom(C),
}

/// A leaf of the entity tree: a name to look it up by, a z-index among its
/// siblings, and its body.
pub struct Component<C> {
    pub name: String,
    pub zindex: i32,
    pub body: ComponentBody<C>,
}

/// Why a lookup by name failed.
#[derive(Clone, Copy, Debug, PartialEq, Eq, Structural)]
pub enum LookupError {
    /// No direct child carries the name.
    NotFound,
    /// The first component with the name is not of the requested kind.
    TypeMismatch,
}

/// One entry of an entity's ordered child list.
pub enum EntityChild<C> {
    Component(Component<C>),
    Entity(Entity<C>),
}

/// A node of the scene tree. It owns its children; `kind` tells the hook table
/// which per-entity behaviour to run for it.
pub struct Entity<C> {
    pub name: String,
    pub zindex: i32,
    /// Gates the update and event traversals.
    pub active: bool,
    /// Gates the render traversal.
    pub visible: bool,
    pub kind: u32,
    pub children: Vec<EntityChild<C>>,
}

impl<C> Component<C> {
    /// A component with the application's data `body`.
    pub fn new(name: &str, zindex: i32, body: C) -> (r: Self)
        ensures
            r.name@ == name@,
            r.zindex == zindex,
            r.body == ComponentBody::Custom(body),
    {
        Component { name: name.to_owned(), zindex, body: ComponentBody::Custom(body) }
    }

    /// The offset component, named `OFFSET_NAME`, at z-index 0.
    pub fn offset(x: i32, y: i32) -> (r: Self)
        ensures
            r.name@ == OFFSET_NAME@,
            r.zindex == 0,
            r.body == ComponentBody::<C>::Offset(Offset { x, y }),
    {
        Component { name: OFFSET_NAME.to_owned(), zindex: 0, body: ComponentBody::Offset(Offset { x, y }) }
    }
}

/// The z-index by which a child is ordered among its siblings.
pub open spec fn child_z<C>(c: EntityChild<C>) -> i32 {
    match c {
        EntityChild::Component(cmp) => cmp.zindex,
        EntityChild::Entity(e) => e.zindex,
    }
}

/// `c` is a component named `name`.
pub open spec fn is_component_named<C>(c: EntityChild<C>, name: Seq<char>) -> bool {
    c is Component && c->Component_0.name@ == name
}

/// `c` is a nested entity named `name`.
pub open spec fn is_entity_named<C>(c: EntityChild<C>, name: Seq<char>) -> bool {
    c is Entity && c->Entity_0.name@ == name
}

/// `i` is the first position in `cs` of a component named `name`.
pub open spec fn first_component_at<C>(cs: Seq<EntityChild<C>>, name: Seq<char>, i: int) -> bool {
    &&& 0 <= i < cs.len()
    &&& is_component_named(cs[i], name)
    &&& forall|j: int| 0 <= j < i ==> !is_component_named(#[trigger] cs[j], name)
}

/// `i` is the first position in `cs` of an entity named `name`.
pub open spec fn first_entity_at<C>(cs: Seq<EntityChild<C>>, name: Seq<char>, i: int) -> bool {
    &&& 0 <= i < cs.len()
    &&& is_entity_named(cs[i], name)
    &&& forall|j: int| 0 <= j < i ==> !is_entity_named(#[trigger] cs[j], name)
}

/// Where a lookup of the component `name` lands in `cs`, if anywhere.
pub open spec fn component_slot<C>(cs: Seq<EntityChild<C>>, name: Seq<char>) -> Option<int> {
    if exists|i: int| first_component_at(cs, name, i) {
        Some(choose|i: int| first_component_at(cs, name, i))
    } else {
        None
    }
}

/// Where a lookup of the child entity `name` lands in `cs`, if anywhere.
pub open spec fn entity_slot<C>(cs: Seq<EntityChild<C>>, name: Seq<char>) -> Option<int> {
    if exists|i: int| first_entity_at(cs, name, i) {
        Some(choose|i: int| first_entity_at(cs, name, i))
    } else {
        None
    }
}

/// A first position is unique.
pub proof fn lemma_first_component_unique<C>(cs: Seq<EntityChild<C>>, name: Seq<char>, i: int)
    requires
        first_component_at(cs, name, i),
    ensures
        component_slot(cs, name) == Some(i),
{
    let k = choose|k: int| first_component_at(cs, name, k);
    if k < i {
        assert(!is_component_named(cs[k], name));
    } else if i < k {
        assert(!is_component_named(cs[i], name));
    }
}

/// A first position is unique.
pub proof fn lemma_first_entity_unique<C>(cs: Seq<EntityChild<C>>, name: Seq<char>, i: int)
    requires
        first_entity_at(cs, name, i),
    ensures
        entity_slot(cs, name) == Some(i),
{
    let k = choose|k: int| first_entity_at(cs, name, k);
    if k < i {
        assert(!is_entity_named(cs[k], name));
    } else if i < k {
        assert(!is_entity_named(cs[i], name));
    }
}


/// The number of entity levels in `e`, itself included.
pub open spec fn height<C>(e: Entity<C>) -> nat
    decreases e,
{
    1 + children_height(e.children@)
}

/// The greatest height among the entities in `cs`, 0 where there is none.
pub open spec fn children_height<C>(cs: Seq<EntityChild<C>>) -> nat
    decreases cs,
{
    if cs.len() == 0 {
        0
    } else {
        let h = child_height(cs[cs.len() - 1]);
        let rest = children_height(cs.subrange(0, cs.len() - 1));
        if h > rest {
            h
        } else {
            rest
        }
    }
}

/// The height of a child: that of a nested entity, 0 for a component.
pub open spec fn child_height<C>(c: EntityChild<C>) -> nat
    decreases c,
{
    match c {
        EntityChild::Entity(e) => height(e),
        EntityChild::Component(_) => 0,
    }
}

/// Lowering children lowers the list.
pub proof fn lemma_children_height_mono<C>(a: Seq<EntityChild<C>>, b: Seq<EntityChild<C>>)
    requires
        a.len() == b.len(),
        forall|k: int| 0 <= k < a.len() ==> child_height(#[trigger] a[k]) <= child_height(b[k]),
    ensures
        children_height(a) <= children_height(b),
    decreases a.len(),
{
    if a.len() > 0 {
        let n = a.len() - 1;
        let a2 = a.subrange(0, n);
        let b2 = b.subrange(0, n);
        assert forall|k: int| 0 <= k < a2.len() implies child_height(#[trigger] a2[k]) <= child_height(
            b2[k],
        ) by {
            assert(a2[k] == a[k] && b2[k] == b[k]);
        }
        lemma_children_height_mono(a2, b2);
    }
}

/// A child entity is lower than the list that holds it.
pub proof fn lemma_child_height<C>(cs: Seq<EntityChild<C>>, j: int)
    requires
        0 <= j < cs.len(),
        cs[j] is Entity,
    ensures
        height(cs[j]->Entity_0) <= children_height(cs),
    decreases cs.len(),
{
    assert(child_height(cs[j]) == height(cs[j]->Entity_0));
    if j < cs.len() - 1 {
        let rest = cs.subrange(0, cs.len() - 1);
        assert(rest[j] == cs[j]);
        lemma_child_height(rest, j);
    }
}

/// `s` with `x` placed after every element whose z-index is not above `x`'s,
/// and before the run of greater ones at its end.
pub open spec fn insert_by_z<C>(s: Seq<EntityChild<C>>, x: EntityChild<C>) -> Seq<EntityChild<C>>
    decreases s.len(),
{
    if s.len() == 0 {
        seq![x]
    } else if child_z(s.last()) <= child_z(x) {
        s.push(x)
    } else {
        insert_by_z(s.drop_last(), x).push(s.last())
    }
}

/// `cs` ordered by z-index, by insertion: children with equal z-index keep their order.
pub open spec fn sort_level<C>(cs: Seq<EntityChild<C>>) -> Seq<EntityChild<C>>
    decreases cs.len(),
{
    if cs.len() == 0 {
        cs
    } else {
        insert_by_z(sort_level(cs.drop_last()), cs.last())
    }
}

/// Inserting keeps every element and adds `x`.
pub proof fn lemma_insert_by_z_members<C>(s: Seq<EntityChild<C>>, x: EntityChild<C>)
    ensures
        insert_by_z(s, x).len() == s.len() + 1,
        forall|k: int|
            0 <= k < insert_by_z(s, x).len() ==> #[trigger] insert_by_z(s, x)[k] == x || s.contains(
                insert_by_z(s, x)[k],
            ),
    decreases s.len(),
{
    if s.len() > 0 && child_z(s.last()) > child_z(x) {
        let t = s.drop_last();
        lemma_insert_by_z_members(t, x);
        assert forall|k: int| 0 <= k < insert_by_z(s, x).len() implies #[trigger] insert_by_z(s, x)[k]
            == x || s.contains(insert_by_z(s, x)[k]) by {
            if k < t.len() + 1 {
                if insert_by_z(t, x)[k] != x {
                    let m = choose|m: int| 0 <= m < t.len() && t[m] == insert_by_z(t, x)[k];
                    assert(s[m] == t[m]);
                }
            } else {
                assert(s[s.len() - 1] == s.last());
            }
        }
    } else if s.len() > 0 {
        assert forall|k: int| 0 <= k < insert_by_z(s, x).len() implies #[trigger] insert_by_z(s, x)[k]
            == x || s.contains(insert_by_z(s, x)[k]) by {
            if k < s.len() {
                assert(s[k] == insert_by_z(s, x)[k]);
            }
        }
    }
}

/// Sorting a level moves its children and keeps their number.
pub proof fn lemma_sort_level_members<C>(cs: Seq<EntityChild<C>>)
    ensures
        sort_level(cs).len() == cs.len(),
        forall|k: int| 0 <= k < cs.len() ==> cs.contains(#[trigger] sort_level(cs)[k]),
    decreases cs.len(),
{
    if cs.len() > 0 {
        let t = cs.drop_last();
        lemma_sort_level_members(t);
        lemma_insert_by_z_members(sort_level(t), cs.last());
        assert forall|k: int| 0 <= k < cs.len() implies cs.contains(#[trigger] sort_level(cs)[k]) by {
            let y = sort_level(cs)[k];
            if y == cs.last() {
                assert(cs[cs.len() - 1] == y);
            } else {
                let m = choose|m: int| 0 <= m < t.len() && sort_level(t)[m] == y;
                let q = choose|q: int| 0 <= q < t.len() && t[q] == sort_level(t)[m];
                assert(cs[q] == t[q]);
            }
        }
    }
}

/// A list whose children are all at most `m` high is at most `m` high.
pub proof fn lemma_children_height_bound<C>(cs: Seq<EntityChild<C>>, m: nat)
    requires
        forall|i: int| 0 <= i < cs.len() ==> child_height(#[trigger] cs[i]) <= m,
    ensures
        children_height(cs) <= m,
    decreases cs.len(),
{
    if cs.len() > 0 {
        let t = cs.subrange(0, cs.len() - 1);
        assert forall|i: int| 0 <= i < t.len() implies child_height(#[trigger] t[i]) <= m by {
            assert(t[i] == cs[i]);
        }
        lemma_children_height_bound(t, m);
    }
}

/// Reordering never makes a tree higher.
pub proof fn lemma_reordering_keeps_height<C>(before: Entity<C>, after: Entity<C>)
    requires
        is_reordering(before, after),
    ensures
        height(after) <= height(before),
    decreases after,
{
    let cs = before.children@;
    let s = sort_level(cs);
    let a = after.children@;
    lemma_sort_level_members(cs);
    assert forall|i: int| 0 <= i < a.len() implies child_height(#[trigger] a[i]) <= children_height(cs) by {
        assert(child_reordered(s[i], a[i]));
        let j = choose|j: int| 0 <= j < cs.len() && cs[j] == s[i];
        if let EntityChild::Entity(e) = a[i] {
            lemma_reordering_keeps_height(s[i]->Entity_0, e);
            lemma_child_height(cs, j);
        }
    }
    lemma_children_height_bound(a, children_height(cs));
}

/// `after` is `before` with every level of its tree ordered by z-index.
pub open spec fn is_reordering<C>(before: Entity<C>, after: Entity<C>) -> bool
    decreases after,
{
    &&& after.same_fields(&before)
    &&& after.children@.len() == before.children@.len()
    &&& forall|i: int|
        0 <= i < after.children@.len() ==> child_reordered(
            sort_level(before.children@)[i],
            #[trigger] after.children@[i],
        )
}

/// `after` is `before` with its subtree, if any, ordered by z-index.
pub open spec fn child_reordered<C>(before: EntityChild<C>, after: EntityChild<C>) -> bool
    decreases after,
{
    match after {
        EntityChild::Component(_) => before == after,
        EntityChild::Entity(e) => before is Entity && is_reordering(before->Entity_0, e),
    }
}


/// What a render step asks of the caller.
#[derive(Clone, Copy, Debug, PartialEq, Eq, Structural)]
pub enum StepKind {
    /// Run the pre-render hook of the entity at `path`.
    PreRender,
    /// Draw the component at `path`.
    Draw,
}

/// One step of a render pass: what to do, to which node (by child positions
/// from the root), and at which accumulated offset.
pub struct RenderStep {
    pub kind: StepKind,
    pub path: Vec<usize>,
    pub offset: Offset,
}

impl View for RenderStep {
    type V = (StepKind, Seq<usize>, int, int);

    open spec fn view(&self) -> (StepKind, Seq<usize>, int, int) {
        (self.kind, self.path@, self.offset.x as int, self.offset.y as int)
    }
}

/// The views of `s`, in order.
pub open spec fn step_views(s: Seq<RenderStep>) -> Seq<(StepKind, Seq<usize>, int, int)> {
    s.map_values(|r: RenderStep| r@)
}

/// `v` is a value of `i32`.
pub open spec fn in_i32(v: int) -> bool {
    i32::MIN <= v <= i32::MAX
}

/// The offset that the children `cs` carry: that of the first component
/// named `OFFSET_NAME`, where that component is an offset; none otherwise.
pub open spec fn first_offset<C>(cs: Seq<EntityChild<C>>) -> Option<Offset> {
    match component_slot(cs, OFFSET_NAME@) {
        Some(i) => match cs[i]->Component_0.body {
            ComponentBody::Offset(o) => Some(o),
            ComponentBody::Custom(_) => None,
        },
        None => None,
    }
}

/// The offset of `e`'s subtree: the parent's plus that of `e`'s own
/// offset component, if it has one.
pub open spec fn entity_offset<C>(e: Entity<C>, px: int, py: int) -> (int, int) {
    match first_offset(e.children@) {
        Some(o) => (px + o.x, py + o.y),
        None => (px, py),
    }
}

/// The steps of a render pass over `e` at `path`, under the offset `(px, py)`:
/// nothing where `e` is hidden; else its pre-render hook, then its children in
/// list order, each component drawn and each entity rendered in turn.
pub open spec fn render_plan<C>(e: Entity<C>, px: int, py: int, path: Seq<usize>) -> Seq<
    (StepKind, Seq<usize>, int, int),
>
    decreases e,
{
    if !e.visible {
        seq![]
    } else {
        let o = entity_offset(e, px, py);
        seq![(StepKind::PreRender, path, o.0, o.1)] + children_plan(e.children@, o.0, o.1, path)
    }
}

/// The steps for the children `cs` of the entity at `path`, shifted by `(ox, oy)`.
pub open spec fn children_plan<C>(cs: Seq<EntityChild<C>>, ox: int, oy: int, path: Seq<usize>) -> Seq<
    (StepKind, Seq<usize>, int, int),
>
    decreases cs,
{
    if cs.len() == 0 {
        seq![]
    } else {
        let i = cs.len() - 1;
        children_plan(cs.subrange(0, i), ox, oy, path) + match cs[i] {
            EntityChild::Component(_) => seq![(StepKind::Draw, path.push(i as usize), ox, oy)],
            EntityChild::Entity(c) => render_plan(c, ox, oy, path.push(i as usize)),
        }
    }
}

/// Every offset that a render pass over `e` under `(px, py)` computes is an `i32`.
pub open spec fn offsets_fit<C>(e: Entity<C>, px: int, py: int) -> bool
    decreases e,
{
    let o = entity_offset(e, px, py);
    !e.visible || (in_i32(o.0) && in_i32(o.1) && children_fit(e.children@, o.0, o.1))
}

/// Every offset computed below the children `cs`, shifted by `(ox, oy)`, is an `i32`.
pub open spec fn children_fit<C>(cs: Seq<EntityChild<C>>, ox: int, oy: int) -> bool
    decreases cs,
{
    if cs.len() == 0 {
        true
    } else {
        let i = cs.len() - 1;
        children_fit(cs.subrange(0, i), ox, oy) && match cs[i] {
            EntityChild::Component(_) => true,
            EntityChild::Entity(c) => offsets_fit(c, ox, oy),
        }
    }
}

/// A list whose first `i` children do not fit does not fit as a whole.
pub proof fn lemma_children_fit_prefix<C>(cs: Seq<EntityChild<C>>, ox: int, oy: int, i: int, n: int)
    requires
        0 <= i <= n,
        n == cs.len(),
        !children_fit(cs.subrange(0, i), ox, oy),
    ensures
        !children_fit(cs, ox, oy),
    decreases n - i,
{
    if i < n {
        assert(cs.subrange(0, i + 1).subrange(0, i) =~= cs.subrange(0, i));
        lemma_children_fit_prefix(cs, ox, oy, i + 1, n);
    } else {
        assert(cs.subrange(0, n) =~= cs);
    }
}

fn copy_path(p: &Vec<usize>) -> (r: Vec<usize>)
    ensures
        r@ == p@,
{
    let mut r: Vec<usize> = Vec::new();
    let mut i: usize = 0;
    while i < p.len()
        invariant
            i <= p@.len(),
            r@ == p@.subrange(0, i as int),
        decreases p@.len() - i,
    {
        r.push(p[i]);
        i += 1;
        proof {
            assert(r@ =~= p@.subrange(0, i as int));
        }
    }
    proof {
        assert(p@.subrange(0, p@.len() as int) =~= p@);
    }
    r
}

/// The entity that `path` leads to from `e`, one child position per level.
pub open spec fn entity_at<C>(e: Entity<C>, path: Seq<usize>) -> Option<Entity<C>>
    decreases path.len(),
{
    if path.len() == 0 {
        Some(e)
    } else {
        let i = path[0] as int;
        if i < e.children@.len() && e.children@[i] is Entity {
            entity_at(e.children@[i]->Entity_0, path.drop_first())
        } else {
            None
        }
    }
}

/// The component that `path` leads to from `e`: its last position picks a
/// component of the entity that the rest of it leads to.
pub open spec fn component_at<C>(e: Entity<C>, path: Seq<usize>) -> Option<Component<C>> {
    if path.len() == 0 {
        None
    } else {
        match entity_at(e, path.drop_last()) {
            Some(p) => {
                let i = path.last() as int;
                if i < p.children@.len() && p.children@[i] is Component {
                    Some(p.children@[i]->Component_0)
                } else {
                    None
                }
            },
            None => None,
        }
    }
}

/// `after` is `before` with the entity at `path` replaced by `sub`.
pub open spec fn replaced_at<C>(before: Entity<C>, after: Entity<C>, path: Seq<usize>, sub: Entity<C>) -> bool
    decreases path.len(),
{
    if path.len() == 0 {
        after == sub
    } else {
        let i = path[0] as int;
        &&& after.same_fields(&before)
        &&& after.children@.len() == before.children@.len()
        &&& 0 <= i < after.children@.len()
        &&& forall|k: int|
            0 <= k < after.children@.len() && k != i ==> #[trigger] after.children@[k]
                == before.children@[k]
        &&& after.children@[i] is Entity
        &&& before.children@[i] is Entity
        &&& replaced_at(
            before.children@[i]->Entity_0,
            after.children@[i]->Entity_0,
            path.drop_first(),
            sub,
        )
    }
}

/// The per-entity behaviour that the application attaches to its entities:
/// `kind` on each entity tells the implementation which behaviour to run.
/// Implementations may change the entity they are given, but must not make
/// its tree deeper; each says, in `update_post` and `event_post`, what one
/// run of its hook does.
pub trait EntityFns<C, E>: Sized {
    /// One run of the update hook may take the hooks from `self` to `after`
    /// and the entity from `before_e` to `after_e`. An implementation that
    /// states nothing allows any such step.
    open spec fn update_post(&self, after: Self, before_e: Entity<C>, after_e: Entity<C>, dt_us: u64) -> bool {
        true
    }

    /// One run of the event hook with `ev` may take the hooks from `self` to
    /// `after` and the entity from `before_e` to `after_e`. An implementation
    /// that states nothing allows any such step.
    open spec fn event_post(&self, after: Self, before_e: Entity<C>, after_e: Entity<C>, ev: E) -> bool {
        true
    }

    /// Runs once per frame for each active entity, before its children, with
    /// the previous frame's duration in microseconds.
    fn update(&mut self, e: &mut Entity<C>, dt_us: u64)
        ensures
            old(self).update_post(*final(self), *old(e), *final(e), dt_us),
            height(*final(e)) <= height(*old(e)),
    ;

    /// Runs for each active entity that an event reaches, before its children.
    fn event(&mut self, e: &mut Entity<C>, ev: &E)
        ensures
            old(self).event_post(*final(self), *old(e), *final(e), *ev),
            height(*final(e)) <= height(*old(e)),
    ;

    /// Runs for each visible entity right before its children are drawn, with
    /// the offset of its subtree.
    fn prerender(&mut self, e: &mut Entity<C>, offset: Offset);
}

/// The behaviour that does nothing, at every hook.
pub struct NoFns;

impl<C, E> EntityFns<C, E> for NoFns {
    open spec fn update_post(&self, after: Self, before_e: Entity<C>, after_e: Entity<C>, dt_us: u64) -> bool {
        after_e == before_e
    }

    open spec fn event_post(&self, after: Self, before_e: Entity<C>, after_e: Entity<C>, ev: E) -> bool {
        after_e == before_e
    }

    fn update(&mut self, e: &mut Entity<C>, dt_us: u64) {
    }

    fn event(&mut self, e: &mut Entity<C>, ev: &E) {
    }

    fn prerender(&mut self, e: &mut Entity<C>, offset: Offset) {
    }
}

/// The update pass from hooks `h0` and entity `e0` may end in `h1` and `e1`:
/// an inactive entity is left as it is, with the hooks; an active one runs
/// its update hook, then the pass runs on each child entity in list order,
/// all with the same `dt`.
pub open spec fn update_pass<C, E, H: EntityFns<C, E>>(h0: H, e0: Entity<C>, h1: H, e1: Entity<C>, dt: u64) -> bool
    decreases e1, 2nat,
{
    if !e0.active {
        h1 == h0 && e1 == e0
    } else {
        exists|hm: H, em: Entity<C>, hs: Seq<H>|
            #![trigger h0.update_post(hm, e0, em, dt), hs.len()]
            update_run::<C, E, H>(h0, e0, hm, em, hs, h1, e1, dt)
    }
}

/// The update pass on an active entity, through the states `hm`, `em` after
/// its own hook and the hook states `hs` between its children.
pub open spec fn update_run<C, E, H: EntityFns<C, E>>(
    h0: H,
    e0: Entity<C>,
    hm: H,
    em: Entity<C>,
    hs: Seq<H>,
    h1: H,
    e1: Entity<C>,
    dt: u64,
) -> bool
    decreases e1, 1nat,
{
    &&& h0.update_post(hm, e0, em, dt)
    &&& e1.same_fields(&em)
    &&& hs.len() == em.children@.len() + 1
    &&& hs[0] == hm
    &&& hs[hs.len() - 1] == h1
    &&& update_children::<C, E, H>(hs, em.children@, e1.children@, dt)
}

/// The update pass over the children `before`, giving `after`, with hook states `hs` between them.
pub open spec fn update_children<C, E, H: EntityFns<C, E>>(
    hs: Seq<H>,
    before: Seq<EntityChild<C>>,
    after: Seq<EntityChild<C>>,
    dt: u64,
) -> bool
    decreases after, 0nat,
{
    &&& after.len() == before.len()
    &&& hs.len() == before.len() + 1
    &&& forall|i: int|
        0 <= i < after.len() ==> update_child::<C, E, H>(hs[i], before[i], hs[i + 1], #[trigger] after[i], dt)
}

/// The update pass over one child: a component is left as it is.
pub open spec fn update_child<C, E, H: EntityFns<C, E>>(
    h0: H,
    c0: EntityChild<C>,
    h1: H,
    c1: EntityChild<C>,
    dt: u64,
) -> bool
    decreases c1, 0nat,
{
    match c1 {
        EntityChild::Component(_) => c0 == c1 && h1 == h0,
        EntityChild::Entity(x1) => c0 is Entity && update_pass::<C, E, H>(h0, c0->Entity_0, h1, x1, dt),
    }
}

/// The event pass with `ev` from hooks `h0` and entity `e0` may end in `h1`
/// and `e1`: an inactive entity is left as it is, with the hooks; an active
/// one runs its event hook, then the pass runs on each child entity in list
/// order, all with the same `ev`. Components get no events.
pub open spec fn event_pass<C, E, H: EntityFns<C, E>>(h0: H, e0: Entity<C>, h1: H, e1: Entity<C>, ev: E) -> bool
    decreases e1, 2nat,
{
    if !e0.active {
        h1 == h0 && e1 == e0
    } else {
        exists|hm: H, em: Entity<C>, hs: Seq<H>|
            #![trigger h0.event_post(hm, e0, em, ev), hs.len()]
            event_run::<C, E, H>(h0, e0, hm, em, hs, h1, e1, ev)
    }
}

/// The event pass on an active entity, through the states `hm`, `em` after
/// its own hook and the hook states `hs` between its children.
pub open spec fn event_run<C, E, H: EntityFns<C, E>>(
    h0: H,
    e0: Entity<C>,
    hm: H,
    em: Entity<C>,
    hs: Seq<H>,
    h1: H,
    e1: Entity<C>,
    ev: E,
) -> bool
    decreases e1, 1nat,
{
    &&& h0.event_post(hm, e0, em, ev)
    &&& e1.same_fields(&em)
    &&& hs.len() == em.children@.len() + 1
    &&& hs[0] == hm
    &&& hs[hs.len() - 1] == h1
    &&& event_children::<C, E, H>(hs, em.children@, e1.children@, ev)
}

/// The event pass over the children `before`, giving `after`, with hook states `hs` between them.
pub open spec fn event_children<C, E, H: EntityFns<C, E>>(
    hs: Seq<H>,
    before: Seq<EntityChild<C>>,
    after: Seq<EntityChild<C>>,
    ev: E,
) -> bool
    decreases after, 0nat,
{
    &&& after.len() == before.len()
    &&& hs.len() == before.len() + 1
    &&& forall|i: int|
        0 <= i < after.len() ==> event_child::<C, E, H>(hs[i], before[i], hs[i + 1], #[trigger] after[i], ev)
}

/// The event pass over one child: a component is left as it is.
pub open spec fn event_child<C, E, H: EntityFns<C, E>>(
    h0: H,
    c0: EntityChild<C>,
    h1: H,
    c1: EntityChild<C>,
    ev: E,
) -> bool
    decreases c1, 0nat,
{
    match c1 {
        EntityChild::Component(_) => c0 == c1 && h1 == h0,
        EntityChild::Entity(x1) => c0 is Entity && event_pass::<C, E, H>(h0, c0->Entity_0, h1, x1, ev),
    }
}

impl<C> EntityChild<C> {
    /// The child's z-index.
    pub fn z_index(&self) -> (r: i32)
        ensures
            r == child_z(*self),
    {
        match self {
            EntityChild::Component(cmp) => cmp.zindex,
            EntityChild::Entity(e) => e.zindex,
        }
    }
}

/// Orders `v` by z-index, moving each child left past the greater ones before it.
fn sort_by_z<C>(v: &mut Vec<EntityChild<C>>)
    ensures
        final(v)@ == sort_level(old(v)@),
{
    let ghost orig = v@;
    let n = v.len();
    let mut i: usize = 0;
    while i < n
        invariant
            n == orig.len(),
            i <= n,
            v@.len() == n,
            v@.subrange(0, i as int) == sort_level(orig.subrange(0, i as int)),
            v@.subrange(i as int, n as int) == orig.subrange(i as int, n as int),
        decreases n - i,
    {
        let ghost sorted = v@.subrange(0, i as int);
        let ghost x = orig[i as int];
        let ghost rest = orig.subrange(i + 1, n as int);
        proof {
            assert(v@ =~= sorted + seq![x] + rest) by {
                assert(v@ =~= v@.subrange(0, i as int) + v@.subrange(i as int, n as int));
                assert(orig.subrange(i as int, n as int) =~= seq![x] + rest);
            }
            assert(sorted.subrange(0, i as int) =~= sorted);
            assert(sorted.subrange(i as int, i as int) =~= Seq::<EntityChild<C>>::empty());
        }
        let mut j: usize = i;
        while j > 0 && v[j - 1].z_index() > v[j].z_index()
            invariant
                0 <= j <= i < n,
                sorted.len() == i,
                v@ == sorted.subrange(0, j as int) + seq![x] + sorted.subrange(j as int, i as int)
                    + rest,
                insert_by_z(sorted, x) == insert_by_z(sorted.subrange(0, j as int), x)
                    + sorted.subrange(j as int, i as int),
            decreases j,
        {
            proof {
                let pre = sorted.subrange(0, j as int);
                assert(v@[j - 1] == sorted[j - 1]);
                assert(v@[j as int] == x);
                assert(pre.last() == sorted[j - 1]);
                assert(pre.drop_last() =~= sorted.subrange(0, j - 1));
                assert(sorted.subrange(j - 1, i as int) =~= seq![sorted[j - 1]] + sorted.subrange(
                    j as int,
                    i as int,
                ));
                assert(insert_by_z(pre, x) == insert_by_z(sorted.subrange(0, j - 1), x).push(
                    sorted[j - 1],
                ));
                assert(insert_by_z(sorted, x) =~= insert_by_z(sorted.subrange(0, j - 1), x)
                    + sorted.subrange(j - 1, i as int));
            }
            let c = v.remove(j);
            v.insert(j - 1, c);
            proof {
                assert(v@ =~= sorted.subrange(0, j - 1) + seq![x] + sorted.subrange(j - 1, i as int)
                    + rest);
            }
            j -= 1;
        }
        proof {
            let pre = sorted.subrange(0, j as int);
            let head = orig.subrange(0, i + 1);
            if j > 0 {
                assert(v@[j - 1] == sorted[j - 1]);
                assert(v@[j as int] == x);
                assert(pre.last() == sorted[j - 1]);
            } else {
                assert(pre =~= Seq::<EntityChild<C>>::empty());
            }
            assert(insert_by_z(pre, x) =~= pre.push(x));
            assert(head.drop_last() =~= orig.subrange(0, i as int));
            assert(head.last() == x);
            assert(v@.subrange(0, i + 1) =~= insert_by_z(sorted, x));
            assert(v@.subrange(i + 1, n as int) =~= orig.subrange(i + 1, n as int));
        }
        i += 1;
    }
    proof {
        assert(v@ =~= v@.subrange(0, n as int));
        assert(orig =~= orig.subrange(0, n as int));
    }
}

impl<C> Default for Entity<C> {
    /// An unnamed empty entity at z-index 0, active and visible, of kind 0.
    fn default() -> (r: Self)
        ensures
            r.name@ == Seq::<char>::empty(),
            r.kind == 0,
            r.zindex == 0,
            r.active,
            r.visible,
            r.children() == Seq::<EntityChild<C>>::empty(),
    {
        Entity { name: String::new(), zindex: 0, active: true, visible: true, kind: 0, children: Vec::new() }
    }
}

impl<C> Entity<C> {
    /// The ordered child list.
    pub open spec fn children(&self) -> Seq<EntityChild<C>> {
        self.children@
    }

    /// `self` and `other` agree on everything but the child list.
    pub open spec fn same_fields(&self, other: &Entity<C>) -> bool {
        &&& self.name == other.name
        &&& self.zindex == other.zindex
        &&& self.active == other.active
        &&& self.visible == other.visible
        &&& self.kind == other.kind
    }

    /// `self` and `other` hold the same fields and the same children.
    pub open spec fn same_as(&self, other: &Entity<C>) -> bool {
        self.same_fields(other) && self.children() == other.children()
    }

    /// An empty entity at z-index 0, active and visible.
    pub fn new(name: &str, kind: u32) -> (r: Self)
        ensures
            r.name@ == name@,
            r.kind == kind,
            r.zindex == 0,
            r.active,
            r.visible,
            r.children() == Seq::<EntityChild<C>>::empty(),
    {
        Entity { name: name.to_owned(), zindex: 0, active: true, visible: true, kind, children: Vec::new() }
    }

    /// Appends a component to the child list.
    pub fn add_component(&mut self, cmp: Component<C>)
        ensures
            final(self).same_fields(old(self)),
            final(self).children() == old(self).children().push(EntityChild::Component(cmp)),
    {
        self.children.push(EntityChild::Component(cmp));
    }

    /// Appends a nested entity to the child list; `self` owns it from now on.
    pub fn add_child(&mut self, ent: Entity<C>)
        ensures
            final(self).same_fields(old(self)),
            final(self).children() == old(self).children().push(EntityChild::Entity(ent)),
    {
        self.children.push(EntityChild::Entity(ent));
    }

    /// The number of direct children.
    pub fn child_count(&self) -> (r: usize)
        ensures
            r == self.children().len(),
    {
        self.children.len()
    }

    /// The direct child at `i`.
    pub fn child(&self, i: usize) -> (r: &EntityChild<C>)
        requires
            i < self.children().len(),
        ensures
            *r == self.children()[i as int],
    {
        &self.children[i]
    }


    /// The first direct child component named `name`, for reading and writing in place.
    pub fn find_component_by_name(&mut self, name: &str) -> (r: Result<&mut Component<C>, LookupError>)
        ensures
            match r {
                Ok(cmp) => {
                    &&& component_slot(old(self).children(), name@) is Some
                    &&& EntityChild::Component(*cmp) == old(self).children()[component_slot(
                        old(self).children(),
                        name@,
                    )->Some_0]
                    &&& final(self).same_fields(old(self))
                    &&& final(self).children() == old(self).children().update(
                        component_slot(old(self).children(), name@)->Some_0,
                        EntityChild::Component(*final(cmp)),
                    )
                },
                Err(e) => {
                    &&& e == LookupError::NotFound
                    &&& component_slot(old(self).children(), name@) is None
                    &&& *final(self) == *old(self)
                },
            },
    {
        match self.component_position(name) {
            Some(i) => {
                proof {
                    lemma_first_component_unique(self.children@, name@, i as int);
                }
                match &mut self.children[i] {
                    EntityChild::Component(cmp) => Ok(cmp),
                    EntityChild::Entity(_) => Err(LookupError::NotFound),
                }
            },
            None => Err(LookupError::NotFound),
        }
    }


    /// The application data of the first direct child component named `name`.
    /// Fails with `TypeMismatch` where that component is the reserved offset.
    pub fn find_component(&mut self, name: &str) -> (r: Result<&mut C, LookupError>)
        ensures
            match component_slot(old(self).children(), name@) {
                None => r is Err && r->Err_0 == LookupError::NotFound && *final(self) == *old(self),
                Some(i) => {
                    let cmp = old(self).children()[i]->Component_0;
                    match cmp.body {
                        ComponentBody::Offset(_) => r is Err && r->Err_0 == LookupError::TypeMismatch
                            && final(self).same_as(old(self)),
                        ComponentBody::Custom(data) => {
                            &&& r is Ok
                            &&& *r->Ok_0 == data
                            &&& final(self).same_fields(old(self))
                            &&& final(self).children() == old(self).children().update(
                                i,
                                EntityChild::Component(
                                    Component {
                                        name: cmp.name,
                                        zindex: cmp.zindex,
                                        body: ComponentBody::Custom(*final(r->Ok_0)),
                                    },
                                ),
                            )
                        },
                    }
                },
            },
    {
        match self.find_component_by_name(name) {
            Ok(cmp) => {
                if let ComponentBody::Offset(_) = &cmp.body {
                    proof {
                        let cs = old(self).children();
                        let i = component_slot(cs, name@)->Some_0;
                        assert(cs.update(i, cs[i]) =~= cs);
                    }
                    return Err(LookupError::TypeMismatch);
                }
                match &mut cmp.body {
                    ComponentBody::Custom(data) => Ok(data),
                    ComponentBody::Offset(_) => Err(LookupError::TypeMismatch),
                }
            },
            Err(e) => Err(e),
        }
    }

    /// The first direct child entity named `name`, for reading and writing in place.
    pub fn find_child_by_name(&mut self, name: &str) -> (r: Result<&mut Entity<C>, LookupError>)
        ensures
            match r {
                Ok(ent) => {
                    &&& entity_slot(old(self).children(), name@) is Some
                    &&& EntityChild::Entity(*ent) == old(self).children()[entity_slot(
                        old(self).children(),
                        name@,
                    )->Some_0]
                    &&& final(self).same_fields(old(self))
                    &&& final(self).children() == old(self).children().update(
                        entity_slot(old(self).children(), name@)->Some_0,
                        EntityChild::Entity(*final(ent)),
                    )
                },
                Err(e) => {
                    &&& e == LookupError::NotFound
                    &&& entity_slot(old(self).children(), name@) is None
                    &&& *final(self) == *old(self)
                },
            },
    {
        match self.entity_position(name) {
            Some(i) => {
                proof {
                    lemma_first_entity_unique(self.children@, name@, i as int);
                }
                match &mut self.children[i] {
                    EntityChild::Entity(ent) => Ok(ent),
                    EntityChild::Component(_) => Err(LookupError::NotFound),
                }
            },
            None => Err(LookupError::NotFound),
        }
    }


    /// Orders the child list by z-index, equal ones keeping their order, and
    /// does the same in every nested entity. Each level is ordered on its own.
    pub fn reorder_children(&mut self)
        ensures
            is_reordering(*old(self), *final(self)),
        decreases height(*old(self)),
    {
        let ghost before = *self;
        sort_by_z(&mut self.children);
        let ghost sorted = self.children@;
        proof {
            lemma_sort_level_members(before.children@);
        }
        let n = self.children.len();
        let mut i: usize = 0;
        while i < n
            invariant
                i <= n,
                n == sorted.len(),
                before == *old(self),
                sorted == sort_level(before.children@),
                sorted.len() == before.children@.len(),
                forall|k: int| 0 <= k < n ==> before.children@.contains(#[trigger] sorted[k]),
                self.same_fields(&before),
                self.children@.len() == n,
                forall|k: int| 0 <= k < i ==> child_reordered(sorted[k], #[trigger] self.children@[k]),
                forall|k: int| i <= k < n ==> #[trigger] self.children@[k] == sorted[k],
            decreases n - i,
        {
            match &mut self.children[i] {
                EntityChild::Entity(e) => {
                    proof {
                        let m = choose|m: int|
                            0 <= m < before.children@.len() && before.children@[m] == sorted[i as int];
                        lemma_child_height(before.children@, m);
                        assert(height(*e) < height(before));
                    }
                    e.reorder_children();
                },
                EntityChild::Component(_) => {},
            }
            i += 1;
        }
    }


    /// The offset that a render pass applies below `self`: that of the first
    /// direct component named `OFFSET_NAME`, where that component is an offset.
    pub fn own_offset(&self) -> (r: Option<Offset>)
        ensures
            r == first_offset(self.children()),
    {
        match self.component_position(OFFSET_NAME) {
            Some(i) => {
                proof {
                    lemma_first_component_unique(self.children@, OFFSET_NAME@, i as int);
                }
                match &self.children[i] {
                    EntityChild::Component(cmp) => match &cmp.body {
                        ComponentBody::Offset(o) => Some(*o),
                        ComponentBody::Custom(_) => None,
                    },
                    EntityChild::Entity(_) => None,
                }
            },
            None => None,
        }
    }

    /// The render pass over `self` under the offset `parent_offset`: the
    /// steps to run, in order, with paths from `self`. Fails where an offset
    /// leaves the range of `i32`.
    pub fn render_components(&self, parent_offset: Offset) -> (r: Option<Vec<RenderStep>>)
        ensures
            r is Some <==> offsets_fit(*self, parent_offset.x as int, parent_offset.y as int),
            r is Some ==> step_views(r->Some_0@) == render_plan(
                *self,
                parent_offset.x as int,
                parent_offset.y as int,
                seq![],
            ),
    {
        let mut path: Vec<usize> = Vec::new();
        let mut out: Vec<RenderStep> = Vec::new();
        let ok = self.render_into(parent_offset, &mut path, &mut out);
        proof {
            assert(step_views(Seq::<RenderStep>::empty()) =~= seq![]);
            assert(path@ =~= seq![]);
        }
        if ok {
            Some(out)
        } else {
            None
        }
    }

    fn render_into(&self, parent: Offset, path: &mut Vec<usize>, out: &mut Vec<RenderStep>) -> (ok: bool)
        ensures
            final(path)@ == old(path)@,
            ok == offsets_fit(*self, parent.x as int, parent.y as int),
            ok ==> step_views(final(out)@) == step_views(old(out)@) + render_plan(
                *self,
                parent.x as int,
                parent.y as int,
                old(path)@,
            ),
        decreases height(*self),
    {
        let ghost px = parent.x as int;
        let ghost py = parent.y as int;
        let ghost out0 = step_views(out@);
        let ghost p0 = path@;
        if !self.visible {
            proof {
                assert(step_views(out@) + seq![] =~= step_views(out@));
            }
            return true;
        }
        let (ox, oy) = match self.own_offset() {
            Some(o) => {
                let x = parent.x as i64 + o.x as i64;
                let y = parent.y as i64 + o.y as i64;
                if x < i32::MIN as i64 || x > i32::MAX as i64 || y < i32::MIN as i64 || y > i32::MAX as i64 {
                    return false;
                }
                (x as i32, y as i32)
            },
            None => (parent.x, parent.y),
        };
        let here = Offset { x: ox, y: oy };
        let ghost cs = self.children@;
        proof {
            assert(entity_offset(*self, px, py) == (ox as int, oy as int));
        }
        let step = RenderStep { kind: StepKind::PreRender, path: copy_path(path), offset: here };
        out.push(step);
        proof {
            assert(step_views(out@) =~= out0 + seq![(StepKind::PreRender, p0, ox as int, oy as int)]);
            assert(cs.subrange(0, 0) =~= Seq::<EntityChild<C>>::empty());
        }
        let n = self.children.len();
        let mut i: usize = 0;
        while i < n
            invariant
                i <= n,
                n == cs.len(),
                cs == self.children@,
                self.visible,
                path@ == p0,
                p0 == old(path)@,
                out0 == step_views(old(out)@),
                px == parent.x as int,
                py == parent.y as int,
                entity_offset(*self, px, py) == (ox as int, oy as int),
                here == (Offset { x: ox, y: oy }),
                children_fit(cs.subrange(0, i as int), ox as int, oy as int),
                step_views(out@) == out0 + seq![(StepKind::PreRender, p0, ox as int, oy as int)]
                    + children_plan(cs.subrange(0, i as int), ox as int, oy as int, p0),
            decreases n - i,
        {
            let ghost before = step_views(out@);
            proof {
                assert(cs.subrange(0, i + 1).subrange(0, i as int) =~= cs.subrange(0, i as int));
                assert(cs.subrange(0, i + 1)[i as int] == cs[i as int]);
            }
            match &self.children[i] {
                EntityChild::Component(_) => {
                    path.push(i);
                    let step = RenderStep { kind: StepKind::Draw, path: copy_path(path), offset: here };
                    path.pop();
                    out.push(step);
                    proof {
                        assert(path@ =~= p0);
                        assert(step_views(out@) =~= before + seq![
                            (StepKind::Draw, p0.push(i as usize), ox as int, oy as int),
                        ]);
                    }
                },
                EntityChild::Entity(e) => {
                    proof {
                        lemma_child_height(cs, i as int);
                    }
                    path.push(i);
                    let ok = e.render_into(here, path, out);
                    path.pop();
                    proof {
                        assert(path@ =~= p0);
                    }
                    if !ok {
                        proof {
                            assert(!children_fit(cs.subrange(0, i + 1), ox as int, oy as int));
                            lemma_children_fit_prefix(cs, ox as int, oy as int, i + 1, n as int);
                        }
                        return false;
                    }
                },
            }
            i += 1;
        }
        proof {
            assert(cs.subrange(0, n as int) =~= cs);
        }
        true
    }


    /// The update pass: where `self` is active, its update hook runs, then the
    /// pass goes on into each child entity in list order. An inactive entity
    /// and everything below it are left as they are.
    pub fn update<E, H: EntityFns<C, E>>(&mut self, fns: &mut H, dt_us: u64)
        ensures
            update_pass::<C, E, H>(*old(fns), *old(self), *final(fns), *final(self), dt_us),
            !old(self).active ==> *final(self) == *old(self) && *final(fns) == *old(fns),
            height(*final(self)) <= height(*old(self)),
        decreases height(*old(self)),
    {
        if !self.active {
            proof {
                assert(update_pass::<C, E, H>(*fns, *self, *final(fns), *final(self), dt_us));
            }
            return;
        }
        let ghost h0 = *fns;
        let ghost e0 = *self;
        fns.update(self, dt_us);
        let ghost mid = *self;
        let ghost hm = *fns;
        let ghost mut hs: Seq<H> = seq![hm];
        let n = self.children.len();
        let mut i: usize = 0;
        while i < n
            invariant
                i <= n,
                n == mid.children@.len(),
                height(mid) <= height(*old(self)),
                self.children@.len() == n,
                self.same_fields(&mid),
                hs.len() == i + 1,
                e0.active,
                e0 == *old(self),
                h0 == *old(fns),
                h0.update_post(hm, e0, mid, dt_us),
                hs[0] == hm,
                hs[i as int] == *fns,
                forall|k: int| i <= k < n ==> #[trigger] self.children@[k] == mid.children@[k],
                forall|k: int|
                    0 <= k < n ==> child_height(#[trigger] self.children@[k]) <= child_height(
                        mid.children@[k],
                    ),
                forall|k: int|
                    0 <= k < i ==> update_child::<C, E, H>(
                        hs[k],
                        mid.children@[k],
                        hs[k + 1],
                        #[trigger] self.children@[k],
                        dt_us,
                    ),
            decreases n - i,
        {
            let ghost before_child = self.children@[i as int];
            match &mut self.children[i] {
                EntityChild::Entity(e) => {
                    proof {
                        lemma_child_height(mid.children@, i as int);
                    }
                    e.update(fns, dt_us);
                },
                EntityChild::Component(_) => {},
            }
            proof {
                hs = hs.push(*fns);
                assert(update_child::<C, E, H>(hs[i as int], mid.children@[i as int], hs[i + 1], self.children@[i as int], dt_us));
            }
            i += 1;
        }
        proof {
            lemma_children_height_mono(self.children@, mid.children@);
            assert(update_children::<C, E, H>(hs, mid.children@, self.children@, dt_us));
            assert(update_run::<C, E, H>(h0, e0, hm, mid, hs, *fns, *self, dt_us));
            assert(update_run::<C, E, H>(h0, e0, hm, mid, hs, *final(fns), *final(self), dt_us));
            assert(update_pass::<C, E, H>(h0, e0, *final(fns), *final(self), dt_us));
        }
    }

    /// The event pass: where `self` is active, its event hook runs with `ev`,
    /// then the pass goes on into each child entity in list order. Components
    /// get no events. An inactive entity and everything below it are left as
    /// they are.
    pub fn handle_event<E, H: EntityFns<C, E>>(&mut self, fns: &mut H, ev: &E)
        ensures
            event_pass::<C, E, H>(*old(fns), *old(self), *final(fns), *final(self), *ev),
            !old(self).active ==> *final(self) == *old(self) && *final(fns) == *old(fns),
            height(*final(self)) <= height(*old(self)),
        decreases height(*old(self)),
    {
        if !self.active {
            proof {
                assert(event_pass::<C, E, H>(*fns, *self, *final(fns), *final(self), *ev));
            }
            return;
        }
        let ghost h0 = *fns;
        let ghost e0 = *self;
        fns.event(self, ev);
        let ghost mid = *self;
        let ghost hm = *fns;
        let ghost mut hs: Seq<H> = seq![hm];
        let n = self.children.len();
        let mut i: usize = 0;
        while i < n
            invariant
                i <= n,
                n == mid.children@.len(),
                height(mid) <= height(*old(self)),
                self.children@.len() == n,
                self.same_fields(&mid),
                hs.len() == i + 1,
                e0.active,
                e0 == *old(self),
                h0 == *old(fns),
                h0.event_post(hm, e0, mid, *ev),
                hs[0] == hm,
                hs[i as int] == *fns,
                forall|k: int| i <= k < n ==> #[trigger] self.children@[k] == mid.children@[k],
                forall|k: int|
                    0 <= k < n ==> child_height(#[trigger] self.children@[k]) <= child_height(
                        mid.children@[k],
                    ),
                forall|k: int|
                    0 <= k < i ==> event_child::<C, E, H>(
                        hs[k],
                        mid.children@[k],
                        hs[k + 1],
                        #[trigger] self.children@[k],
                        *ev,
                    ),
            decreases n - i,
        {
            let ghost before_child = self.children@[i as int];
            match &mut self.children[i] {
                EntityChild::Entity(e) => {
                    proof {
                        lemma_child_height(mid.children@, i as int);
                    }
                    e.handle_event(fns, ev);
                },
                EntityChild::Component(_) => {},
            }
            proof {
                hs = hs.push(*fns);
                assert(event_child::<C, E, H>(hs[i as int], mid.children@[i as int], hs[i + 1], self.children@[i as int], *ev));
            }
            i += 1;
        }
        proof {
            lemma_children_height_mono(self.children@, mid.children@);
            assert(event_children::<C, E, H>(hs, mid.children@, self.children@, *ev));
            assert(event_run::<C, E, H>(h0, e0, hm, mid, hs, *fns, *self, *ev));
            assert(event_run::<C, E, H>(h0, e0, hm, mid, hs, *final(fns), *final(self), *ev));
            assert(event_pass::<C, E, H>(h0, e0, *final(fns), *final(self), *ev));
        }
    }


    /// The entity that `path` leads to, for reading and writing in place.
    pub fn entity_at_mut(&mut self, path: &Vec<usize>) -> (r: Option<&mut Entity<C>>)
        ensures
            r is Some <==> entity_at(*old(self), path@) is Some,
            r is Some ==> *r->Some_0 == entity_at(*old(self), path@)->Some_0 && replaced_at(
                *old(self),
                *final(self),
                path@,
                *final(r->Some_0),
            ),
            r is None ==> *final(self) == *old(self),
    {
        proof {
            assert(path@.subrange(0, path@.len() as int) =~= path@);
        }
        if self.has_entity_at(path, 0) {
            self.entity_at_mut_from(path, 0)
        } else {
            None
        }
    }

    fn has_entity_at(&self, path: &Vec<usize>, from: usize) -> (r: bool)
        requires
            from <= path@.len(),
        ensures
            r == entity_at(*self, path@.subrange(from as int, path@.len() as int)) is Some,
        decreases path@.len() - from,
    {
        let ghost rest = path@.subrange(from as int, path@.len() as int);
        if from == path.len() {
            return true;
        }
        proof {
            assert(rest.drop_first() =~= path@.subrange(from + 1, path@.len() as int));
        }
        let i = path[from];
        if i >= self.children.len() {
            return false;
        }
        match &self.children[i] {
            EntityChild::Entity(e) => e.has_entity_at(path, from + 1),
            EntityChild::Component(_) => false,
        }
    }

    fn entity_at_mut_from(&mut self, path: &Vec<usize>, from: usize) -> (r: Option<&mut Entity<C>>)
        requires
            from <= path@.len(),
            entity_at(*old(self), path@.subrange(from as int, path@.len() as int)) is Some,
        ensures
            r is Some,
            *r->Some_0 == entity_at(*old(self), path@.subrange(from as int, path@.len() as int))->Some_0,
            replaced_at(
                *old(self),
                *final(self),
                path@.subrange(from as int, path@.len() as int),
                *final(r->Some_0),
            ),
        decreases path@.len() - from,
    {
        let ghost rest = path@.subrange(from as int, path@.len() as int);
        if from == path.len() {
            return Some(self);
        }
        proof {
            assert(rest.drop_first() =~= path@.subrange(from + 1, path@.len() as int));
        }
        let i = path[from];
        match &mut self.children[i] {
            EntityChild::Entity(e) => e.entity_at_mut_from(path, from + 1),
            EntityChild::Component(_) => None,
        }
    }

    /// The component that `path` leads to.
    pub fn component_at(&self, path: &Vec<usize>) -> (r: Option<&Component<C>>)
        ensures
            r is Some <==> component_at(*self, path@) is Some,
            r is Some ==> *r->Some_0 == component_at(*self, path@)->Some_0,
    {
        if path.len() == 0 {
            return None;
        }
        let last = path.len() - 1;
        let ghost head = path@.subrange(0, last as int);
        proof {
            assert(path@.drop_last() =~= head);
            assert(head.subrange(0, head.len() as int) =~= head);
        }
        match self.entity_at_prefix(path, 0, last) {
            Some(p) => {
                let i = path[last];
                if i < p.children.len() {
                    match &p.children[i] {
                        EntityChild::Component(c) => Some(c),
                        EntityChild::Entity(_) => None,
                    }
                } else {
                    None
                }
            },
            None => None,
        }
    }

    fn entity_at_prefix(&self, path: &Vec<usize>, from: usize, end: usize) -> (r: Option<&Entity<C>>)
        requires
            from <= end <= path@.len(),
        ensures
            r is Some <==> entity_at(*self, path@.subrange(from as int, end as int)) is Some,
            r is Some ==> *r->Some_0 == entity_at(*self, path@.subrange(from as int, end as int))->Some_0,
        decreases end - from,
    {
        let ghost rest = path@.subrange(from as int, end as int);
        if from == end {
            return Some(self);
        }
        proof {
            assert(rest.drop_first() =~= path@.subrange(from + 1, end as int));
        }
        let i = path[from];
        if i >= self.children.len() {
            return None;
        }
        match &self.children[i] {
            EntityChild::Entity(e) => e.entity_at_prefix(path, from + 1, end),
            EntityChild::Component(_) => None,
        }
    }

    fn component_position(&self, name: &str) -> (r: Option<usize>)
        ensures
            match r {
                Some(i) => first_component_at(self.children(), name@, i as int),
                None => forall|i: int|
                    0 <= i < self.children().len() ==> !is_component_named(
                        #[trigger] self.children()[i],
                        name@,
                    ),
            },
    {
        let key = name.to_owned();
        let mut i: usize = 0;
        while i < self.children.len()
            invariant
                i <= self.children@.len(),
                key@ == name@,
                forall|j: int| 0 <= j < i ==> !is_component_named(#[trigger] self.children@[j], name@),
            decreases self.children@.len() - i,
        {
            match &self.children[i] {
                EntityChild::Component(cmp) => {
                    if cmp.name == key {
                        return Some(i);
                    }
                },
                EntityChild::Entity(_) => {},
            }
            i += 1;
        }
        None
    }

    fn entity_position(&self, name: &str) -> (r: Option<usize>)
        ensures
            match r {
                Some(i) => first_entity_at(self.children(), name@, i as int),
                None => forall|i: int|
                    0 <= i < self.children().len() ==> !is_entity_named(
                        #[trigger] self.children()[i],
                        name@,
                    ),
            },
    {
        let key = name.to_owned();
        let mut i: usize = 0;
        while i < self.children.len()
            invariant
                i <= self.children@.len(),
                key@ == name@,
                forall|j: int| 0 <= j < i ==> !is_entity_named(#[trigger] self.children@[j], name@),
            decreases self.children@.len() - i,
        {
            match &self.children[i] {
                EntityChild::Entity(ent) => {
                    if ent.name == key {
                        return Some(i);
                    }
                },
                EntityChild::Component(_) => {},
            }
            i += 1;
        }
        None
    }
}

} // verus!

verus! {

/// The z-indexes along `s` never decrease.
pub open spec fn z_sorted<C>(s: Seq<EntityChild<C>>) -> bool {
    forall|i: int, j: int| 0 <= i < j < s.len() ==> child_z(#[trigger] s[i]) <= child_z(#[trigger] s[j])
}

/// Holds of the children whose z-index is `k`.
pub open spec fn z_is<C>(k: i32) -> spec_fn(EntityChild<C>) -> bool {
    |c: EntityChild<C>| child_z(c) == k
}

proof fn lemma_insert_by_z_sorted<C>(s: Seq<EntityChild<C>>, x: EntityChild<C>)
    requires
        z_sorted(s),
    ensures
        z_sorted(insert_by_z(s, x)),
    decreases s.len(),
{
    if s.len() > 0 && child_z(s.last()) > child_z(x) {
        let t = s.drop_last();
        let l = s.last();
        assert(z_sorted(t)) by {
            assert forall|i: int, j: int| 0 <= i < j < t.len() implies child_z(#[trigger] t[i])
                <= child_z(#[trigger] t[j]) by {
                assert(t[i] == s[i] && t[j] == s[j]);
            }
        }
        lemma_insert_by_z_sorted(t, x);
        lemma_insert_by_z_members(t, x);
        let u = insert_by_z(t, x);
        assert forall|i: int| 0 <= i < u.len() implies child_z(#[trigger] u[i]) <= child_z(l) by {
            if u[i] != x {
                let m = choose|m: int| 0 <= m < t.len() && t[m] == u[i];
                assert(s[m] == t[m]);
                assert(s[s.len() - 1] == l);
            }
        }
        assert(z_sorted(u.push(l))) by {
            assert forall|i: int, j: int| 0 <= i < j < u.push(l).len() implies child_z(
                #[trigger] u.push(l)[i],
            ) <= child_z(#[trigger] u.push(l)[j]) by {
                assert(u.push(l)[i] == u[i]);
                if j < u.len() {
                    assert(u.push(l)[j] == u[j]);
                }
            }
        }
    } else if s.len() > 0 {
        assert(z_sorted(s.push(x))) by {
            assert forall|i: int, j: int| 0 <= i < j < s.push(x).len() implies child_z(
                #[trigger] s.push(x)[i],
            ) <= child_z(#[trigger] s.push(x)[j]) by {
                assert(s.push(x)[i] == s[i]);
                assert(s[s.len() - 1] == s.last());
                if j < s.len() {
                    assert(s.push(x)[j] == s[j]);
                }
            }
        }
    }
}

proof fn lemma_insert_by_z_filter<C>(s: Seq<EntityChild<C>>, x: EntityChild<C>, k: i32)
    ensures
        insert_by_z(s, x).filter(z_is(k)) == s.push(x).filter(z_is(k)),
    decreases s.len(),
{
    broadcast use vstd::seq::Seq::lemma_filter_push;

    if s.len() > 0 && child_z(s.last()) > child_z(x) {
        let t = s.drop_last();
        let l = s.last();
        lemma_insert_by_z_filter(t, x, k);
        assert(s =~= t.push(l));
    }
}

/// Ordering one level by z-index leaves the z-indexes non-decreasing, and keeps
/// the children that share a z-index in the order they had before.
pub proof fn lemma_sort_level_sorted_and_stable<C>(cs: Seq<EntityChild<C>>)
    ensures
        z_sorted(sort_level(cs)),
        forall|k: i32| #[trigger] sort_level(cs).filter(z_is(k)) == cs.filter(z_is(k)),
    decreases cs.len(),
{
    broadcast use vstd::seq::Seq::lemma_filter_push;

    if cs.len() > 0 {
        let t = cs.drop_last();
        let l = cs.last();
        lemma_sort_level_sorted_and_stable(t);
        lemma_insert_by_z_sorted(sort_level(t), l);
        assert forall|k: i32| #[trigger] sort_level(cs).filter(z_is(k)) == cs.filter(z_is(k)) by {
            lemma_insert_by_z_filter(sort_level(t), l, k);
            assert(cs =~= t.push(l));
        }
    }
}

/// After `reorder_children`, the children of every level are in non-decreasing
/// z-index order, and each one is the reordered form of the child at the same
/// place in the stable ordering of the level before the call.
pub proof fn lemma_reordered_level_sorted<C>(before: Entity<C>, after: Entity<C>)
    requires
        is_reordering(before, after),
    ensures
        z_sorted(after.children()),
        forall|k: i32| #[trigger] sort_level(before.children()).filter(z_is(k))
            == before.children().filter(z_is(k)),
        forall|i: int|
            0 <= i < after.children().len() ==> child_z(#[trigger] after.children()[i]) == child_z(
                sort_level(before.children())[i],
            ),
{
    lemma_sort_level_sorted_and_stable(before.children());
    lemma_sort_level_members(before.children());
    let s = sort_level(before.children());
    let a = after.children();
    assert forall|i: int| 0 <= i < a.len() implies child_z(#[trigger] a[i]) == child_z(s[i]) by {
        assert(child_reordered(s[i], a[i]));
    }
    assert forall|i: int, j: int| 0 <= i < j < a.len() implies child_z(#[trigger] a[i]) <= child_z(
        #[trigger] a[j],
    ) by {
        assert(child_reordered(s[i], a[i]));
        assert(child_reordered(s[j], a[j]));
    }
}

} // verus!

verus! {

/// A write through a component lookup is what the next lookup of that name
/// finds: once the component at the lookup's position is replaced by one with
/// the same name, the lookup lands on the same position and sees the new value.
pub proof fn lemma_lookup_sees_write<C>(cs: Seq<EntityChild<C>>, name: Seq<char>, c: Component<C>)
    requires
        component_slot(cs, name) is Some,
        c.name@ == name,
    ensures
        ({
            let i = component_slot(cs, name)->Some_0;
            let after = cs.update(i, EntityChild::Component(c));
            component_slot(after, name) == Some(i) && after[i] == EntityChild::<C>::Component(c)
        }),
{
    let i = component_slot(cs, name)->Some_0;
    let after = cs.update(i, EntityChild::Component(c));
    assert(first_component_at(cs, name, i));
    assert forall|j: int| 0 <= j < i implies !is_component_named(#[trigger] after[j], name) by {
        assert(after[j] == cs[j]);
    }
    assert(first_component_at(after, name, i));
    lemma_first_component_unique(after, name, i);
}

/// The render pass looks at `visible` and not at `active`: two entities that
/// differ only in `active` give the same steps, and a hidden entity gives none.
pub proof fn lemma_render_ignores_active<C>(e: Entity<C>, f: Entity<C>, px: int, py: int, path: Seq<usize>)
    requires
        f.name == e.name,
        f.zindex == e.zindex,
        f.visible == e.visible,
        f.kind == e.kind,
        f.children() == e.children(),
    ensures
        render_plan(f, px, py, path) == render_plan(e, px, py, path),
        offsets_fit(f, px, py) == offsets_fit(e, px, py),
        !e.visible ==> render_plan(e, px, py, path) == Seq::<(StepKind, Seq<usize>, int, int)>::empty(),
{
}

} // verus!

verus! {

/// Visibility does not gate the update pass: on an active entity, visible or
/// not, the pass starts with one run of the entity's own update hook.
pub proof fn lemma_update_runs_hook_when_active<C, E, H: EntityFns<C, E>>(
    h0: H,
    e0: Entity<C>,
    h1: H,
    e1: Entity<C>,
    dt: u64,
)
    requires
        e0.active,
        update_pass::<C, E, H>(h0, e0, h1, e1, dt),
    ensures
        exists|hm: H, em: Entity<C>| #[trigger] h0.update_post(hm, e0, em, dt),
{
    let (hm, em, hs) = choose|hm: H, em: Entity<C>, hs: Seq<H>|
        #![trigger h0.update_post(hm, e0, em, dt), hs.len()]
        update_run::<C, E, H>(h0, e0, hm, em, hs, h1, e1, dt);
    assert(h0.update_post(hm, e0, em, dt));
}

/// Visibility does not gate the event pass: on an active entity, visible or
/// not, the pass starts with one run of the entity's own event hook.
pub proof fn lemma_event_runs_hook_when_active<C, E, H: EntityFns<C, E>>(
    h0: H,
    e0: Entity<C>,
    h1: H,
    e1: Entity<C>,
    ev: E,
)
    requires
        e0.active,
        event_pass::<C, E, H>(h0, e0, h1, e1, ev),
    ensures
        exists|hm: H, em: Entity<C>| #[trigger] h0.event_post(hm, e0, em, ev),
{
    let (hm, em, hs) = choose|hm: H, em: Entity<C>, hs: Seq<H>|
        #![trigger h0.event_post(hm, e0, em, ev), hs.len()]
        event_run::<C, E, H>(h0, e0, hm, em, hs, h1, e1, ev);
    assert(h0.event_post(hm, e0, em, ev));
}

} // verus!
