use vstd::prelude::*;
use crate::entity::{
    event_pass, height, is_reordering, lemma_reordering_keeps_height, offsets_fit, render_plan, step_views,
    update_pass, Entity, EntityFns, Offset, RenderStep,
};

verus! {

/// The event passes for `evs`, one after another, through the hook states
/// `hs` and tree states `es`: pass `i` takes `hs[i]`, `es[i]` to `hs[i + 1]`,
/// `es[i + 1]` with `evs[i]`.
pub open spec fn events_run<C, E, H: EntityFns<C, E>>(hs: Seq<H>, es: Seq<Entity<C>>, evs: Seq<E>) -> bool {
    &&& hs.len() == evs.len() + 1
    &&& es.len() == evs.len() + 1
    &&& forall|i: int|
        0 <= i < evs.len() ==> #[trigger] event_pass::<C, E, H>(hs[i], es[i], hs[i + 1], es[i + 1], evs[i])
}

/// One frame from hooks `h0` and tree `e0` to `h1` and `e1`: the event passes
/// for `evs` in order (through `hs`, `es`), then the update pass with `dt`
/// (ending in the tree `eu`), then reordering, which leaves the hooks alone.
pub open spec fn frame_run<C, E, H: EntityFns<C, E>>(
    h0: H,
    e0: Entity<C>,
    evs: Seq<E>,
    dt: u64,
    hs: Seq<H>,
    es: Seq<Entity<C>>,
    eu: Entity<C>,
    h1: H,
    e1: Entity<C>,
) -> bool {
    &&& events_run::<C, E, H>(hs, es, evs)
    &&& hs[0] == h0
    &&& es[0] == e0
    &&& update_pass::<C, E, H>(hs[evs.len() as int], es[evs.len() as int], h1, eu, dt)
    &&& is_reordering(eu, e1)
    &&& height(eu) <= height(e0)
}

/// One frame of the tree, in the order the engine runs it: every event of
/// `events` through the event pass, in order; then the update pass with
/// `dt_us`; then the z-order of every level; then the render pass from the
/// origin, whose steps are returned for the caller to run. `None` where an
/// offset leaves the range of `i32`; the tree is updated and reordered even then.
pub fn run_frame<C, E, H: EntityFns<C, E>>(root: &mut Entity<C>, fns: &mut H, events: &Vec<E>, dt_us: u64) -> (r:
    Option<Vec<RenderStep>>)
    ensures
        exists|hs: Seq<H>, es: Seq<Entity<C>>, eu: Entity<C>|
            #[trigger] frame_run::<C, E, H>(*old(fns), *old(root), events@, dt_us, hs, es, eu, *final(fns), *final(root)),
        height(*final(root)) <= height(*old(root)),
        r is Some <==> offsets_fit(*final(root), 0, 0),
        r is Some ==> step_views(r->Some_0@) == render_plan(*final(root), 0, 0, seq![]),
{
    let ghost start = *root;
    let ghost start_fns = *fns;
    let ghost mut hs: Seq<H> = seq![*fns];
    let ghost mut es: Seq<Entity<C>> = seq![*root];
    let mut i: usize = 0;
    while i < events.len()
        invariant
            i <= events@.len(),
            height(*root) <= height(start),
            start == *old(root),
            start_fns == *old(fns),
            hs[0] == start_fns,
            es[0] == start,
            hs[i as int] == *fns,
            es[i as int] == *root,
            events_run::<C, E, H>(hs, es, events@.subrange(0, i as int)),
        decreases events@.len() - i,
    {
        root.handle_event(fns, &events[i]);
        proof {
            hs = hs.push(*fns);
            es = es.push(*root);
            let evs = events@.subrange(0, i + 1);
            assert forall|k: int| 0 <= k < evs.len() implies #[trigger] event_pass::<C, E, H>(
                hs[k],
                es[k],
                hs[k + 1],
                es[k + 1],
                evs[k],
            ) by {
                if k < i {
                    assert(evs[k] == events@.subrange(0, i as int)[k]);
                }
            }
        }
        i += 1;
    }
    proof {
        assert(events@.subrange(0, events@.len() as int) =~= events@);
    }
    root.update(fns, dt_us);
    let ghost settled = *root;
    root.reorder_children();
    proof {
        lemma_reordering_keeps_height(settled, *root);
        assert(frame_run::<C, E, H>(start_fns, start, events@, dt_us, hs, es, settled, *fns, *root));
    }
    let r = root.render_components(Offset { x: 0, y: 0 });
    proof {
        assert(frame_run::<C, E, H>(start_fns, start, events@, dt_us, hs, es, settled, *final(fns), *final(root)));
    }
    r
}

} // verus!
