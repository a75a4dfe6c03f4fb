use vstd::prelude::*;
use crate::resource::{AsyncLoadHandle, ImageLoadPayload};

verus! {

/// An asynchronous image load that finished: the request's handle and the
/// resulting texture.
#[derive(Clone, Copy, Debug, PartialEq, Eq, Structural)]
pub struct ImageLoadEventPayload {
    pub handle: AsyncLoadHandle,
    pub texture_id: u32,
    pub width: u32,
    pub height: u32,
}

/// A window or device input, as the window layer reports it.
#[derive(Clone, Copy, Debug, PartialEq, Eq, Structural)]
pub enum InputEvent {
    Closed,
    KeyPressed(u32),
    KeyReleased(u32),
    MouseMoved(i32, i32),
    MouseButtonPressed(u32, i32, i32),
    MouseButtonReleased(u32, i32, i32),
}

/// What the event pass carries through the entity tree.
#[derive(Clone, Copy, Debug, PartialEq, Eq, Structural)]
pub enum Event {
    /// An input from the window layer.
    Input(InputEvent),
    /// Image data of an asynchronous request is available.
    ImageLoadEvent(ImageLoadEventPayload),
    /// An asynchronous request failed; its image will never come.
    ImageLoadFailed(AsyncLoadHandle),
    /// The window now has this width and height.
    WindowUpdated(u32, u32),
}

/// The event that a completion of the loader becomes: a load event where it
/// carries a texture, a failure where it carries none.
pub open spec fn completion_event_spec(
    p: (AsyncLoadHandle, crate::resource::ImageLoadPayloadType, Seq<char>, u32, u32, u32),
) -> Event {
    if p.3 == 0 {
        Event::ImageLoadFailed(p.0)
    } else {
        Event::ImageLoadEvent(
            ImageLoadEventPayload { handle: p.0, texture_id: p.3, width: p.4, height: p.5 },
        )
    }
}

/// The event that the completion `p` becomes.
pub fn completion_event(p: &ImageLoadPayload) -> (r: Event)
    ensures
        r == completion_event_spec(p@),
{
    if p.texture_id == 0 {
        Event::ImageLoadFailed(p.handle)
    } else {
        Event::ImageLoadEvent(
            ImageLoadEventPayload {
                handle: p.handle,
                texture_id: p.texture_id,
                width: p.width,
                height: p.height,
            },
        )
    }
}

/// The events of one frame in the order they go through the tree: the
/// application's own queued events, then the window's inputs, then the
/// loader's completions.
pub open spec fn frame_events_spec(
    queued: Seq<Event>,
    completions: Seq<ImageLoadPayload>,
    inputs: Seq<InputEvent>,
) -> Seq<Event> {
    queued + inputs.map_values(|i: InputEvent| Event::Input(i)) + completions.map_values(
        |p: ImageLoadPayload| completion_event_spec(p@),
    )
}

/// Puts the events of one frame in the order they go through the tree.
pub fn frame_events(queued: &Vec<Event>, completions: &Vec<ImageLoadPayload>, inputs: &Vec<InputEvent>) -> (r: Vec<
    Event,
>)
    ensures
        r@ == frame_events_spec(queued@, completions@, inputs@),
{
    let mut r: Vec<Event> = Vec::new();
    let mut i: usize = 0;
    while i < queued.len()
        invariant
            i <= queued@.len(),
            r@ == queued@.subrange(0, i as int),
        decreases queued@.len() - i,
    {
        r.push(queued[i]);
        i += 1;
        proof {
            assert(r@ =~= queued@.subrange(0, i as int));
        }
    }
    let ghost inputs_mapped = inputs@.map_values(|i: InputEvent| Event::Input(i));
    let mut k: usize = 0;
    while k < inputs.len()
        invariant
            k <= inputs@.len(),
            inputs_mapped == inputs@.map_values(|i: InputEvent| Event::Input(i)),
            r@ == queued@ + inputs_mapped.subrange(0, k as int),
        decreases inputs@.len() - k,
    {
        r.push(Event::Input(inputs[k]));
        k += 1;
        proof {
            assert(r@ =~= queued@ + inputs_mapped.subrange(0, k as int));
        }
    }
    proof {
        assert(inputs_mapped.subrange(0, inputs_mapped.len() as int) =~= inputs_mapped);
    }
    let ghost mapped = completions@.map_values(|p: ImageLoadPayload| completion_event_spec(p@));
    let mut j: usize = 0;
    while j < completions.len()
        invariant
            j <= completions@.len(),
            inputs_mapped == inputs@.map_values(|i: InputEvent| Event::Input(i)),
            mapped == completions@.map_values(|p: ImageLoadPayload| completion_event_spec(p@)),
            r@ == queued@ + inputs_mapped + mapped.subrange(0, j as int),
        decreases completions@.len() - j,
    {
        r.push(completion_event(&completions[j]));
        j += 1;
        proof {
            assert(r@ =~= queued@ + inputs_mapped + mapped.subrange(0, j as int));
        }
    }
    proof {
        assert(queued@.subrange(0, queued@.len() as int) =~= queued@);
        assert(mapped.subrange(0, mapped.len() as int) =~= mapped);
        assert(inputs_mapped.subrange(0, inputs_mapped.len() as int) =~= inputs_mapped);
    }
    r
}

} // verus!
