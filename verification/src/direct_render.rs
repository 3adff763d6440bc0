//! The exchange of frames between the side that draws and the side that shows.

use vstd::prelude::*;

verus! {

/// A frame with a scene of a type `S`, and the size it is drawn at.
#[derive(Debug)]
pub struct TerminalFrame<S> {
    pub width: u32,
    pub height: u32,
    pub scene: S,
}

/// The frame to be shown next, and a scene that can be used again.
#[derive(Debug)]
pub struct DirectTerminalSceneExchange<S> {
    pub pending: Option<TerminalFrame<S>>,
    pub recycled: Option<S>,
}

impl<S> DirectTerminalSceneExchange<S> {
    /// The scenes that can be used again, once another can.
    pub open spec fn with_recycled(self, scene: S) -> DirectTerminalSceneExchange<S> {
        DirectTerminalSceneExchange {
            recycled: match self.recycled {
                Some(kept) => Some(kept),
                None => Some(scene),
            },
            ..self
        }
    }

    pub fn new() -> (r: Self)
        ensures
            r == (DirectTerminalSceneExchange::<S> { pending: None, recycled: None }),
    {
        DirectTerminalSceneExchange { pending: None, recycled: None }
    }

    /// A scene that can be used again, if there is one.
    pub fn take_recycled_scene(&mut self) -> (r: Option<S>)
        ensures
            r == old(self).recycled,
            *final(self) == (DirectTerminalSceneExchange { recycled: None, ..*old(self) }),
    {
        let mut taken: Option<S> = None;
        core::mem::swap(&mut taken, &mut self.recycled);
        taken
    }

    /// Keeps a scene, which was emptied, for use again; one is enough.
    pub fn recycle_scene(&mut self, scene: S)
        ensures
            *final(self) == old(self).with_recycled(scene),
    {
        if self.recycled.is_none() {
            self.recycled = Some(scene);
        }
    }

    /// Publishes a frame, and returns the scene of one that was never shown, to be
    /// emptied and recycled.
    pub fn publish_frame(&mut self, frame: TerminalFrame<S>) -> (r: Option<S>)
        ensures
            final(self).pending == Some(frame),
            final(self).recycled == old(self).recycled,
            match old(self).pending {
                Some(previous) => r == Some(previous.scene),
                None => r is None,
            },
    {
        let mut previous = Some(frame);
        core::mem::swap(&mut previous, &mut self.pending);
        match previous {
            Some(previous) => Some(previous.scene),
            None => None,
        }
    }

    /// The frame to be shown next.
    pub fn take_pending_frame(&mut self) -> (r: Option<TerminalFrame<S>>)
        ensures
            r == old(self).pending,
            *final(self) == (DirectTerminalSceneExchange { pending: None, ..*old(self) }),
    {
        let mut taken: Option<TerminalFrame<S>> = None;
        core::mem::swap(&mut taken, &mut self.pending);
        taken
    }

    /// Takes over the pending frame, and returns the scene of the frame that it takes
    /// the place of. A frame that could not be shown yet stays until there is a newer.
    pub fn extract_frame(&mut self, current: &mut Option<TerminalFrame<S>>) -> (r: Option<S>)
        ensures
            final(self).pending is None,
            final(self).recycled == old(self).recycled,
            *final(current) == (match old(self).pending {
                Some(frame) => Some(frame),
                None => *old(current),
            }),
            r == (match (old(self).pending, *old(current)) {
                (Some(_), Some(previous)) => Some(previous.scene),
                _ => None,
            }),
    {
        let mut next = self.take_pending_frame();
        if next.is_none() {
            return None;
        }
        core::mem::swap(&mut next, current);
        match next {
            Some(previous) => Some(previous.scene),
            None => None,
        }
    }
}

/// Whether textures are there and have the size of a frame.
pub fn frame_is_drawable(
    width: u32,
    height: u32,
    render_size: Option<(u32, u32)>,
    present_size: Option<(u32, u32)>,
) -> (r: bool)
    ensures
        r == (render_size == Some((width, height)) && present_size == Some((width, height))),
{
    match (render_size, present_size) {
        (Some(render), Some(present)) => render.0 == width && render.1 == height && present.0
            == width && present.1 == height,
        _ => false,
    }
}

} // verus!
