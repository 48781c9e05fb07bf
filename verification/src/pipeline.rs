//! Pipeline configuration and the decisions of the pipeline's loops: frame
//! timing, what to do after each hand-off between threads, and one step of
//! the compositor thread.

use std::path::PathBuf;
use vstd::prelude::*;

use crate::compositor::{can_blit, can_draw, composite_canvas, Compositor, CompositorView};
use crate::scene::{ScaleMode, Scene, SceneItem, SourceId, Transform};
use crate::types::{frame_nanos, Timestamp, VideoFrame, NANOS_PER_SECOND};

verus! {

#[verifier::external_type_specification]
#[verifier::external_body]
pub struct ExPathBuf(PathBuf);

/// Depth of each bounded channel between the pipeline's threads.
pub const CHANNEL_DEPTH: usize = 4;

/// Top-level pipeline configuration.
#[derive(Debug, Clone)]
pub struct PipelineConfig {
    pub canvas_width: u32,
    pub canvas_height: u32,
    pub fps: u32,
    /// Optional MP4 recording output.
    pub record_path: Option<PathBuf>,
    /// Bitrate for the recording encoder, in kbps.
    pub record_bitrate_kbps: Option<usize>,
}

impl Default for PipelineConfig {
    fn default() -> (c: Self)
        ensures
            c.canvas_width == 1920,
            c.canvas_height == 1080,
            c.fps == 30,
            c.record_path is None,
            c.record_bitrate_kbps is None,
    {
        PipelineConfig {
            canvas_width: 1920,
            canvas_height: 1080,
            fps: 30,
            record_path: None,
            record_bitrate_kbps: None,
        }
    }
}

/// Time between two frames at `fps` frames per second, in nanoseconds.
pub fn frame_interval_nanos(fps: u32) -> (r: u64)
    requires
        fps > 0,
    ensures
        r == 1_000_000_000int / (fps as int),
{
    NANOS_PER_SECOND / (fps as u64)
}

/// Numbers frames and gives each its presentation timestamp.
#[derive(Debug, Clone, Copy, PartialEq, Eq, Structural)]
pub struct FrameClock {
    pub fps: u32,
    /// Number of the next frame.
    pub next_frame: u64,
}

impl FrameClock {
    pub fn new(fps: u32) -> (c: Self)
        ensures
            c.fps == fps,
            c.next_frame == 0,
    {
        FrameClock { fps, next_frame: 0 }
    }

    /// Timestamp the next frame and move on to the one after it.
    pub fn tick(&mut self) -> (t: Timestamp)
        requires
            old(self).fps > 0,
            old(self).next_frame * 1_000_000_000 <= u64::MAX,
        ensures
            t.nanos == frame_nanos(old(self).next_frame, old(self).fps) as i64,
            final(self).fps == old(self).fps,
            final(self).next_frame == old(self).next_frame + 1,
    {
        let t = Timestamp::from_frame(self.next_frame, self.fps);
        self.next_frame = self.next_frame + 1;
        t
    }
}

/// What became of a frame offered to a bounded channel without waiting.
#[derive(Debug, Clone, Copy, PartialEq, Eq, Structural)]
pub enum SendOutcome {
    /// The frame was queued.
    Sent,
    /// The channel was full; the frame was dropped.
    Full,
    /// The receiving side is gone.
    Disconnected,
}

/// A producer keeps going after a dropped frame, and stops once nobody
/// receives its frames any more.
pub fn keeps_running(outcome: SendOutcome) -> (r: bool)
    ensures
        r <==> outcome != SendOutcome::Disconnected,
{
    match outcome {
        SendOutcome::Sent => true,
        SendOutcome::Full => true,
        SendOutcome::Disconnected => false,
    }
}

/// The outcome of one hand-off made by the compositor thread.
#[derive(Debug, Clone, Copy, PartialEq, Eq, Structural)]
pub enum LoopEvent {
    /// The composed frame was offered to the preview.
    PreviewSend(SendOutcome),
    /// The composed frame was handed to the recorder (`true`: accepted).
    RecordSend(bool),
    /// The preview's event loop was woken (`true`: it is still there).
    Wake(bool),
}

/// What the compositor thread does next.
#[derive(Debug, Clone, Copy, PartialEq, Eq, Structural)]
pub enum LoopAction {
    /// Hand the composed frame to the recorder, waiting for room so that
    /// every frame is recorded.
    SendToRecorder,
    /// Wake the preview's event loop.
    WakePreview,
    /// Wait for the next captured frame.
    AwaitNextFrame,
    /// Leave the loop.
    Stop,
}

/// The next step of the compositor thread after `event`: preview, then
/// recorder (when recording), then wake-up; a receiver that has gone away
/// stops the loop, a full preview channel only drops that frame.
pub fn next_loop_action(recording: bool, event: LoopEvent) -> (a: LoopAction)
    ensures
        a == match event {
            LoopEvent::PreviewSend(SendOutcome::Disconnected) => LoopAction::Stop,
            LoopEvent::PreviewSend(_) => if recording {
                LoopAction::SendToRecorder
            } else {
                LoopAction::WakePreview
            },
            LoopEvent::RecordSend(ok) => if ok {
                LoopAction::WakePreview
            } else {
                LoopAction::Stop
            },
            LoopEvent::Wake(ok) => if ok {
                LoopAction::AwaitNextFrame
            } else {
                LoopAction::Stop
            },
        },
{
    match event {
        LoopEvent::PreviewSend(outcome) => {
            if !keeps_running(outcome) {
                LoopAction::Stop
            } else if recording {
                LoopAction::SendToRecorder
            } else {
                LoopAction::WakePreview
            }
        },
        LoopEvent::RecordSend(ok) => {
            if ok {
                LoopAction::WakePreview
            } else {
                LoopAction::Stop
            }
        },
        LoopEvent::Wake(ok) => {
            if ok {
                LoopAction::AwaitNextFrame
            } else {
                LoopAction::Stop
            }
        },
    }
}

/// The one item of the pipeline's scene: source 0, full screen, visible.
pub open spec fn main_item(canvas_width: u32, canvas_height: u32) -> SceneItem {
    SceneItem {
        source_id: SourceId(0),
        transform: Transform {
            x: 0,
            y: 0,
            width: canvas_width as usize,
            height: canvas_height as usize,
            scale_mode: ScaleMode::Fit,
        },
        visible: true,
        z_order: 0,
    }
}

/// The compositor the pipeline runs: a scene named "Main" holding one
/// full-screen source, with no frame received yet.
pub fn main_compositor(canvas_width: u32, canvas_height: u32) -> (r: (Compositor, SourceId))
    ensures
        r.1 == SourceId(0),
        r.0@.scene.canvas_width == canvas_width,
        r.0@.scene.canvas_height == canvas_height,
        r.0@.scene.items == seq![main_item(canvas_width, canvas_height)],
        r.0@.frames == Map::<u32, VideoFrame>::empty(),
{
    let source_id = SourceId(0);
    let mut scene = Scene::new("Main", canvas_width, canvas_height);
    scene.add_item(
        SceneItem {
            source_id,
            transform: Transform::fullscreen(canvas_width, canvas_height),
            visible: true,
            z_order: 0,
        },
    );
    proof {
        let x = main_item(canvas_width, canvas_height);
        let s = Seq::<SceneItem>::empty().push(x);
        assert(s.drop_last() =~= Seq::<SceneItem>::empty());
        assert(crate::scene::sort_by_z(Seq::<SceneItem>::empty()) == Seq::<SceneItem>::empty());
        assert(crate::scene::insert_by_z(Seq::<SceneItem>::empty(), x) == seq![x]);
        assert(s.last() == x);
        assert(crate::scene::sort_by_z(s) =~= seq![main_item(canvas_width, canvas_height)]);
    }
    (Compositor::new(scene), source_id)
}

/// What a `CompositorLoop` holds.
pub struct CompositorLoopView {
    pub compositor: CompositorView,
    pub source_id: SourceId,
    pub clock: FrameClock,
}

/// The compositor thread's state: the compositor, the source it feeds, and
/// the clock that timestamps composed frames.
pub struct CompositorLoop {
    compositor: Compositor,
    source_id: SourceId,
    clock: FrameClock,
}

impl View for CompositorLoop {
    type V = CompositorLoopView;

    closed spec fn view(&self) -> CompositorLoopView {
        CompositorLoopView { compositor: self.compositor@, source_id: self.source_id, clock: self.clock }
    }
}

impl CompositorLoop {
    /// The scene is the pipeline's one-item scene, every cached frame can be
    /// drawn there, the canvas fits in memory and the clock runs.
    pub open spec fn wf(&self) -> bool {
        let cw = self@.compositor.scene.canvas_width;
        let ch = self@.compositor.scene.canvas_height;
        &&& self@.compositor.scene.items == seq![main_item(cw, ch)]
        &&& forall|k: u32| #[trigger] self@.compositor.frames.contains_key(k) ==> can_blit(
            self@.compositor.frames[k],
            main_item(cw, ch).transform,
            cw as int,
            ch as int,
        )
        &&& cw * ch * 4 <= usize::MAX
        &&& self@.clock.fps > 0
    }

    /// The frame `raw` can be drawn into this loop's scene.
    pub open spec fn fits(&self, raw: VideoFrame) -> bool {
        let cw = self@.compositor.scene.canvas_width;
        let ch = self@.compositor.scene.canvas_height;
        can_blit(raw, main_item(cw, ch).transform, cw as int, ch as int)
    }

    /// The compositor thread of a pipeline with the given canvas and rate.
    pub fn new(canvas_width: u32, canvas_height: u32, fps: u32) -> (l: Self)
        requires
            canvas_width * canvas_height * 4 <= usize::MAX,
            fps > 0,
        ensures
            l.wf(),
            l@.source_id == SourceId(0),
            l@.clock == (FrameClock { fps, next_frame: 0 }),
            l@.compositor.scene.canvas_width == canvas_width,
            l@.compositor.scene.canvas_height == canvas_height,
            l@.compositor.scene.items == seq![main_item(canvas_width, canvas_height)],
            l@.compositor.frames == Map::<u32, VideoFrame>::empty(),
    {
        let (compositor, source_id) = main_compositor(canvas_width, canvas_height);
        CompositorLoop { compositor, source_id, clock: FrameClock::new(fps) }
    }

    /// A captured frame arrived: make it the source's latest frame and
    /// composite the scene, timestamped by the next frame number.
    pub fn on_frame(&mut self, raw: VideoFrame) -> (composed: VideoFrame)
        requires
            old(self).wf(),
            old(self).fits(raw),
            old(self)@.clock.next_frame * 1_000_000_000 <= u64::MAX,
        ensures
            final(self).wf(),
            final(self)@.source_id == old(self)@.source_id,
            final(self)@.compositor.scene == old(self)@.compositor.scene,
            final(self)@.compositor.frames == old(self)@.compositor.frames.insert(
                old(self)@.source_id.0,
                raw,
            ),
            final(self)@.clock.fps == old(self)@.clock.fps,
            final(self)@.clock.next_frame == old(self)@.clock.next_frame + 1,
            composed.width == old(self)@.compositor.scene.canvas_width,
            composed.height == old(self)@.compositor.scene.canvas_height,
            composed.format == crate::types::PixelFormat::BGRA32,
            composed.pts.nanos == frame_nanos(
                old(self)@.clock.next_frame,
                old(self)@.clock.fps,
            ) as i64,
            composed.data@ == composite_canvas(
                final(self)@.compositor.scene.items,
                final(self)@.compositor.frames,
                old(self)@.compositor.scene.canvas_width as int,
                old(self)@.compositor.scene.canvas_height as int,
            ),
    {
        self.compositor.update_source(self.source_id, raw);
        let pts = self.clock.tick();
        proof {
            let cw = self.compositor@.scene.canvas_width;
            let ch = self.compositor@.scene.canvas_height;
            let items = self.compositor@.scene.items;
            let frames = self.compositor@.frames;
            assert(items[0] == main_item(cw, ch));
            assert(crate::compositor::all_drawable(items, frames, cw as int, ch as int));
        }
        self.compositor.composite(pts)
    }

    /// Whether a captured frame can be handed to `on_frame`: drawing it
    /// reads only inside its data.
    pub fn accepts(&self, raw: &VideoFrame) -> (r: bool)
        requires
            self.wf(),
        ensures
            r == self.fits(*raw),
    {
        let scene = self.compositor.scene();
        let cw = scene.canvas_width();
        let ch = scene.canvas_height();
        can_draw(raw, &Transform::fullscreen(cw, ch), cw, ch)
    }
}


/// The pipeline's central promise: when the captured frame is an opaque
/// BGRA frame of exactly the canvas size, the composed frame is the
/// captured frame itself.
pub proof fn lemma_main_scene_shows_capture(canvas_width: u32, canvas_height: u32, frame: VideoFrame)
    requires
        canvas_width > 0,
        canvas_height > 0,
        frame.format == crate::types::PixelFormat::BGRA32,
        frame.width == canvas_width,
        frame.height == canvas_height,
        frame.data@.len() == canvas_width * canvas_height * 4,
        crate::compositor::all_opaque(frame.data@),
    ensures
        composite_canvas(
            seq![main_item(canvas_width, canvas_height)],
            Map::<u32, VideoFrame>::empty().insert(0, frame),
            canvas_width as int,
            canvas_height as int,
        ) == frame.data@,
{
    let cw = canvas_width as int;
    let ch = canvas_height as int;
    let item = main_item(canvas_width, canvas_height);
    let items = seq![item];
    let frames = Map::<u32, VideoFrame>::empty().insert(0, frame);
    vstd::arithmetic::div_mod::lemma_div_multiples_vanish(cw, ch);
    assert(ch * cw == cw * ch) by (nonlinear_arith);
    assert(crate::compositor::dst_size(canvas_width, canvas_height, item.transform) == (cw, ch));
    let black = crate::compositor::composed(items, frames, cw, ch, 0);
    assert(black.len() == cw * ch * 4) by {
        vstd::arithmetic::mul::lemma_mul_nonnegative(cw, ch);
    }
    crate::compositor::lemma_opaque_full_canvas(black, frame, cw, ch);
    assert(items[0] == item);
    assert(frames.contains_key(0u32));
}

} // verus!
