//! The live stream of a conversation's log to a browser: patches arriving
//! within a short window are buffered and sent as one coalesced patch;
//! anything else, the end of the stream or the client leaving first sends
//! what is buffered.
use vstd::prelude::*;
use crate::logs::{coalesce_patch_ops, coalesced, op_views, PatchOp, PatchOpView};

verus! {

/// Milliseconds during which patches are gathered before they are sent.
pub const PATCH_FLUSH_WINDOW_MS: u64 = 50;

/// What happened on either side of the connection.
pub enum StreamEvent {
    /// The log produced a patch.
    Patch(Vec<PatchOp>),
    /// The flush window ran out.
    FlushTimer,
    /// The log produced another message, to be forwarded as it is.
    Message,
    /// Reading the log failed.
    StreamError,
    /// The log ended.
    StreamEnd,
    /// The client closed the connection, went away, or reading from it failed.
    ClientGone,
    /// The client sent something else, which is ignored.
    ClientMessage,
}

/// What the connection does after an event, in this order: send the
/// coalesced patch, forward the message, send the end-of-log message; then
/// stop where asked.
pub struct StreamActions {
    pub send_patch: Option<Vec<PatchOp>>,
    pub forward_message: bool,
    pub send_finished: bool,
    /// Start the flush window.
    pub arm_timer: bool,
    pub stop: bool,
}

/// The patches buffered since the last send, and whether the flush window
/// is running.
pub struct PatchBuffer {
    pub ops: Vec<PatchOp>,
    pub timer_armed: bool,
}

/// An event as plain values.
pub enum StreamEventView {
    Patch(Seq<PatchOpView>),
    FlushTimer,
    Message,
    StreamError,
    StreamEnd,
    ClientGone,
    ClientMessage,
}

impl View for StreamEvent {
    type V = StreamEventView;

    open spec fn view(&self) -> StreamEventView {
        match self {
            StreamEvent::Patch(ops) => StreamEventView::Patch(op_views(ops@)),
            StreamEvent::FlushTimer => StreamEventView::FlushTimer,
            StreamEvent::Message => StreamEventView::Message,
            StreamEvent::StreamError => StreamEventView::StreamError,
            StreamEvent::StreamEnd => StreamEventView::StreamEnd,
            StreamEvent::ClientGone => StreamEventView::ClientGone,
            StreamEvent::ClientMessage => StreamEventView::ClientMessage,
        }
    }
}

/// The buffer as plain values.
pub struct BufferView {
    pub ops: Seq<PatchOpView>,
    pub timer_armed: bool,
}

/// The actions as plain values.
pub struct ActionsView {
    pub send_patch: Option<Seq<PatchOpView>>,
    pub forward_message: bool,
    pub send_finished: bool,
    pub arm_timer: bool,
    pub stop: bool,
}

impl PatchBuffer {
    pub open spec fn view_of(&self) -> BufferView {
        BufferView { ops: op_views(self.ops@), timer_armed: self.timer_armed }
    }
}

impl StreamActions {
    pub open spec fn view_of(&self) -> ActionsView {
        ActionsView {
            send_patch: match self.send_patch {
                Some(p) => Some(op_views(p@)),
                None => None,
            },
            forward_message: self.forward_message,
            send_finished: self.send_finished,
            arm_timer: self.arm_timer,
            stop: self.stop,
        }
    }
}

/// What a flush sends: the buffered operations coalesced, where there are any.
pub open spec fn flush_spec(ops: Seq<PatchOpView>) -> Option<Seq<PatchOpView>> {
    if ops.len() == 0 {
        None
    } else {
        Some(coalesced(ops, 0))
    }
}

/// The buffer and the actions after an event.
pub open spec fn stream_step_spec(b: BufferView, e: StreamEventView) -> (BufferView, ActionsView) {
    let quiet = ActionsView {
        send_patch: None,
        forward_message: false,
        send_finished: false,
        arm_timer: false,
        stop: false,
    };
    let flushed = BufferView { ops: Seq::empty(), timer_armed: false };
    match e {
        StreamEventView::Patch(ops) => (
            BufferView { ops: b.ops + ops, timer_armed: true },
            ActionsView { arm_timer: !b.timer_armed, ..quiet },
        ),
        StreamEventView::FlushTimer => (flushed, ActionsView { send_patch: flush_spec(b.ops), ..quiet }),
        StreamEventView::Message => (
            flushed,
            ActionsView { send_patch: flush_spec(b.ops), forward_message: true, ..quiet },
        ),
        StreamEventView::StreamError => (
            flushed,
            ActionsView { send_patch: flush_spec(b.ops), send_finished: true, stop: true, ..quiet },
        ),
        StreamEventView::StreamEnd | StreamEventView::ClientGone => (
            flushed,
            ActionsView { send_patch: flush_spec(b.ops), stop: true, ..quiet },
        ),
        StreamEventView::ClientMessage => (b, quiet),
    }
}

impl PatchBuffer {
    /// Nothing buffered, no window running.
    pub fn new() -> (r: PatchBuffer)
        ensures
            r.view_of() == (BufferView { ops: Seq::empty(), timer_armed: false }),
    {
        let r = PatchBuffer { ops: Vec::new(), timer_armed: false };
        proof {
            assert(op_views(r.ops@) =~= Seq::<PatchOpView>::empty());
        }
        r
    }

    fn flush(&mut self) -> (r: Option<Vec<PatchOp>>)
        ensures
            final(self).view_of() == (BufferView { ops: Seq::empty(), timer_armed: false }),
            match (r, flush_spec(old(self).view_of().ops)) {
                (Some(p), Some(q)) => op_views(p@) == q,
                (None, None) => true,
                _ => false,
            },
    {
        let mut ops: Vec<PatchOp> = Vec::new();
        std::mem::swap(&mut ops, &mut self.ops);
        self.timer_armed = false;
        proof {
            assert(op_views(self.ops@) =~= Seq::<PatchOpView>::empty());
        }
        if ops.len() == 0 {
            None
        } else {
            Some(coalesce_patch_ops(ops))
        }
    }

    /// Handles one event, as [`stream_step_spec`] says.
    pub fn on_event(&mut self, event: StreamEvent) -> (r: StreamActions)
        ensures
            (final(self).view_of(), r.view_of()) == stream_step_spec(old(self).view_of(), event@),
    {
        let quiet = StreamActions {
            send_patch: None,
            forward_message: false,
            send_finished: false,
            arm_timer: false,
            stop: false,
        };
        match event {
            StreamEvent::Patch(ops) => {
                let ghost before = op_views(self.ops@);
                let ghost added = op_views(ops@);
                let mut more = ops;
                self.ops.append(&mut more);
                proof {
                    assert(op_views(self.ops@) =~= before + added);
                }
                let arm = !self.timer_armed;
                self.timer_armed = true;
                StreamActions { arm_timer: arm, ..quiet }
            },
            StreamEvent::FlushTimer => {
                let sent = self.flush();
                StreamActions { send_patch: sent, ..quiet }
            },
            StreamEvent::Message => {
                let sent = self.flush();
                StreamActions { send_patch: sent, forward_message: true, ..quiet }
            },
            StreamEvent::StreamError => {
                let sent = self.flush();
                StreamActions { send_patch: sent, send_finished: true, stop: true, ..quiet }
            },
            StreamEvent::StreamEnd | StreamEvent::ClientGone => {
                let sent = self.flush();
                StreamActions { send_patch: sent, stop: true, ..quiet }
            },
            StreamEvent::ClientMessage => quiet,
        }
    }
}

/// No patch is lost or sent twice: a patch followed by any event that
/// flushes sends exactly the coalescing of everything buffered, and leaves
/// nothing behind.
pub proof fn lemma_flush_sends_everything(b: BufferView, ops: Seq<PatchOpView>, e: StreamEventView)
    requires
        ops.len() > 0,
        !(e is Patch),
        !(e is ClientMessage),
    ensures
        ({
            let (mid, _) = stream_step_spec(b, StreamEventView::Patch(ops));
            let (after, act) = stream_step_spec(mid, e);
            act.send_patch == Some(coalesced(b.ops + ops, 0)) && after.ops.len() == 0
        }),
{
}

} // verus!
