//! Pointer events of a window: which node hears of what when the pointer
//! moves. Nodes are named by the ids of the layout tree.

use vstd::prelude::*;

verus! {

/// What a listener of a node can hear about the pointer.
#[derive(Clone, Copy, Debug, PartialEq, Eq, Structural)]
pub enum PointerEvent {
    /// The pointer has come over the node.
    MouseIn,
    /// The pointer has left the node.
    MouseOut,
    /// The pointer has moved over the node.
    MouseMove,
}

/// An event for the listeners of one node.
#[derive(Clone, Copy, Debug, PartialEq, Eq, Structural)]
pub struct Notice {
    pub node: u64,
    pub event: PointerEvent,
}

/// The notices that a move of the pointer gives rise to, in the order in
/// which they are sent, where the pointer was over `target` and is now over
/// `hit`. A move over no node gives rise to none. A move over a node tells
/// the node that the pointer was over before that it has left, unless it is
/// the same node, tells the node that the pointer has come, unless it was
/// there already, and then tells it of the move.
pub open spec fn notices(target: Option<u64>, hit: Option<u64>) -> Seq<Notice> {
    match hit {
        None => Seq::empty(),
        Some(node) => {
            let moved = Notice { node, event: PointerEvent::MouseMove };
            let came = Notice { node, event: PointerEvent::MouseIn };
            match target {
                None => seq![came, moved],
                Some(last) => if last == node {
                    seq![moved]
                } else {
                    seq![Notice { node: last, event: PointerEvent::MouseOut }, came, moved]
                },
            }
        },
    }
}

/// The node that the pointer is over after a move: the node that was hit,
/// or, where none was hit, the node that it was over before.
pub open spec fn target_after(target: Option<u64>, hit: Option<u64>) -> Option<u64> {
    match hit {
        None => target,
        Some(_) => hit,
    }
}

/// Takes note of a move of the pointer: `target` is the node that the
/// pointer was over and becomes the node that it is over now, and the
/// result is what to tell the listeners, in order.
pub fn pointer_moved(target: &mut Option<u64>, hit: Option<u64>) -> (out: Vec<Notice>)
    ensures
        out@ == notices(*old(target), hit),
        *final(target) == target_after(*old(target), hit),
{
    let mut out: Vec<Notice> = Vec::new();
    match hit {
        None => {},
        Some(node) => {
            match *target {
                None => {
                    out.push(Notice { node, event: PointerEvent::MouseIn });
                },
                Some(last) => {
                    if last != node {
                        out.push(Notice { node: last, event: PointerEvent::MouseOut });
                        out.push(Notice { node, event: PointerEvent::MouseIn });
                    }
                },
            }
            out.push(Notice { node, event: PointerEvent::MouseMove });
            *target = Some(node);
        },
    }
    assert(out@ =~= notices(*old(target), hit));
    out
}

} // verus!
