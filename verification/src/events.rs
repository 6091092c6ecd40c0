//! What the keyboard does to the camera.
//!
//! The host reads the pending input events; the rules here say which of them
//! end the program and how each of the others moves the camera.

use vstd::prelude::*;

verus! {

/// The keys that can matter.
#[derive(Clone, Copy, Debug, PartialEq, Eq, Structural)]
pub enum Key {
    Escape,
    A,
    D,
    W,
    S,
    Q,
    Z,
    I,
    K,
    J,
    L,
    U,
    O,
    /// Any other key.
    Other,
}

/// An input event.
#[derive(Clone, Copy, Debug, PartialEq, Eq, Structural)]
pub enum Event {
    /// The window was asked to close.
    Quit,
    /// A key went down.
    KeyDown(Key),
    /// Anything else.
    Other,
}

/// A movement of the camera. A shift is given in hundredths of a length
/// unit, a rotation in hundredths of a radian.
#[derive(Clone, Copy, Debug, PartialEq, Eq, Structural)]
pub enum CameraMove {
    /// Along the camera's right vector.
    ShiftLateral(i32),
    /// Along the camera's forward vector.
    ShiftLongitudinal(i32),
    /// Along the camera's up vector.
    ShiftVertical(i32),
    /// About the right vector; a positive angle looks down.
    RotatePitch(i32),
    /// About the up vector; a positive angle looks right.
    RotateYaw(i32),
    /// About the forward vector; a positive angle leans left.
    RotateRoll(i32),
}

/// How far one key press shifts the camera, in hundredths of a length unit.
pub const SHIFT: i32 = 25;

/// The same shift the other way.
pub const SHIFT_BACK: i32 = -25;

/// How far one key press turns the camera, in hundredths of a radian.
pub const TURN: i32 = 15;

/// The same turn the other way.
pub const TURN_BACK: i32 = -15;

/// What became of a batch of events.
#[derive(Debug)]
pub struct Handled {
    /// Whether the program is to end.
    pub quit: bool,
    /// How many events were taken before the one that ends the program, or
    /// all of them where none does.
    pub taken: usize,
    /// The camera movements of the events taken, in their order.
    pub moves: Vec<CameraMove>,
}

/// Whether an event ends the program: a request to close, or the escape key.
pub open spec fn quits(event: Event) -> bool {
    event == Event::Quit || event == Event::KeyDown(Key::Escape)
}

/// The movement that a key stands for, if any.
pub open spec fn binding(key: Key) -> Option<CameraMove> {
    match key {
        Key::A => Some(CameraMove::ShiftLateral(SHIFT_BACK)),
        Key::D => Some(CameraMove::ShiftLateral(SHIFT)),
        Key::W => Some(CameraMove::ShiftLongitudinal(SHIFT)),
        Key::S => Some(CameraMove::ShiftLongitudinal(SHIFT_BACK)),
        Key::Q => Some(CameraMove::ShiftVertical(SHIFT)),
        Key::Z => Some(CameraMove::ShiftVertical(SHIFT_BACK)),
        Key::I => Some(CameraMove::RotatePitch(TURN_BACK)),
        Key::K => Some(CameraMove::RotatePitch(TURN)),
        Key::J => Some(CameraMove::RotateYaw(TURN_BACK)),
        Key::L => Some(CameraMove::RotateYaw(TURN)),
        Key::U => Some(CameraMove::RotateRoll(TURN)),
        Key::O => Some(CameraMove::RotateRoll(TURN_BACK)),
        Key::Escape => None,
        Key::Other => None,
    }
}

/// The movement that an event asks for, if any.
pub open spec fn motion(event: Event) -> Option<CameraMove> {
    match event {
        Event::KeyDown(key) => binding(key),
        _ => None,
    }
}

/// The movements that a run of events asks for, in their order.
pub open spec fn motions(events: Seq<Event>) -> Seq<CameraMove>
    decreases events.len(),
{
    if events.len() == 0 {
        Seq::empty()
    } else {
        let before = motions(events.drop_last());
        match motion(events.last()) {
            Some(m) => before.push(m),
            None => before,
        }
    }
}

/// The movement that a key stands for, if any.
pub fn key_binding(key: Key) -> (r: Option<CameraMove>)
    ensures
        r == binding(key),
{
    match key {
        Key::A => Some(CameraMove::ShiftLateral(SHIFT_BACK)),
        Key::D => Some(CameraMove::ShiftLateral(SHIFT)),
        Key::W => Some(CameraMove::ShiftLongitudinal(SHIFT)),
        Key::S => Some(CameraMove::ShiftLongitudinal(SHIFT_BACK)),
        Key::Q => Some(CameraMove::ShiftVertical(SHIFT)),
        Key::Z => Some(CameraMove::ShiftVertical(SHIFT_BACK)),
        Key::I => Some(CameraMove::RotatePitch(TURN_BACK)),
        Key::K => Some(CameraMove::RotatePitch(TURN)),
        Key::J => Some(CameraMove::RotateYaw(TURN_BACK)),
        Key::L => Some(CameraMove::RotateYaw(TURN)),
        Key::U => Some(CameraMove::RotateRoll(TURN)),
        Key::O => Some(CameraMove::RotateRoll(TURN_BACK)),
        Key::Escape => None,
        Key::Other => None,
    }
}

/// Goes through pending events in their order, up to the first that ends
/// the program.
///
/// The events before that one are taken: each key with a binding gives its
/// camera movement. Events after it are left alone.
pub fn handle_events(events: &Vec<Event>) -> (r: Handled)
    ensures
        r.taken <= events.len(),
        forall|i: int| 0 <= i < r.taken ==> !quits(#[trigger] events[i]),
        r.quit <==> r.taken < events.len(),
        r.quit ==> quits(events[r.taken as int]),
        r.moves@ == motions(events@.take(r.taken as int)),
{
    let mut moves: Vec<CameraMove> = Vec::new();
    let n: usize = events.len();
    let mut k: usize = 0;
    assert(events@.take(0) =~= Seq::<Event>::empty());
    while k < n
        invariant
            n == events.len(),
            k <= n,
            forall|i: int| 0 <= i < k ==> !quits(#[trigger] events[i]),
            moves@ == motions(events@.take(k as int)),
        decreases n - k,
    {
        let event = events[k];
        let moved: Option<CameraMove> = match event {
            Event::Quit => {
                return Handled { quit: true, taken: k, moves };
            },
            Event::KeyDown(Key::Escape) => {
                return Handled { quit: true, taken: k, moves };
            },
            Event::KeyDown(key) => key_binding(key),
            Event::Other => None,
        };
        proof {
            let next = events@.take(k + 1);
            assert(next.drop_last() =~= events@.take(k as int));
            assert(next.last() == event);
        }
        match moved {
            Some(m) => {
                moves.push(m);
            },
            None => {},
        }
        k = k + 1;
    }
    Handled { quit: false, taken: k, moves }
}

} // verus!
