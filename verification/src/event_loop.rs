//! The event-loop driver: the state machine that sequences input
//! translation, view update and redraw.
//!
//! The platform layer owns the OS event loop. For every raw event it builds
//! a plain [`crate::event::RawEvent`], hands it to
//! [`EventLoopDriver::handle_raw_event`], and then performs the returned
//! actions in order: reconfigure the render surface, request a redraw, drain
//! the work queue, run the view-tree update or render contract, dispatch a
//! logical event to the view tree, or end the loop. Exactly one raw event is
//! handled per loop iteration, on the loop thread only.

use vstd::prelude::*;

use crate::event::KeyboardModifiers;
use crate::event::LogicalEvent;
use crate::event::MouseButton;
use crate::event::Point;
use crate::event::RawEvent;
use crate::event::spec_map_key;
use crate::event::spec_track_button;
use crate::event::map_key;
use crate::event::track_button;
use crate::menu::CommandMap;
use crate::menu::map_lookup;

verus! {

/// Marker trait that closes the set of view implementations a downstream
/// crate may extend, in the future-proofing style of sealed traits.
pub trait Sealed {

}

/// The render surface configuration the core controls: target dimensions in
/// device pixels. Pixel format, usage and present mode belong to the GPU
/// collaborator and never change after startup.
#[derive(Clone, Copy, PartialEq, Eq, Structural, Debug)]
pub struct SurfaceConfig {
    pub width: u32,
    pub height: u32,
}

/// An action the platform layer must perform after handling a raw event.
#[derive(Debug)]
pub enum Action {
    /// End the event loop; no further events are processed.
    Exit,
    /// Reconfigure the render surface to the given dimensions.
    Reconfigure(SurfaceConfig),
    /// Ask the window for a redraw.
    RequestRedraw,
    /// Pop and run deferred work items until the queue is empty.
    DrainWorkQueue,
    /// Run the view-tree update contract.
    Update,
    /// Run the render contract against the current surface configuration.
    Render,
    /// Deliver a logical event to the view tree.
    Dispatch(LogicalEvent),
}

/// Surface dimensions after a resize: each side clamped to a minimum of 1,
/// never 0.
pub open spec fn resize_config(width: u32, height: u32) -> SurfaceConfig {
    SurfaceConfig {
        width: if width < 1 {
            1u32
        } else {
            width
        },
        height: if height < 1 {
            1u32
        } else {
            height
        },
    }
}

/// A milli-quantity scaled to logical units: multiplied by 1000 and divided
/// by the scale factor in thousandths, truncating toward zero as the
/// platform's coordinate arithmetic does.
pub open spec fn scale_to_logical(n: int, scale: int) -> int {
    if n >= 0 {
        (n * 1000) / scale
    } else {
        -((-n * 1000) / scale)
    }
}

/// The logical cursor position for a device position: device coordinates are
/// divided by the scale factor and the vertical axis is flipped so logical y
/// increases upward; all quantities in thousandths.
pub open spec fn cursor_position(x: int, y: int, scale: int, surface_height: int) -> (int, int) {
    (scale_to_logical(x, scale), scale_to_logical(surface_height * 1000 - y, scale))
}

/// Bounds under which a raw event's arithmetic stays in machine range: a
/// positive scale factor and device coordinates within 2^45 thousandths.
pub open spec fn raw_event_ok(e: RawEvent) -> bool {
    match e {
        RawEvent::CursorMoved { x, y, scale_milli } => {
            &&& 1 <= scale_milli
            &&& 0 <= x <= 0x2000_0000_0000i64
            &&& 0 <= y <= 0x2000_0000_0000i64
        },
        _ => true,
    }
}

/// The pointer event a modeled button's transition dispatches: down on
/// press, up on release, always at the driver's last known cursor position
/// with the single synthetic pointer identifier 0. A button outside the
/// modeled set dispatches nothing.
pub open spec fn pointer_event_of(s: EventLoopDriver, pressed: bool) -> LogicalEvent {
    if pressed {
        LogicalEvent::PointerDown { id: 0, position: s.cursor }
    } else {
        LogicalEvent::PointerUp { id: 0, position: s.cursor }
    }
}

/// Scale a signed milli-quantity to logical units.
fn to_logical(n: i64, scale: u32) -> (r: i64)
    requires
        1 <= scale,
        -0x4_0000_0000_0000i64 <= n <= 0x4_0000_0000_0000i64,
    ensures
        r == scale_to_logical(n as int, scale as int),
{
    if n >= 0 {
        let q = ((n as u64) * 1000) / (scale as u64);
        q as i64
    } else {
        let m = (((-n) as u64) * 1000) / (scale as u64);
        -(m as i64)
    }
}

/// The event-loop driver: owns the state the loop reads and writes while
/// translating raw platform events. `running` is false exactly after a close
/// request; the transient dispatch, update and render phases are the actions
/// the platform layer performs between two calls.
pub struct EventLoopDriver {
    /// Current render surface dimensions, kept clamped to at least 1 by 1.
    pub config: SurfaceConfig,
    /// Last known cursor position in logical coordinates.
    pub cursor: Point,
    /// The tracked pointer button, if a modeled button is held.
    pub mouse_button: Option<MouseButton>,
    /// Current keyboard modifier state.
    pub key_mods: KeyboardModifiers,
    /// Identity-to-command-path table of the compiled menu.
    pub command_map: CommandMap,
    /// False exactly after a close request was handled.
    pub running: bool,
}

impl EventLoopDriver {
    /// A driver for a freshly configured surface and compiled menu: running,
    /// cursor at the origin, no button held, no modifiers.
    pub fn new(width: u32, height: u32, command_map: CommandMap) -> (s: Self)
        ensures
            s.config == (SurfaceConfig { width, height }),
            s.cursor == (Point { x: 0, y: 0 }),
            s.mouse_button is None,
            s.key_mods == (KeyboardModifiers {
                shift: false,
                control: false,
                alt: false,
                command: false,
            }),
            s.command_map == command_map,
            s.running,
    {
        EventLoopDriver {
            config: SurfaceConfig { width, height },
            cursor: Point { x: 0, y: 0 },
            mouse_button: None,
            key_mods: KeyboardModifiers {
                shift: false,
                control: false,
                alt: false,
                command: false,
            },
            command_map,
            running: true,
        }
    }

    /// Handle one raw platform event: update the driver state and return the
    /// actions the platform layer performs, in order. The clauses below give
    /// the complete translation table; events outside the vocabulary of a
    /// variant change nothing and return no action.
    pub fn handle_raw_event(&mut self, e: RawEvent) -> (actions: Vec<Action>)
        requires
            old(self).running,
            raw_event_ok(e),
        ensures
            e matches RawEvent::CloseRequested ==> *final(self) == (EventLoopDriver {
                running: false,
                ..*old(self)
            }) && actions@ =~= seq![Action::Exit],
            e matches RawEvent::Resized { width, height } ==> *final(self) == (EventLoopDriver {
                config: resize_config(width, height),
                ..*old(self)
            }) && actions@ =~= seq![
                Action::Reconfigure(resize_config(width, height)),
                Action::RequestRedraw,
            ],
            e matches RawEvent::UserWake ==> *final(self) == *old(self) && actions@ =~= seq![
                Action::DrainWorkQueue,
            ],
            e matches RawEvent::MainEventsCleared ==> *final(self) == *old(self) && actions@
                =~= seq![Action::Update],
            e matches RawEvent::RedrawRequested ==> *final(self) == *old(self) && actions@ =~= seq![
                Action::Render,
            ],
            e matches RawEvent::MouseInput { pressed, button } ==> *final(self)
                == (EventLoopDriver {
                mouse_button: if pressed {
                    spec_track_button(button)
                } else {
                    None
                },
                ..*old(self)
            }) && (if spec_track_button(button) is Some {
                actions@ =~= seq![Action::Dispatch(pointer_event_of(*old(self), pressed))]
            } else {
                actions@ =~= Seq::<Action>::empty()
            }),
            e matches RawEvent::CursorMoved { x, y, scale_milli } ==> ({
                let (lx, ly) = cursor_position(
                    x as int,
                    y as int,
                    scale_milli as int,
                    old(self).config.height as int,
                );
                &&& *final(self) == (EventLoopDriver {
                    cursor: final(self).cursor,
                    ..*old(self)
                })
                &&& final(self).cursor.x == lx
                &&& final(self).cursor.y == ly
                &&& actions@ =~= seq![
                    Action::Dispatch(
                        LogicalEvent::PointerMove { id: 0, position: final(self).cursor },
                    ),
                ]
            }),
            e matches RawEvent::KeyboardInput { pressed, key } ==> *final(self) == *old(self) && (
            match spec_map_key(key) {
                Some(k) => if pressed {
                    actions@ =~= seq![Action::Dispatch(LogicalEvent::KeyPress(k))]
                } else {
                    actions@ =~= Seq::<Action>::empty()
                },
                None => actions@ =~= Seq::<Action>::empty(),
            }),
            e matches RawEvent::ModifiersChanged { shift, control, alt, command } ==> *final(self)
                == (EventLoopDriver {
                key_mods: KeyboardModifiers { shift, control, alt, command },
                ..*old(self)
            }) && actions@ =~= Seq::<Action>::empty(),
            e matches RawEvent::MenuEvent { id } ==> *final(self) == *old(self) && (match map_lookup(
                old(self).command_map@,
                id,
            ) {
                Some(p) => actions@.len() == 1 && (actions@[0] matches Action::Dispatch(le)
                    && le matches LogicalEvent::Command(s) && s@ == p),
                None => actions@ =~= Seq::<Action>::empty(),
            }),
    {
        match e {
            RawEvent::CloseRequested => {
                self.running = false;
                let mut actions: Vec<Action> = Vec::new();
                actions.push(Action::Exit);
                proof {
                    assert(actions@ =~= seq![Action::Exit]);
                }
                actions
            },
            RawEvent::Resized { width, height } => {
                let w = if width < 1 {
                    1u32
                } else {
                    width
                };
                let h = if height < 1 {
                    1u32
                } else {
                    height
                };
                self.config = SurfaceConfig { width: w, height: h };
                let mut actions: Vec<Action> = Vec::new();
                actions.push(Action::Reconfigure(SurfaceConfig { width: w, height: h }));
                actions.push(Action::RequestRedraw);
                proof {
                    assert(actions@ =~= seq![
                        Action::Reconfigure(resize_config(width, height)),
                        Action::RequestRedraw,
                    ]);
                }
                actions
            },
            RawEvent::UserWake => {
                let mut actions: Vec<Action> = Vec::new();
                actions.push(Action::DrainWorkQueue);
                proof {
                    assert(actions@ =~= seq![Action::DrainWorkQueue]);
                }
                actions
            },
            RawEvent::MainEventsCleared => {
                let mut actions: Vec<Action> = Vec::new();
                actions.push(Action::Update);
                proof {
                    assert(actions@ =~= seq![Action::Update]);
                }
                actions
            },
            RawEvent::RedrawRequested => {
                let mut actions: Vec<Action> = Vec::new();
                actions.push(Action::Render);
                proof {
                    assert(actions@ =~= seq![Action::Render]);
                }
                actions
            },
            RawEvent::MouseInput { pressed, button } => {
                let modeled = track_button(button);
                if pressed {
                    self.mouse_button = modeled;
                } else {
                    self.mouse_button = None;
                }
                let mut actions: Vec<Action> = Vec::new();
                if modeled.is_some() {
                    let event = if pressed {
                        LogicalEvent::PointerDown { id: 0, position: self.cursor }
                    } else {
                        LogicalEvent::PointerUp { id: 0, position: self.cursor }
                    };
                    actions.push(Action::Dispatch(event));
                    proof {
                        assert(actions@ =~= seq![
                            Action::Dispatch(pointer_event_of(*old(self), pressed)),
                        ]);
                    }
                } else {
                    proof {
                        assert(actions@ =~= Seq::<Action>::empty());
                    }
                }
                actions
            },
            RawEvent::CursorMoved { x, y, scale_milli } => {
                let lx = to_logical(x, scale_milli);
                let height_milli = (self.config.height as i64) * 1000;
                let ly = to_logical(height_milli - y, scale_milli);
                self.cursor = Point { x: lx, y: ly };
                let mut actions: Vec<Action> = Vec::new();
                actions.push(
                    Action::Dispatch(LogicalEvent::PointerMove { id: 0, position: self.cursor }),
                );
                proof {
                    assert(actions@ =~= seq![
                        Action::Dispatch(
                            LogicalEvent::PointerMove { id: 0, position: Point { x: lx, y: ly } },
                        ),
                    ]);
                }
                actions
            },
            RawEvent::KeyboardInput { pressed, key } => {
                let mut actions: Vec<Action> = Vec::new();
                if pressed {
                    match map_key(key) {
                        Some(k) => {
                            actions.push(Action::Dispatch(LogicalEvent::KeyPress(k)));
                            proof {
                                assert(actions@ =~= seq![
                                    Action::Dispatch(LogicalEvent::KeyPress(k)),
                                ]);
                            }
                        },
                        None => {
                            proof {
                                assert(actions@ =~= Seq::<Action>::empty());
                            }
                        },
                    }
                } else {
                    proof {
                        assert(actions@ =~= Seq::<Action>::empty());
                    }
                }
                actions
            },
            RawEvent::ModifiersChanged { shift, control, alt, command } => {
                self.key_mods = KeyboardModifiers { shift, control, alt, command };
                let actions: Vec<Action> = Vec::new();
                proof {
                    assert(actions@ =~= Seq::<Action>::empty());
                }
                actions
            },
            RawEvent::MenuEvent { id } => {
                let mut actions: Vec<Action> = Vec::new();
                match self.command_map.get(id) {
                    Some(path) => {
                        let owned = path.clone();
                        actions.push(Action::Dispatch(LogicalEvent::Command(owned)));
                    },
                    None => {
                        proof {
                            assert(actions@ =~= Seq::<Action>::empty());
                        }
                    },
                }
                actions
            },
        }
    }
}

/// Cursor-move translation is a function of the device position, the scale
/// factor and the surface height alone: repeated identical raw input at an
/// unchanged surface height yields the identical logical position. The
/// premise is what `handle_raw_event` guarantees of a cursor move: it leaves
/// the surface configuration unchanged.
pub proof fn lemma_cursor_move_idempotent(
    s0: EventLoopDriver,
    s1: EventLoopDriver,
    x: int,
    y: int,
    scale: int,
)
    requires
        s1.config == s0.config,
    ensures
        cursor_position(x, y, scale, s1.config.height as int) == cursor_position(
            x,
            y,
            scale,
            s0.config.height as int,
        ),
{
}

/// A button press followed by a release with no cursor motion in between
/// dispatches PointerDown then PointerUp at the same position, both with the
/// synthetic pointer identifier 0. The premise is what `handle_raw_event`
/// guarantees of a button event: it leaves the cursor unchanged.
pub proof fn lemma_press_release_same_position(s0: EventLoopDriver, s1: EventLoopDriver)
    requires
        s1.cursor == s0.cursor,
    ensures
        pointer_event_of(s0, true) == (LogicalEvent::PointerDown { id: 0, position: s0.cursor }),
        pointer_event_of(s1, false) == (LogicalEvent::PointerUp { id: 0, position: s0.cursor }),
{
}

/// Resizing clamps each dimension to exactly 1 when the platform reports a
/// value below 1, and never configures a zero dimension.
pub proof fn lemma_resize_clamps(width: u32, height: u32)
    ensures
        resize_config(width, height).width == if width == 0 {
            1u32
        } else {
            width
        },
        resize_config(width, height).height == if height == 0 {
            1u32
        } else {
            height
        },
        resize_config(width, height).width >= 1,
        resize_config(width, height).height >= 1,
{
}

} // verus!
