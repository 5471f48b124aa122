//! Computer-control action vocabulary.
//!
//! Every field of an action is optional so that one struct can carry any
//! action, which is why validation matters here: an action is only meaningful
//! when the right subset of fields is present. [`ComputerAction::validate`]
//! enforces that, and [`ComputerAction::to_cdp`] lowers a validated action
//! onto CDP input events.

use vstd::prelude::*;

use crate::text::{append_chars, chars_of, debug_chars, debug_str, eq_str, string_of};

verus! {

#[derive(Debug, Clone, Copy, PartialEq, Eq, Structural)]
pub struct Point {
    pub x: i32,
    pub y: i32,
}

#[derive(Debug, Clone, Copy, PartialEq, Eq, Structural)]
pub struct Region {
    pub x: i32,
    pub y: i32,
    pub width: i32,
    pub height: i32,
}

#[derive(Debug, Clone, Copy, PartialEq, Eq, Structural)]
pub enum ScrollDirection {
    Up,
    Down,
    Left,
    Right,
}

/// Scroll deltas `(dx, dy)` for one step of `amount` towards `d`.
pub open spec fn scroll_deltas(d: ScrollDirection, amount: int) -> (int, int) {
    match d {
        ScrollDirection::Up => (0, amount),
        ScrollDirection::Down => (0, -amount),
        ScrollDirection::Left => (amount, 0),
        ScrollDirection::Right => (-amount, 0),
    }
}

impl ScrollDirection {
    /// CDP `Input.dispatchMouseEvent` deltas for one scroll step.
    pub fn deltas(self, amount: i32) -> (r: (i32, i32))
        requires
            self == ScrollDirection::Down || self == ScrollDirection::Right ==> amount > i32::MIN,
        ensures
            (r.0 as int, r.1 as int) == scroll_deltas(self, amount as int),
    {
        match self {
            ScrollDirection::Up => (0, amount),
            ScrollDirection::Down => (0, -amount),
            ScrollDirection::Left => (amount, 0),
            ScrollDirection::Right => (-amount, 0),
        }
    }
}

/// One computer-control action; `action_type` selects which other fields are
/// meaningful.
#[derive(Debug, Clone, PartialEq)]
pub struct ComputerAction {
    /// Which action this is: click, double_click, right_click, move, type,
    /// key, scroll, drag, screenshot, wait.
    pub action_type: String,
    /// Target position, for pointer actions.
    pub coordinate: Option<Point>,
    /// Drag origin, paired with `coordinate` as the destination.
    pub start_coordinate: Option<Point>,
    /// Key name for `key`.
    pub key: Option<String>,
    /// Text to insert for `type`.
    pub text: Option<String>,
    /// Scroll magnitude.
    pub scroll_amount: Option<i32>,
    /// Scroll axis.
    pub scroll_direction: Option<ScrollDirection>,
    /// Region to crop, for `screenshot`.
    pub region: Option<Region>,
    /// Milliseconds to wait, for `wait`.
    pub duration: Option<u64>,
}

/// Every action type this vocabulary accepts.
pub open spec fn action_types() -> Seq<Seq<char>> {
    seq![
        "click"@,
        "double_click"@,
        "right_click"@,
        "move"@,
        "type"@,
        "key"@,
        "scroll"@,
        "drag"@,
        "screenshot"@,
        "wait"@,
    ]
}

/// `o` is absent or holds the empty string.
pub open spec fn blank(o: Option<String>) -> bool {
    match o {
        Some(s) => s@.len() == 0,
        None => true,
    }
}

/// Why `a` cannot be executed, if it cannot.
pub open spec fn validation_error(a: ComputerAction) -> Option<Seq<char>> {
    let t = a.action_type@;
    if !action_types().contains(t) {
        Some(
            "unknown action_type "@ + debug_str(t)
                + "; expected one of click, double_click, right_click, move, type, key, scroll, drag, screenshot, wait"@,
        )
    } else if t == "click"@ || t == "double_click"@ || t == "right_click"@ || t == "move"@ {
        if a.coordinate is None {
            Some(t + " requires `coordinate`"@)
        } else {
            None
        }
    } else if t == "drag"@ {
        if a.start_coordinate is None || a.coordinate is None {
            Some("drag requires both `start_coordinate` and `coordinate`"@)
        } else {
            None
        }
    } else if t == "type"@ {
        if blank(a.text) {
            Some("type requires non-empty `text`"@)
        } else {
            None
        }
    } else if t == "key"@ {
        if blank(a.key) {
            Some("key requires a non-empty `key` name"@)
        } else {
            None
        }
    } else if t == "scroll"@ {
        if a.scroll_amount is None || a.scroll_amount == Some(0i32) {
            Some("scroll requires a non-zero `scroll_amount`"@)
        } else if a.scroll_direction is None {
            Some("scroll requires `scroll_direction`"@)
        } else {
            None
        }
    } else if t == "screenshot"@ {
        match a.region {
            Some(r) => if r.width <= 0 || r.height <= 0 {
                Some("screenshot `region` must have positive width and height"@)
            } else {
                None
            },
            None => None,
        }
    } else if t == "wait"@ && (a.duration is None || a.duration == Some(0u64)) {
        Some("wait requires a non-zero `duration` in milliseconds"@)
    } else {
        None
    }
}

#[derive(Debug, Clone, Copy, PartialEq, Eq, Structural)]
pub enum MouseEventKind {
    Pressed,
    Released,
    Moved,
}

#[derive(Debug, Clone, Copy, PartialEq, Eq, Structural)]
pub enum MouseButton {
    Left,
    Right,
}

/// One CDP command: the method is fixed by the variant, the fields are its
/// parameters.
#[derive(Debug, Clone, PartialEq)]
pub enum CdpCall {
    /// `Input.dispatchMouseEvent` with a press, release or move.
    Mouse {
        kind: MouseEventKind,
        x: i32,
        y: i32,
        button: Option<MouseButton>,
        click_count: Option<u8>,
    },
    /// `Input.dispatchMouseEvent` of type `mouseWheel`.
    Wheel { x: i32, y: i32, delta_x: i32, delta_y: i32 },
    /// `Input.dispatchKeyEvent` of type `char`, inserting one character.
    TypeChar { ch: char },
    /// `Input.dispatchKeyEvent` of type `keyDown` (or `keyUp`).
    Key { down: bool, key: String },
    /// `Page.captureScreenshot` as PNG, cropped to `clip` when given.
    Screenshot { clip: Option<Region> },
}

pub open spec fn cdp_method(c: CdpCall) -> Seq<char> {
    match c {
        CdpCall::Mouse { .. } => "Input.dispatchMouseEvent"@,
        CdpCall::Wheel { .. } => "Input.dispatchMouseEvent"@,
        CdpCall::TypeChar { .. } => "Input.dispatchKeyEvent"@,
        CdpCall::Key { .. } => "Input.dispatchKeyEvent"@,
        CdpCall::Screenshot { .. } => "Page.captureScreenshot"@,
    }
}

impl CdpCall {
    /// The CDP method this command invokes.
    pub fn method(&self) -> (r: &'static str)
        ensures
            r@ == cdp_method(*self),
    {
        match self {
            CdpCall::Mouse { .. } => "Input.dispatchMouseEvent",
            CdpCall::Wheel { .. } => "Input.dispatchMouseEvent",
            CdpCall::TypeChar { .. } => "Input.dispatchKeyEvent",
            CdpCall::Key { .. } => "Input.dispatchKeyEvent",
            CdpCall::Screenshot { .. } => "Page.captureScreenshot",
        }
    }
}

pub open spec fn mouse(
    kind: MouseEventKind,
    p: Point,
    button: Option<MouseButton>,
    click_count: Option<u8>,
) -> CdpCall {
    CdpCall::Mouse { kind, x: p.x, y: p.y, button, click_count }
}

/// `cmds` are the CDP commands that carry out the valid action `a`.
pub open spec fn lowered(a: ComputerAction, cmds: Seq<CdpCall>) -> bool {
    let t = a.action_type@;
    let p = a.coordinate.unwrap();
    if t == "move"@ {
        cmds == seq![mouse(MouseEventKind::Moved, p, None, None)]
    } else if t == "click"@ || t == "right_click"@ {
        let b = if t == "right_click"@ {
            MouseButton::Right
        } else {
            MouseButton::Left
        };
        cmds == seq![
            mouse(MouseEventKind::Pressed, p, Some(b), Some(1u8)),
            mouse(MouseEventKind::Released, p, Some(b), Some(1u8)),
        ]
    } else if t == "double_click"@ {
        let b = Some(MouseButton::Left);
        cmds == seq![
            mouse(MouseEventKind::Pressed, p, b, Some(2u8)),
            mouse(MouseEventKind::Released, p, b, Some(2u8)),
            mouse(MouseEventKind::Pressed, p, b, Some(2u8)),
            mouse(MouseEventKind::Released, p, b, Some(2u8)),
        ]
    } else if t == "drag"@ {
        let s = a.start_coordinate.unwrap();
        let b = Some(MouseButton::Left);
        cmds == seq![
            mouse(MouseEventKind::Pressed, s, b, Some(1u8)),
            mouse(MouseEventKind::Moved, p, b, None),
            mouse(MouseEventKind::Released, p, b, Some(1u8)),
        ]
    } else if t == "type"@ {
        cmds == char_calls(a.text.unwrap()@)
    } else if t == "key"@ {
        let k = a.key.unwrap()@;
        &&& cmds.len() == 2
        &&& cmds[0] matches CdpCall::Key { down: true, key } && key@ == k
        &&& cmds[1] matches CdpCall::Key { down: false, key } && key@ == k
    } else if t == "scroll"@ {
        let amount = a.scroll_amount.unwrap();
        let magnitude = if amount < 0 {
            -amount
        } else {
            amount as int
        };
        let (dx, dy) = scroll_deltas(a.scroll_direction.unwrap(), magnitude);
        let at = match a.coordinate {
            Some(q) => q,
            None => Point { x: 0, y: 0 },
        };
        &&& cmds.len() == 1
        &&& cmds[0] matches CdpCall::Wheel { x, y, delta_x, delta_y } && x == at.x && y == at.y
            && delta_x == dx && delta_y == dy
    } else if t == "wait"@ {
        cmds.len() == 0
    } else if t == "screenshot"@ {
        cmds == seq![CdpCall::Screenshot { clip: a.region }]
    } else {
        false
    }
}

fn is_blank(o: &Option<String>) -> (r: bool)
    ensures
        r == blank(*o),
{
    match o {
        Some(s) => s.as_str().is_empty(),
        None => true,
    }
}

fn owned(s: &[char]) -> (r: String)
    ensures
        r@ == s@,
{
    string_of(s)
}

fn with_suffix(head: &[char], tail: &str) -> (r: String)
    ensures
        r@ == head@ + tail@,
{
    let mut v = crate::text::copy_range(head, 0, head.len());
    append_chars(&mut v, chars_of(tail).as_slice());
    string_of(v.as_slice())
}

/// One `char` key event per character of `text`, in order.
pub open spec fn char_calls(text: Seq<char>) -> Seq<CdpCall>
    decreases text.len(),
{
    if text.len() == 0 {
        Seq::<CdpCall>::empty()
    } else {
        char_calls(text.drop_last()).push(CdpCall::TypeChar { ch: text.last() })
    }
}

fn char_events(chars: &[char]) -> (r: Vec<CdpCall>)
    ensures
        r@ == char_calls(chars@),
{
    let mut out: Vec<CdpCall> = Vec::new();
    let mut k: usize = 0;
    assert(chars@.take(0) =~= Seq::<char>::empty());
    while k < chars.len()
        invariant
            k <= chars@.len(),
            out@ == char_calls(chars@.take(k as int)),
        decreases chars@.len() - k,
    {
        let c = chars[k];
        let ghost before = out@;
        out.push(CdpCall::TypeChar { ch: c });
        assert(chars@.take(k + 1).drop_last() =~= chars@.take(k as int));
        k = k + 1;
    }
    assert(chars@.take(k as int) =~= chars@);
    out
}

impl ComputerAction {
    pub fn new(action_type: &str) -> (r: Self)
        ensures
            r.action_type@ == action_type@,
            r.coordinate is None,
            r.start_coordinate is None,
            r.key is None,
            r.text is None,
            r.scroll_amount is None,
            r.scroll_direction is None,
            r.region is None,
            r.duration is None,
    {
        ComputerAction {
            action_type: action_type.to_owned(),
            coordinate: None,
            start_coordinate: None,
            key: None,
            text: None,
            scroll_amount: None,
            scroll_direction: None,
            region: None,
            duration: None,
        }
    }

    /// Every action type this vocabulary accepts.
    pub fn types() -> (r: Vec<&'static str>)
        ensures
            r@.map_values(|s: &'static str| s@) == action_types(),
    {
        let v = vec![
            "click",
            "double_click",
            "right_click",
            "move",
            "type",
            "key",
            "scroll",
            "drag",
            "screenshot",
            "wait",
        ];
        assert(v@.map_values(|s: &'static str| s@) =~= action_types());
        v
    }

    /// Reject an action that cannot be executed.
    ///
    /// This is the trust boundary for model-authored input: a malformed action
    /// is rejected here rather than becoming a no-op pointer event at (0,0)
    /// that silently looks like it worked.
    pub fn validate(&self) -> (r: Result<(), String>)
        ensures
            match validation_error(*self) {
                None => r is Ok,
                Some(m) => r matches Err(e) && e@ == m,
            },
    {
        let t = chars_of(self.action_type.as_str());
        let t = t.as_slice();
        let known = eq_str(t, "click") || eq_str(t, "double_click") || eq_str(t, "right_click")
            || eq_str(t, "move") || eq_str(t, "type") || eq_str(t, "key") || eq_str(t, "scroll")
            || eq_str(t, "drag") || eq_str(t, "screenshot") || eq_str(t, "wait");
        assert(known == action_types().contains(t@)) by {
            if known {
                assert(exists|i: int| 0 <= i < 10 && action_types()[i] == t@);
            }
        }
        if !known {
            let mut m = chars_of("unknown action_type ");
            append_chars(&mut m, debug_chars(t).as_slice());
            append_chars(
                &mut m,
                chars_of(
                    "; expected one of click, double_click, right_click, move, type, key, scroll, drag, screenshot, wait",
                ).as_slice(),
            );
            return Err(owned(m.as_slice()));
        }
        if eq_str(t, "click") || eq_str(t, "double_click") || eq_str(t, "right_click") || eq_str(
            t,
            "move",
        ) {
            if self.coordinate.is_none() {
                return Err(with_suffix(t, " requires `coordinate`"));
            }
        } else if eq_str(t, "drag") {
            if self.start_coordinate.is_none() || self.coordinate.is_none() {
                return Err("drag requires both `start_coordinate` and `coordinate`".to_owned());
            }
        } else if eq_str(t, "type") {
            if is_blank(&self.text) {
                return Err("type requires non-empty `text`".to_owned());
            }
        } else if eq_str(t, "key") {
            if is_blank(&self.key) {
                return Err("key requires a non-empty `key` name".to_owned());
            }
        } else if eq_str(t, "scroll") {
            let zero = match self.scroll_amount {
                Some(n) => n == 0,
                None => true,
            };
            if zero {
                return Err("scroll requires a non-zero `scroll_amount`".to_owned());
            }
            if self.scroll_direction.is_none() {
                return Err("scroll requires `scroll_direction`".to_owned());
            }
        } else if eq_str(t, "screenshot") {
            if let Some(r) = self.region {
                if r.width <= 0 || r.height <= 0 {
                    return Err(
                        "screenshot `region` must have positive width and height".to_owned(),
                    );
                }
            }
        } else if eq_str(t, "wait") {
            let zero = match self.duration {
                Some(n) => n == 0,
                None => true,
            };
            if zero {
                return Err("wait requires a non-zero `duration` in milliseconds".to_owned());
            }
        }
        Ok(())
    }

    /// Lower to CDP commands.
    ///
    /// Validates first. Coordinates are forwarded as-is; the caller converts
    /// from the model's viewport space if the screenshot it saw was scaled.
    pub fn to_cdp(&self) -> (r: Result<Vec<CdpCall>, String>)
        requires
            validation_error(*self) is None ==> !(self.action_type@ == "scroll"@
                && self.scroll_amount == Some(i32::MIN)),
        ensures
            match validation_error(*self) {
                Some(m) => r matches Err(e) && e@ == m,
                None => r matches Ok(cmds) && lowered(*self, cmds@),
            },
    {
        match self.validate() {
            Err(e) => {
                return Err(e);
            },
            Ok(()) => {},
        }
        let t = chars_of(self.action_type.as_str());
        let t = t.as_slice();
        let mut out: Vec<CdpCall> = Vec::new();
        proof {
            reveal_strlit("wait");
            reveal_strlit("screenshot");
            reveal_strlit("type");
            reveal_strlit("move");
            reveal_strlit("drag");
            reveal_strlit("key");
            reveal_strlit("scroll");
            reveal_strlit("click");
            reveal_strlit("right_click");
            reveal_strlit("double_click");
        }
        if eq_str(t, "move") {
            let p = self.coordinate.unwrap();
            out.push(
                CdpCall::Mouse {
                    kind: MouseEventKind::Moved,
                    x: p.x,
                    y: p.y,
                    button: None,
                    click_count: None,
                },
            );
            assert(out@ =~= seq![mouse(MouseEventKind::Moved, p, None, None)]);
            assert(lowered(*self, out@));
        } else if eq_str(t, "click") || eq_str(t, "right_click") {
            let p = self.coordinate.unwrap();
            let b = if eq_str(t, "right_click") {
                MouseButton::Right
            } else {
                MouseButton::Left
            };
            out.push(
                CdpCall::Mouse {
                    kind: MouseEventKind::Pressed,
                    x: p.x,
                    y: p.y,
                    button: Some(b),
                    click_count: Some(1),
                },
            );
            out.push(
                CdpCall::Mouse {
                    kind: MouseEventKind::Released,
                    x: p.x,
                    y: p.y,
                    button: Some(b),
                    click_count: Some(1),
                },
            );
            assert(out@ =~= seq![
                mouse(MouseEventKind::Pressed, p, Some(b), Some(1u8)),
                mouse(MouseEventKind::Released, p, Some(b), Some(1u8)),
            ]);
            assert(lowered(*self, out@));
        } else if eq_str(t, "double_click") {
            let p = self.coordinate.unwrap();
            let mut k: usize = 0;
            while k < 2
                invariant
                    k <= 2,
                    out@.len() == 2 * k,
                    forall|i: int|
                        0 <= i < out@.len() ==> #[trigger] out@[i] == mouse(
                            if i % 2 == 0 {
                                MouseEventKind::Pressed
                            } else {
                                MouseEventKind::Released
                            },
                            p,
                            Some(MouseButton::Left),
                            Some(2u8),
                        ),
                decreases 2 - k,
            {
                out.push(
                    CdpCall::Mouse {
                        kind: MouseEventKind::Pressed,
                        x: p.x,
                        y: p.y,
                        button: Some(MouseButton::Left),
                        click_count: Some(2),
                    },
                );
                out.push(
                    CdpCall::Mouse {
                        kind: MouseEventKind::Released,
                        x: p.x,
                        y: p.y,
                        button: Some(MouseButton::Left),
                        click_count: Some(2),
                    },
                );
                k = k + 1;
            }
            let b = Some(MouseButton::Left);
            assert(out@ =~= seq![
                mouse(MouseEventKind::Pressed, p, b, Some(2u8)),
                mouse(MouseEventKind::Released, p, b, Some(2u8)),
                mouse(MouseEventKind::Pressed, p, b, Some(2u8)),
                mouse(MouseEventKind::Released, p, b, Some(2u8)),
            ]) by {
                assert(out@[0] == mouse(MouseEventKind::Pressed, p, b, Some(2u8)));
                assert(out@[1] == mouse(MouseEventKind::Released, p, b, Some(2u8)));
                assert(out@[2] == mouse(MouseEventKind::Pressed, p, b, Some(2u8)));
                assert(out@[3] == mouse(MouseEventKind::Released, p, b, Some(2u8)));
            }
            assert(lowered(*self, out@));
        } else if eq_str(t, "drag") {
            let s = self.start_coordinate.unwrap();
            let p = self.coordinate.unwrap();
            out.push(
                CdpCall::Mouse {
                    kind: MouseEventKind::Pressed,
                    x: s.x,
                    y: s.y,
                    button: Some(MouseButton::Left),
                    click_count: Some(1),
                },
            );
            out.push(
                CdpCall::Mouse {
                    kind: MouseEventKind::Moved,
                    x: p.x,
                    y: p.y,
                    button: Some(MouseButton::Left),
                    click_count: None,
                },
            );
            out.push(
                CdpCall::Mouse {
                    kind: MouseEventKind::Released,
                    x: p.x,
                    y: p.y,
                    button: Some(MouseButton::Left),
                    click_count: Some(1),
                },
            );
            let b = Some(MouseButton::Left);
            assert(out@ =~= seq![
                mouse(MouseEventKind::Pressed, s, b, Some(1u8)),
                mouse(MouseEventKind::Moved, p, b, None),
                mouse(MouseEventKind::Released, p, b, Some(1u8)),
            ]);
            assert(lowered(*self, out@));
        } else if eq_str(t, "type") {
            let text = match &self.text {
                Some(s) => chars_of(s.as_str()),
                None => Vec::new(),
            };
            out = char_events(text.as_slice());
            assert(lowered(*self, out@));
        } else if eq_str(t, "key") {
            let k = match &self.key {
                Some(s) => s.as_str(),
                None => "",
            };
            out.push(CdpCall::Key { down: true, key: k.to_owned() });
            out.push(CdpCall::Key { down: false, key: k.to_owned() });
            assert(lowered(*self, out@));
        } else if eq_str(t, "scroll") {
            let raw = match self.scroll_amount {
                Some(n) => n,
                None => 0,
            };
            let amount = if raw < 0 {
                -raw
            } else {
                raw
            };
            let (dx, dy) = self.scroll_direction.unwrap().deltas(amount);
            let p = match self.coordinate {
                Some(q) => q,
                None => Point { x: 0, y: 0 },
            };
            out.push(CdpCall::Wheel { x: p.x, y: p.y, delta_x: dx, delta_y: dy });
            assert(lowered(*self, out@));
        } else if eq_str(t, "screenshot") {
            out.push(CdpCall::Screenshot { clip: self.region });
            assert(out@ =~= seq![CdpCall::Screenshot { clip: self.region }]);
            assert("screenshot"@.len() != "wait"@.len());
            assert(lowered(*self, out@));
        } else {
            assert(lowered(*self, out@));
        }
        Ok(out)
    }
}

} // verus!
