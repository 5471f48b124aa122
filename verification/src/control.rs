//! Native computer control: the decisions of one `computer_control` call.
//!
//! Driving the browser is the caller's work (it owns the CDP session, the
//! sleeps and the screenshots). This module decides everything else: which
//! arguments are acceptable, what each action lowers to, what is logged, and
//! how the outcome is reported. [`ControlRun`] is the loop's state: ask it for
//! the next step, perform it, and report back.

use vstd::prelude::*;

use crate::actions::{action_types, lowered, validation_error, CdpCall, ComputerAction, Point};
use crate::text::{append_chars, chars_of, decimal, decimal_u64, join, signed_decimal, string_of, views};

verus! {

pub const EXTENSION_NAME: &'static str = "computer_control";

pub const CONTROL_TOOL: &'static str = "computer_control";

/// Default debug port for a locally launched Chrome.
pub const DEFAULT_DEBUG_PORT: u16 = 9222;

/// Where Chrome's debug port lives.
#[derive(Debug, Clone)]
pub struct CdpTarget {
    pub host: String,
    pub port: u16,
}

impl Default for CdpTarget {
    fn default() -> (r: Self)
        ensures
            r.host@ == "127.0.0.1"@,
            r.port == 9222,
    {
        CdpTarget { host: "127.0.0.1".to_owned(), port: 9222 }
    }
}

impl CdpTarget {
    pub fn http_base(&self) -> (r: String)
        ensures
            r@ == "http://"@ + self.host@ + ":"@ + decimal(self.port as nat),
    {
        let mut v = chars_of("http://");
        append_chars(&mut v, chars_of(self.host.as_str()).as_slice());
        append_chars(&mut v, chars_of(":").as_slice());
        append_chars(&mut v, decimal_u64(self.port as u64).as_slice());
        string_of(v.as_slice())
    }

    /// The discovery endpoint: `/json/version` on the debug port.
    pub fn version_url(&self) -> (r: String)
        ensures
            r@ == "http://"@ + self.host@ + ":"@ + decimal(self.port as nat) + "/json/version"@,
    {
        let base = self.http_base();
        let mut v = chars_of(base.as_str());
        append_chars(&mut v, chars_of("/json/version").as_slice());
        string_of(v.as_slice())
    }

    /// The page target's WebSocket URL from the discovery reply's
    /// `webSocketDebuggerUrl` field, or why there is none.
    pub fn debugger_url(&self, found: Option<String>) -> (r: Result<String, String>)
        ensures
            match found {
                Some(u) => r == Ok::<String, String>(u),
                None => r matches Err(m) && m@ == "no webSocketDebuggerUrl in "@ + "http://"@
                    + self.host@ + ":"@ + decimal(self.port as nat) + "/json/version"@
                    + " response; is Chrome running with --remote-debugging-port="@ + decimal(
                    self.port as nat,
                ) + "?"@,
            },
    {
        match found {
            Some(u) => Ok(u),
            None => {
                let url = self.version_url();
                let mut v = chars_of("no webSocketDebuggerUrl in ");
                append_chars(&mut v, chars_of(url.as_str()).as_slice());
                append_chars(
                    &mut v,
                    chars_of(" response; is Chrome running with --remote-debugging-port=").as_slice(),
                );
                append_chars(&mut v, decimal_u64(self.port as u64).as_slice());
                append_chars(&mut v, chars_of("?").as_slice());
                Err(string_of(v.as_slice()))
            },
        }
    }
}

/// The reply awaited for a command has arrived, or has not.
#[derive(Debug, Clone, PartialEq, Eq)]
pub enum ReplyCheck {
    /// Not the reply to this command (an event, or another id): keep reading.
    Skip,
    /// The reply, without error.
    Done,
    /// The reply, carrying an error.
    Failed(String),
}

/// Judge one incoming message while awaiting the reply to command `id`
/// (`method`): `msg_id` is the message's id, `error` its error rendered as
/// text.
pub fn check_reply(id: u64, method: &str, msg_id: Option<u64>, error: Option<String>) -> (r: ReplyCheck)
    ensures
        msg_id != Some(id) ==> r == ReplyCheck::Skip,
        msg_id == Some(id) ==> match error {
            Some(e) => r matches ReplyCheck::Failed(m) && m@ == "CDP "@ + method@ + " error: "@ + e@,
            None => r == ReplyCheck::Done,
        },
{
    match msg_id {
        Some(m) => {
            if m != id {
                return ReplyCheck::Skip;
            }
        },
        None => {
            return ReplyCheck::Skip;
        },
    }
    match error {
        Some(e) => {
            let mut v = chars_of("CDP ");
            append_chars(&mut v, chars_of(method).as_slice());
            append_chars(&mut v, chars_of(" error: ").as_slice());
            append_chars(&mut v, chars_of(e.as_str()).as_slice());
            ReplyCheck::Failed(string_of(v.as_slice()))
        },
        None => ReplyCheck::Done,
    }
}

/// Messages read while awaiting one reply before giving up.
pub const MAX_REPLY_WAIT: usize = 512;

/// The debug port to attach to: the `port` argument cut to 16 bits, or the
/// default.
pub fn debug_port(arg: Option<u64>) -> (r: u16)
    ensures
        r == match arg {
            Some(v) => (v % 65536) as u16,
            None => DEFAULT_DEBUG_PORT,
        },
{
    match arg {
        Some(v) => (v % 65536) as u16,
        None => DEFAULT_DEBUG_PORT,
    }
}

/// No action of `actions` scrolls by `i32::MIN`, whose magnitude has no
/// `i32`.
pub open spec fn scroll_magnitudes_fit(actions: Seq<ComputerAction>) -> bool {
    forall|i: int|
        0 <= i < actions.len() ==> !(#[trigger] actions[i].action_type@ == "scroll"@
            && actions[i].scroll_amount == Some(i32::MIN))
}

/// The first action, by position, that cannot be executed.
pub open spec fn first_invalid(actions: Seq<ComputerAction>, from: int) -> Option<int>
    decreases actions.len() - from,
{
    if from < 0 || from >= actions.len() {
        None
    } else if validation_error(actions[from]) is Some {
        Some(from)
    } else {
        first_invalid(actions, from + 1)
    }
}

pub proof fn lemma_first_invalid(actions: Seq<ComputerAction>, from: int)
    requires
        0 <= from,
    ensures
        match first_invalid(actions, from) {
            Some(i) => from <= i < actions.len() && validation_error(actions[i]) is Some
                && forall|j: int| from <= j < i ==> validation_error(#[trigger] actions[j]) is None,
            None => forall|j: int|
                from <= j < actions.len() ==> validation_error(#[trigger] actions[j]) is None,
        },
    decreases actions.len() - from,
{
    if from < actions.len() && validation_error(actions[from]) is None {
        lemma_first_invalid(actions, from + 1);
    }
}

/// What the caller does next.
#[derive(Debug, Clone)]
pub enum ControlStep {
    /// Sleep this many milliseconds (the step is then already logged).
    Wait(u64),
    /// Send these commands in order, then call [`ControlRun::completed`].
    Send(Vec<CdpCall>),
    /// Every action has run.
    Finished,
}

/// The state of one call: the validated actions, the next one to run, and
/// the log of what has run.
pub struct ControlRun {
    actions: Vec<ComputerAction>,
    next: usize,
    log: Vec<String>,
}

/// The log line for a completed action: its type, and where when it had a
/// coordinate.
pub open spec fn log_entry(a: ComputerAction) -> Seq<char> {
    match a.coordinate {
        Some(p) => a.action_type@ + " at ("@ + signed_decimal(p.x as int) + ","@
            + signed_decimal(p.y as int) + ")"@,
        None => a.action_type@,
    }
}

pub open spec fn wait_entry(ms: u64) -> Seq<char> {
    "wait "@ + decimal(ms as nat) + "ms"@
}

/// Each log line as a bullet.
pub open spec fn bullets(log: Seq<Seq<char>>) -> Seq<Seq<char>>
    decreases log.len(),
{
    if log.len() == 0 {
        Seq::<Seq<char>>::empty()
    } else {
        bullets(log.drop_last()).push("  - "@ + log.last())
    }
}

/// The report of a finished run.
pub open spec fn run_report(log: Seq<Seq<char>>, title: Seq<char>, url: Seq<char>) -> Seq<char> {
    "performed "@ + decimal(log.len()) + " action(s):\n"@ + join(bullets(log), "\n"@)
        + "\n\npage: "@ + title + "\nurl: "@ + url
}

impl ControlRun {
    pub closed spec fn actions(&self) -> Seq<ComputerAction> {
        self.actions@
    }

    pub closed spec fn position(&self) -> int {
        self.next as int
    }

    pub closed spec fn log(&self) -> Seq<Seq<char>> {
        views_of_strings(self.log@)
    }

    /// Well-formed: every action valid and lowerable, the position inside.
    pub closed spec fn wf(&self) -> bool {
        &&& self.next <= self.actions@.len()
        &&& forall|i: int| 0 <= i < self.actions@.len() ==> validation_error(#[trigger] self.actions@[i]) is None
        &&& scroll_magnitudes_fit(self.actions@)
    }

    /// Validate every action before touching the browser, so a bad third
    /// action cannot leave the page half-driven.
    pub fn new(actions: Vec<ComputerAction>) -> (r: Result<ControlRun, String>)
        requires
            first_invalid(actions@, 0) is None ==> scroll_magnitudes_fit(actions@),
        ensures
            match first_invalid(actions@, 0) {
                Some(i) => r matches Err(m) && m@ == "action "@ + decimal(i as nat) + " ("@
                    + actions@[i].action_type@ + ") is invalid: "@ + validation_error(
                    actions@[i],
                ).unwrap(),
                None => r matches Ok(run) && run.wf() && run.actions() == actions@
                    && run.position() == 0 && run.log().len() == 0,
            },
    {
        let mut i: usize = 0;
        proof {
            lemma_first_invalid(actions@, 0);
        }
        while i < actions.len()
            invariant
                i <= actions@.len(),
                first_invalid(actions@, 0) == first_invalid(actions@, i as int),
                forall|j: int| 0 <= j < i ==> validation_error(#[trigger] actions@[j]) is None,
            decreases actions@.len() - i,
        {
            match actions[i].validate() {
                Err(e) => {
                    let mut v = chars_of("action ");
                    append_chars(&mut v, decimal_u64(i as u64).as_slice());
                    append_chars(&mut v, chars_of(" (").as_slice());
                    append_chars(&mut v, chars_of(actions[i].action_type.as_str()).as_slice());
                    append_chars(&mut v, chars_of(") is invalid: ").as_slice());
                    append_chars(&mut v, chars_of(e.as_str()).as_slice());
                    return Err(string_of(v.as_slice()));
                },
                Ok(()) => {},
            }
            i = i + 1;
        }
        let run = ControlRun { actions, next: 0, log: Vec::new() };
        assert(run.log() =~= Seq::<Seq<char>>::empty());
        Ok(run)
    }

    /// The next step. A wait is logged as it is handed out; any other action
    /// is logged by [`ControlRun::completed`] once its commands succeeded.
    pub fn next_step(&mut self) -> (r: ControlStep)
        requires
            old(self).wf(),
        ensures
            final(self).wf(),
            final(self).actions() == old(self).actions(),
            old(self).position() == old(self).actions().len() ==> r is Finished && *final(self) == *old(self),
            old(self).position() < old(self).actions().len() ==> ({
                let a = old(self).actions()[old(self).position()];
                if a.action_type@ == "wait"@ {
                    &&& r matches ControlStep::Wait(ms) && ms == a.duration.unwrap()
                    &&& final(self).position() == old(self).position() + 1
                    &&& final(self).log() == old(self).log().push(wait_entry(a.duration.unwrap()))
                } else {
                    &&& r matches ControlStep::Send(cmds) && lowered(a, cmds@)
                    &&& final(self).position() == old(self).position()
                    &&& final(self).log() == old(self).log()
                }
            }),
    {
        if self.next >= self.actions.len() {
            return ControlStep::Finished;
        }
        let ghost i = self.next as int;
        proof {
            reveal_strlit("wait");
            reveal_strlit("screenshot");
            reveal_strlit("type");
            reveal_strlit("move");
            reveal_strlit("drag");
            reveal_strlit("key");
            reveal_strlit("scroll");
            reveal_strlit("click");
            reveal_strlit("right_click");
            reveal_strlit("double_click");
        }
        assert(action_types()[9] == "wait"@);
        assert(validation_error(self.actions@[i]) is None);
        assert(!(self.actions@[i].action_type@ == "scroll"@ && self.actions@[i].scroll_amount == Some(i32::MIN)));
        let t = chars_of(self.actions[self.next].action_type.as_str());
        if crate::text::eq_str(t.as_slice(), "wait") {
            let ms = match self.actions[self.next].duration {
                Some(d) => d,
                None => 0,
            };
            assert("wait"@[0] != "move"@[0]);
            assert("wait"@[0] != "type"@[0]);
            assert("wait"@[0] != "drag"@[0]);
            let mut v = chars_of("wait ");
            append_chars(&mut v, decimal_u64(ms).as_slice());
            append_chars(&mut v, chars_of("ms").as_slice());
            let entry = string_of(v.as_slice());
            let ghost before = self.log@;
            self.log.push(entry);
            assert(views_of_strings(self.log@) =~= views_of_strings(before).push(entry@));
            self.next = self.next + 1;
            return ControlStep::Wait(ms);
        }
        match self.actions[self.next].to_cdp() {
            Ok(cmds) => ControlStep::Send(cmds),
            Err(_) => ControlStep::Finished,
        }
    }

    /// The commands of the current action all succeeded: log it and move on.
    pub fn completed(&mut self)
        requires
            old(self).wf(),
            old(self).position() < old(self).actions().len(),
        ensures
            final(self).wf(),
            final(self).actions() == old(self).actions(),
            final(self).position() == old(self).position() + 1,
            final(self).log() == old(self).log().push(log_entry(old(self).actions()[old(self).position()])),
    {
        let len = self.actions.len();
        assert(self.next < len);
        let following = self.next + 1;
        let a = &self.actions[self.next];
        let mut v = chars_of(a.action_type.as_str());
        match a.coordinate {
            Some(Point { x, y }) => {
                append_chars(&mut v, chars_of(" at (").as_slice());
                append_chars(&mut v, crate::text::decimal_i64(x as i64).as_slice());
                append_chars(&mut v, chars_of(",").as_slice());
                append_chars(&mut v, crate::text::decimal_i64(y as i64).as_slice());
                append_chars(&mut v, chars_of(")").as_slice());
            },
            None => {},
        }
        let entry = string_of(v.as_slice());
        let ghost before = self.log@;
        self.log.push(entry);
        assert(views_of_strings(self.log@) =~= views_of_strings(before).push(entry@));
        self.next = following;
    }

    /// What was performed, with the page it ended on.
    pub fn report(&self, title: &str, url: &str) -> (r: String)
        ensures
            r@ == run_report(self.log(), title@, url@),
    {
        let mut lines: Vec<Vec<char>> = Vec::new();
        let mut k: usize = 0;
        while k < self.log.len()
            invariant
                k <= self.log@.len(),
                views(lines@) == bullets(views_of_strings(self.log@).take(k as int)),
            decreases self.log@.len() - k,
        {
            let mut line = chars_of("  - ");
            append_chars(&mut line, chars_of(self.log[k].as_str()).as_slice());
            let ghost before = views(lines@);
            lines.push(line);
            assert(views_of_strings(self.log@).take(k + 1).drop_last() =~= views_of_strings(
                self.log@,
            ).take(k as int));
            assert(views(lines@) =~= bullets(views_of_strings(self.log@).take(k + 1)));
            k = k + 1;
        }
        assert(views_of_strings(self.log@).take(k as int) =~= views_of_strings(self.log@));
        let body = crate::text::join_chars(&lines, chars_of("\n").as_slice());
        let mut v = chars_of("performed ");
        append_chars(&mut v, decimal_u64(self.log.len() as u64).as_slice());
        append_chars(&mut v, chars_of(" action(s):\n").as_slice());
        append_chars(&mut v, body.as_slice());
        append_chars(&mut v, chars_of("\n\npage: ").as_slice());
        append_chars(&mut v, chars_of(title).as_slice());
        append_chars(&mut v, chars_of("\nurl: ").as_slice());
        append_chars(&mut v, chars_of(url).as_slice());
        string_of(v.as_slice())
    }
}

pub open spec fn views_of_strings(v: Seq<String>) -> Seq<Seq<char>> {
    v.map_values(|s: String| s@)
}

/// The note on the screenshot taken after the actions: its size, or why it
/// failed.
pub fn screenshot_note(shot: Result<usize, String>) -> (r: String)
    ensures
        match shot {
            Ok(n) => r@ == "\n\nscreenshot: "@ + decimal(n as nat) + " bytes (png)"@,
            Err(e) => r@ == "\n\nscreenshot failed: "@ + e@,
        },
{
    match shot {
        Ok(n) => {
            let mut v = chars_of("\n\nscreenshot: ");
            append_chars(&mut v, decimal_u64(n as u64).as_slice());
            append_chars(&mut v, chars_of(" bytes (png)").as_slice());
            string_of(v.as_slice())
        },
        Err(e) => {
            let mut v = chars_of("\n\nscreenshot failed: ");
            append_chars(&mut v, chars_of(e.as_str()).as_slice());
            string_of(v.as_slice())
        },
    }
}

/// The reply to a call of a tool this extension does not have.
pub fn unknown_tool(name: &str) -> (r: String)
    ensures
        r@ == "Unknown tool: "@ + name@,
{
    let mut v = chars_of("Unknown tool: ");
    append_chars(&mut v, chars_of(name).as_slice());
    string_of(v.as_slice())
}

/// Attaching to the browser on `port` failed with `err`.
pub fn attach_failure(port: u16, err: &str) -> (r: String)
    ensures
        r@ == "Could not attach to a browser on port "@ + decimal(port as nat) + ": "@ + err@
            + "\n\nStart Chrome with: --remote-debugging-port="@ + decimal(port as nat),
{
    let p = decimal_u64(port as u64);
    let mut v = chars_of("Could not attach to a browser on port ");
    append_chars(&mut v, p.as_slice());
    append_chars(&mut v, chars_of(": ").as_slice());
    append_chars(&mut v, chars_of(err).as_slice());
    append_chars(&mut v, chars_of("\n\nStart Chrome with: --remote-debugging-port=").as_slice());
    append_chars(&mut v, p.as_slice());
    string_of(v.as_slice())
}

/// Navigating to `url` before the actions failed with `err`.
pub fn navigation_failure(url: &str, err: &str) -> (r: String)
    ensures
        r@ == "navigation to "@ + url@ + " failed: "@ + err@,
{
    let mut v = chars_of("navigation to ");
    append_chars(&mut v, chars_of(url).as_slice());
    append_chars(&mut v, chars_of(" failed: ").as_slice());
    append_chars(&mut v, chars_of(err).as_slice());
    string_of(v.as_slice())
}

/// Command `method` of action `action_type` failed with `err`.
pub fn command_failure(action_type: &str, method: &str, err: &str) -> (r: String)
    ensures
        r@ == "action "@ + action_type@ + " failed at "@ + method@ + ": "@ + err@,
{
    let mut v = chars_of("action ");
    append_chars(&mut v, chars_of(action_type).as_slice());
    append_chars(&mut v, chars_of(" failed at ").as_slice());
    append_chars(&mut v, chars_of(method).as_slice());
    append_chars(&mut v, chars_of(": ").as_slice());
    append_chars(&mut v, chars_of(err).as_slice());
    string_of(v.as_slice())
}


/// The tool this extension offers.
pub fn get_tools() -> (r: Vec<crate::tools::ToolSpec>)
    ensures
        r@.len() == 1,
        r@[0].name@ == CONTROL_TOOL@,
        r@[0].description@ == "Drive a real browser: click, double-click, right-click, move, type, press a key, scroll, drag, capture a screenshot, or wait. Provide one or more actions; they run in order.\n\nThis is actuation, not inspection: use it to operate a page. To read what a page renders without interacting, use browser_preview instead.\n\nRequires Chrome running with --remote-debugging-port=<port> (default 9222). Coordinates are viewport pixels; a screenshot is returned afterwards by default so you can see the result of what you did."@,
        r@[0].input_schema@ == "{\"type\":\"object\",\"properties\":{\"actions\":{\"type\":\"array\",\"minItems\":1,\"description\":\"Actions to perform, in order.\",\"items\":{\"type\":\"object\",\"required\":[\"action_type\"],\"properties\":{\"action_type\":{\"type\":\"string\",\"enum\":[\"click\",\"double_click\",\"right_click\",\"move\",\"type\",\"key\",\"scroll\",\"drag\",\"screenshot\",\"wait\"]},\"coordinate\":{\"type\":\"object\",\"description\":\"Target position {x,y} for pointer actions.\",\"properties\":{\"x\":{\"type\":\"integer\"},\"y\":{\"type\":\"integer\"}},\"required\":[\"x\",\"y\"]},\"start_coordinate\":{\"type\":\"object\",\"description\":\"Drag origin {x,y}.\",\"properties\":{\"x\":{\"type\":\"integer\"},\"y\":{\"type\":\"integer\"}},\"required\":[\"x\",\"y\"]},\"key\":{\"type\":\"string\",\"description\":\"Key name for `key`, e.g. Enter, Tab, Escape.\"},\"text\":{\"type\":\"string\",\"description\":\"Text to insert for `type`.\"},\"scroll_amount\":{\"type\":\"integer\",\"description\":\"Scroll magnitude.\"},\"scroll_direction\":{\"type\":\"string\",\"enum\":[\"up\",\"down\",\"left\",\"right\"]},\"region\":{\"type\":\"object\",\"description\":\"Crop for `screenshot`.\",\"properties\":{\"x\":{\"type\":\"integer\"},\"y\":{\"type\":\"integer\"},\"width\":{\"type\":\"integer\"},\"height\":{\"type\":\"integer\"}},\"required\":[\"x\",\"y\",\"width\",\"height\"]},\"duration\":{\"type\":\"integer\",\"description\":\"Milliseconds for `wait`.\"}}}},\"url\":{\"type\":\"string\",\"description\":\"Navigate here before running the actions.\"},\"port\":{\"type\":\"integer\",\"description\":\"Chrome remote-debugging port (default 9222).\"},\"screenshot\":{\"type\":\"boolean\",\"default\":true,\"description\":\"Capture a screenshot after the actions (default true).\"}},\"required\":[\"actions\"]}"@,
{
    vec![
        crate::tools::ToolSpec {
            name: CONTROL_TOOL,
            description: "Drive a real browser: click, double-click, right-click, move, type, press a key, scroll, drag, capture a screenshot, or wait. Provide one or more actions; they run in order.\n\nThis is actuation, not inspection: use it to operate a page. To read what a page renders without interacting, use browser_preview instead.\n\nRequires Chrome running with --remote-debugging-port=<port> (default 9222). Coordinates are viewport pixels; a screenshot is returned afterwards by default so you can see the result of what you did.",
            input_schema: "{\"type\":\"object\",\"properties\":{\"actions\":{\"type\":\"array\",\"minItems\":1,\"description\":\"Actions to perform, in order.\",\"items\":{\"type\":\"object\",\"required\":[\"action_type\"],\"properties\":{\"action_type\":{\"type\":\"string\",\"enum\":[\"click\",\"double_click\",\"right_click\",\"move\",\"type\",\"key\",\"scroll\",\"drag\",\"screenshot\",\"wait\"]},\"coordinate\":{\"type\":\"object\",\"description\":\"Target position {x,y} for pointer actions.\",\"properties\":{\"x\":{\"type\":\"integer\"},\"y\":{\"type\":\"integer\"}},\"required\":[\"x\",\"y\"]},\"start_coordinate\":{\"type\":\"object\",\"description\":\"Drag origin {x,y}.\",\"properties\":{\"x\":{\"type\":\"integer\"},\"y\":{\"type\":\"integer\"}},\"required\":[\"x\",\"y\"]},\"key\":{\"type\":\"string\",\"description\":\"Key name for `key`, e.g. Enter, Tab, Escape.\"},\"text\":{\"type\":\"string\",\"description\":\"Text to insert for `type`.\"},\"scroll_amount\":{\"type\":\"integer\",\"description\":\"Scroll magnitude.\"},\"scroll_direction\":{\"type\":\"string\",\"enum\":[\"up\",\"down\",\"left\",\"right\"]},\"region\":{\"type\":\"object\",\"description\":\"Crop for `screenshot`.\",\"properties\":{\"x\":{\"type\":\"integer\"},\"y\":{\"type\":\"integer\"},\"width\":{\"type\":\"integer\"},\"height\":{\"type\":\"integer\"}},\"required\":[\"x\",\"y\",\"width\",\"height\"]},\"duration\":{\"type\":\"integer\",\"description\":\"Milliseconds for `wait`.\"}}}},\"url\":{\"type\":\"string\",\"description\":\"Navigate here before running the actions.\"},\"port\":{\"type\":\"integer\",\"description\":\"Chrome remote-debugging port (default 9222).\"},\"screenshot\":{\"type\":\"boolean\",\"default\":true,\"description\":\"Capture a screenshot after the actions (default true).\"}},\"required\":[\"actions\"]}",
        },
    ]
}

} // verus!
