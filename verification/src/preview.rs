//! Native browser preview: what the proxy decides and what it reports.
//!
//! The proxy forwards a running dev server, injects the page bridge, and
//! collects the rendered DOM plus console output the bridge reports back.
//! Serving and forwarding are the caller's I/O; this module holds the rules:
//! which headers cross, what counts as HTML, and how captures are summarised.

use vstd::prelude::*;

use crate::csp::{hop_by_hop_names, is_hop_by_hop};
use crate::proto::{
    ConsoleLog, ConsoleLogLine, ConsoleLogLineView, ConsoleLogView, DomElement, DomElementView,
};
use crate::text::{
    append_chars, chars_eq, chars_of, contains, contains_chars, debug_chars, debug_str, decimal,
    decimal_u64, join, lower_ascii_seq, lower_chars, string_of, views,
};

verus! {

pub const EXTENSION_NAME: &'static str = "browser_preview";

pub const OPEN_TOOL: &'static str = "browser_preview";

pub const CLOSE_TOOL: &'static str = "close_browser_preview";

/// Route of the DOM-element capture endpoint.
pub const SEND_DOM_ELEMENT_PATH: &'static str = "/exa.browser_preview_pb.BrowserPreviewService/SendDOMElement";

/// Route of the console-output capture endpoint.
pub const SEND_CONSOLE_OUTPUT_PATH: &'static str = "/exa.browser_preview_pb.BrowserPreviewService/SendConsoleOutput";

/// Header carrying the CSRF token the bridge read from the page.
pub const CSRF_HEADER: &'static str = "x-codeium-csrf-token";

/// Captured state for one preview.
#[derive(Default)]
pub struct Captures {
    pub dom_elements: Vec<DomElement>,
    pub console: Vec<ConsoleLog>,
}

impl Captures {
    pub fn new() -> (r: Self)
        ensures
            r.dom_elements@.len() == 0,
            r.console@.len() == 0,
    {
        Captures { dom_elements: Vec::new(), console: Vec::new() }
    }
}

/// `s` cut to `n` characters, with `…` appended when something was cut.
pub open spec fn clipped(s: Seq<char>, n: nat) -> Seq<char> {
    if s.len() <= n {
        s
    } else {
        s.take(n as int).push('…')
    }
}

pub fn clip(s: &str, n: usize) -> (r: String)
    ensures
        r@ == clipped(s@, n as nat),
{
    let c = chars_of(s);
    if c.len() <= n {
        return s.to_owned();
    }
    let mut head = crate::text::copy_range(c.as_slice(), 0, n);
    head.push('…');
    string_of(head.as_slice())
}

/// `a` and `b` are equal ignoring ASCII case.
pub open spec fn eq_ignore_ascii_case(a: Seq<char>, b: Seq<char>) -> bool {
    lower_ascii_seq(a) == lower_ascii_seq(b)
}

fn same_ignoring_case(a: &str, b: &str) -> (r: bool)
    ensures
        r == eq_ignore_ascii_case(a@, b@),
{
    let x = lower_chars(chars_of(a).as_slice());
    let y = lower_chars(chars_of(b).as_slice());
    chars_eq(x.as_slice(), y.as_slice())
}

/// A request header is forwarded to the target unless it is hop-by-hop or
/// `Host`.
pub fn forwards_request_header(name: &str) -> (r: bool)
    ensures
        r == (!hop_by_hop_names().contains(lower_ascii_seq(name@)) && !eq_ignore_ascii_case(
            name@,
            "host"@,
        )),
{
    !is_hop_by_hop(name) && !same_ignoring_case(name, "host")
}

/// What the proxy does with one header of the target's response.
#[derive(Debug, Clone, Copy, PartialEq, Eq, Structural)]
pub enum HeaderAction {
    /// Not passed on.
    Drop,
    /// Passed on with the policy rewritten for the bridge.
    RewriteCsp,
    /// Passed on unchanged.
    Keep,
}

pub open spec fn header_action(name: Seq<char>) -> HeaderAction {
    if hop_by_hop_names().contains(lower_ascii_seq(name)) || eq_ignore_ascii_case(
        name,
        "content-length"@,
    ) || eq_ignore_ascii_case(name, "content-encoding"@) {
        HeaderAction::Drop
    } else if eq_ignore_ascii_case(name, "content-security-policy"@) {
        HeaderAction::RewriteCsp
    } else if eq_ignore_ascii_case(name, "content-security-policy-report-only"@) {
        HeaderAction::Drop
    } else {
        HeaderAction::Keep
    }
}

/// Hop-by-hop headers and lengths/encodings (the body may be rewritten) are
/// dropped; the policy is rewritten; a report-only policy is dropped.
pub fn response_header_action(name: &str) -> (r: HeaderAction)
    ensures
        r == header_action(name@),
{
    if is_hop_by_hop(name) || same_ignoring_case(name, "content-length") || same_ignoring_case(
        name,
        "content-encoding",
    ) {
        HeaderAction::Drop
    } else if same_ignoring_case(name, "content-security-policy") {
        HeaderAction::RewriteCsp
    } else if same_ignoring_case(name, "content-security-policy-report-only") {
        HeaderAction::Drop
    } else {
        HeaderAction::Keep
    }
}

/// The response is HTML when a `Content-Type` value mentions `text/html`
/// (ASCII case ignored; the value's bytes read leniently as UTF-8).
pub fn is_html_content_type(value: &[u8]) -> (r: bool)
    ensures
        r == contains(lower_ascii_seq(crate::proto::text_from(value@)), "text/html"@),
{
    let text = crate::proto::lossy_text(value);
    let lower = lower_chars(chars_of(text.as_str()).as_slice());
    contains_chars(lower.as_slice(), chars_of("text/html").as_slice())
}

/// A capture request carries the preview's CSRF token.
pub fn csrf_matches(expected: &str, provided: Option<&str>) -> (r: bool)
    ensures
        r == match provided {
            Some(p) => p@ == expected@,
            None => false,
        },
{
    match provided {
        Some(p) => chars_eq(chars_of(p).as_slice(), chars_of(expected).as_slice()),
        None => false,
    }
}

/// `s` without trailing `/` characters (`trim_end_matches('/')`).
pub open spec fn without_trailing_slashes(s: Seq<char>) -> Seq<char>
    decreases s.len(),
{
    if s.len() > 0 && s.last() == '/' {
        without_trailing_slashes(s.drop_last())
    } else {
        s
    }
}

/// The URL a proxied request goes to: the target without trailing slashes,
/// then the request's path and query (`/` when it has none).
pub fn target_url(target: &str, path_and_query: Option<&str>) -> (r: String)
    ensures
        r@ == without_trailing_slashes(target@) + match path_and_query {
            Some(p) => p@,
            None => "/"@,
        },
{
    let t = chars_of(target);
    let mut j: usize = t.len();
    assert(t@.take(j as int) =~= t@);
    while j > 0 && t[j - 1] == '/'
        invariant
            j <= t@.len(),
            without_trailing_slashes(t@) == without_trailing_slashes(t@.take(j as int)),
        decreases j,
    {
        assert(t@.take(j as int).drop_last() =~= t@.take(j - 1));
        j = j - 1;
    }
    let mut v = crate::text::copy_range(t.as_slice(), 0, j);
    match path_and_query {
        Some(p) => append_chars(&mut v, chars_of(p).as_slice()),
        None => append_chars(&mut v, chars_of("/").as_slice()),
    }
    string_of(v.as_slice())
}

/// The local port for the proxy: the `port` argument cut to 16 bits, or 0
/// (pick a free one).
pub fn preview_port(arg: Option<u64>) -> (r: u16)
    ensures
        r == match arg {
            Some(v) => (v % 65536) as u16,
            None => 0u16,
        },
{
    match arg {
        Some(v) => (v % 65536) as u16,
        None => 0,
    }
}

/// Elements and log lines shown in a summary, at most.
pub const SUMMARY_LIMIT: usize = 50;

/// Characters of an element's outer HTML shown in a summary, at most.
pub const OUTER_HTML_CLIP: usize = 200;

/// One element in the summary.
pub open spec fn element_entry(e: DomElementView) -> Seq<char> {
    "  <"@ + e.tag_name + "> id="@ + debug_str(e.id) + " component="@ + debug_str(
        e.react_component_name,
    ) + match e.file_line_range {
        Some(f) => " at "@ + f.absolute_uri + ":"@ + decimal(f.start_line as nat),
        None => Seq::<char>::empty(),
    } + "\n    "@ + clipped(e.outer_html, 200) + "\n"@
}

/// One console line in the summary.
pub open spec fn line_entry(l: ConsoleLogLineView) -> Seq<char> {
    "  ["@ + l.timestamp_str + "] "@ + l.kind + ": "@ + l.output + "\n"@
}

/// Every console line of `logs`, in order.
pub open spec fn all_lines(logs: Seq<ConsoleLogView>) -> Seq<ConsoleLogLineView>
    decreases logs.len(),
{
    if logs.len() == 0 {
        Seq::<ConsoleLogLineView>::empty()
    } else {
        all_lines(logs.drop_last()) + logs.last().lines
    }
}

pub open spec fn element_entries(es: Seq<DomElementView>) -> Seq<Seq<char>> {
    Seq::new(es.len(), |i: int| element_entry(es[i]))
}

pub open spec fn line_entries(ls: Seq<ConsoleLogLineView>) -> Seq<Seq<char>> {
    Seq::new(ls.len(), |i: int| line_entry(ls[i]))
}

pub open spec fn at_most(n: nat, limit: nat) -> nat {
    if n < limit {
        n
    } else {
        limit
    }
}

/// Snapshot of what the page reported, for the agent to read: counts, then
/// at most fifty elements and fifty console lines.
pub open spec fn summary(dom: Seq<DomElementView>, logs: Seq<ConsoleLogView>) -> Seq<char> {
    let lines = all_lines(logs);
    "DOM elements captured: "@ + decimal(dom.len()) + "\n"@ + join(
        element_entries(dom.take(at_most(dom.len(), 50) as int)),
        Seq::<char>::empty(),
    ) + "\nConsole output ("@ + decimal(lines.len()) + " lines):\n"@ + join(
        line_entries(lines.take(at_most(lines.len(), 50) as int)),
        Seq::<char>::empty(),
    )
}

pub open spec fn dom_views(es: Seq<DomElement>) -> Seq<DomElementView> {
    es.map_values(|e: DomElement| e@)
}

pub open spec fn log_views(ls: Seq<ConsoleLog>) -> Seq<ConsoleLogView> {
    ls.map_values(|l: ConsoleLog| l@)
}

fn element_text(e: &DomElement) -> (r: Vec<char>)
    ensures
        r@ == element_entry(e@),
{
    let mut v = chars_of("  <");
    append_chars(&mut v, chars_of(e.tag_name.as_str()).as_slice());
    append_chars(&mut v, chars_of("> id=").as_slice());
    append_chars(&mut v, debug_chars(chars_of(e.id.as_str()).as_slice()).as_slice());
    append_chars(&mut v, chars_of(" component=").as_slice());
    append_chars(
        &mut v,
        debug_chars(chars_of(e.react_component_name.as_str()).as_slice()).as_slice(),
    );
    match &e.file_line_range {
        Some(f) => {
            append_chars(&mut v, chars_of(" at ").as_slice());
            append_chars(&mut v, chars_of(f.absolute_uri.as_str()).as_slice());
            append_chars(&mut v, chars_of(":").as_slice());
            append_chars(&mut v, decimal_u64(f.start_line as u64).as_slice());
        },
        None => {},
    }
    append_chars(&mut v, chars_of("\n    ").as_slice());
    let clipped_html = clip(e.outer_html.as_str(), 200);
    append_chars(&mut v, chars_of(clipped_html.as_str()).as_slice());
    append_chars(&mut v, chars_of("\n").as_slice());
    v
}

fn line_text(l: &ConsoleLogLine) -> (r: Vec<char>)
    ensures
        r@ == line_entry(l@),
{
    let mut v = chars_of("  [");
    append_chars(&mut v, chars_of(l.timestamp_str.as_str()).as_slice());
    append_chars(&mut v, chars_of("] ").as_slice());
    append_chars(&mut v, chars_of(l.kind.as_str()).as_slice());
    append_chars(&mut v, chars_of(": ").as_slice());
    append_chars(&mut v, chars_of(l.output.as_str()).as_slice());
    append_chars(&mut v, chars_of("\n").as_slice());
    v
}

/// Snapshot of what the page reported.
pub fn summarize(dom: &[DomElement], console: &[ConsoleLog]) -> (r: String)
    ensures
        r@ == summary(dom_views(dom@), log_views(console@)),
{
    let ghost dv = dom_views(dom@);
    let shown = if dom.len() < SUMMARY_LIMIT {
        dom.len()
    } else {
        SUMMARY_LIMIT
    };
    let mut entries: Vec<Vec<char>> = Vec::new();
    let mut k: usize = 0;
    while k < shown
        invariant
            k <= shown <= dom@.len(),
            dv == dom_views(dom@),
            views(entries@) == element_entries(dv.take(k as int)),
        decreases shown - k,
    {
        let t = element_text(&dom[k]);
        let ghost before = views(entries@);
        assert(dv[k as int] == dom@[k as int]@);
        assert(element_entries(dv.take(k + 1))[k as int] == element_entry(dv[k as int]));
        entries.push(t);
        assert(views(entries@) =~= before.push(t@));
        assert(views(entries@) =~= element_entries(dv.take(k + 1)));
        k = k + 1;
    }
    let empty: Vec<char> = Vec::new();
    let dom_text = crate::text::join_chars(&entries, empty.as_slice());
    let ghost lv = log_views(console@);
    let mut lines: Vec<&ConsoleLogLine> = Vec::new();
    let mut i: usize = 0;
    assert(console@.take(0) =~= Seq::<ConsoleLog>::empty());
    while i < console.len()
        invariant
            i <= console@.len(),
            lv == log_views(console@),
            lines@.map_values(|l: &ConsoleLogLine| l@) == all_lines(lv.take(i as int)),
        decreases console@.len() - i,
    {
        let mut j: usize = 0;
        let ghost base = lines@.map_values(|l: &ConsoleLogLine| l@);
        while j < console[i].lines.len()
            invariant
                i < console@.len(),
                j <= console@[i as int].lines@.len(),
                lines@.map_values(|l: &ConsoleLogLine| l@) == base + console@[i as int].lines@.take(
                    j as int,
                ).map_values(|l: ConsoleLogLine| l@),
            decreases console@[i as int].lines@.len() - j,
        {
            let ghost before = lines@;
            let item = &console[i].lines[j];
            lines.push(item);
            assert(lines@ == before.push(item));
            assert(lines@.map_values(|l: &ConsoleLogLine| l@) =~= before.map_values(
                |l: &ConsoleLogLine| l@,
            ).push(item@));
            assert(console@[i as int].lines@.take(j + 1).map_values(|l: ConsoleLogLine| l@)
                =~= console@[i as int].lines@.take(j as int).map_values(|l: ConsoleLogLine| l@).push(
                item@,
            ));
            j = j + 1;
            assert(lines@.map_values(|l: &ConsoleLogLine| l@) =~= base + console@[i as int].lines@.take(
                j as int,
            ).map_values(|l: ConsoleLogLine| l@));
        }
        assert(console@[i as int].lines@.take(j as int) =~= console@[i as int].lines@);
        assert(lv.take(i + 1).drop_last() =~= lv.take(i as int));
        i = i + 1;
    }
    assert(lv.take(i as int) =~= lv);
    let ghost all = all_lines(lv);
    let shown_lines = if lines.len() < SUMMARY_LIMIT {
        lines.len()
    } else {
        SUMMARY_LIMIT
    };
    let mut line_texts: Vec<Vec<char>> = Vec::new();
    let mut k: usize = 0;
    while k < shown_lines
        invariant
            k <= shown_lines <= lines@.len(),
            lines@.map_values(|l: &ConsoleLogLine| l@) == all,
            views(line_texts@) == line_entries(all.take(k as int)),
        decreases shown_lines - k,
    {
        let t = line_text(lines[k]);
        assert(all[k as int] == lines@[k as int]@);
        let ghost before = views(line_texts@);
        assert(line_entries(all.take(k + 1))[k as int] == line_entry(all[k as int]));
        line_texts.push(t);
        assert(views(line_texts@) =~= before.push(t@));
        assert(views(line_texts@) =~= line_entries(all.take(k + 1)));
        k = k + 1;
    }
    let log_text = crate::text::join_chars(&line_texts, empty.as_slice());
    let mut v = chars_of("DOM elements captured: ");
    append_chars(&mut v, decimal_u64(dom.len() as u64).as_slice());
    append_chars(&mut v, chars_of("\n").as_slice());
    append_chars(&mut v, dom_text.as_slice());
    append_chars(&mut v, chars_of("\nConsole output (").as_slice());
    append_chars(&mut v, decimal_u64(lines.len() as u64).as_slice());
    append_chars(&mut v, chars_of(" lines):\n").as_slice());
    append_chars(&mut v, log_text.as_slice());
    string_of(v.as_slice())
}

/// The reply to opening a preview.
pub open spec fn opened_report(id: Seq<char>, url: Seq<char>, summary_text: Seq<char>) -> Seq<char> {
    "preview_id: "@ + id + "\nproxy: http://"@ + id + "\ntarget: "@ + url + "\n\n"@
        + summary_text + "\nLoad http://"@ + id
        + " in a browser to exercise the app; captured DOM and console output will be returned on your next call."@
}

pub fn opened_message(id: &str, url: &str, summary_text: &str) -> (r: String)
    ensures
        r@ == opened_report(id@, url@, summary_text@),
{
    let mut v = chars_of("preview_id: ");
    append_chars(&mut v, chars_of(id).as_slice());
    append_chars(&mut v, chars_of("\nproxy: http://").as_slice());
    append_chars(&mut v, chars_of(id).as_slice());
    append_chars(&mut v, chars_of("\ntarget: ").as_slice());
    append_chars(&mut v, chars_of(url).as_slice());
    append_chars(&mut v, chars_of("\n\n").as_slice());
    append_chars(&mut v, chars_of(summary_text).as_slice());
    append_chars(&mut v, chars_of("\nLoad http://").as_slice());
    append_chars(&mut v, chars_of(id).as_slice());
    append_chars(
        &mut v,
        chars_of(
            " in a browser to exercise the app; captured DOM and console output will be returned on your next call.",
        ).as_slice(),
    );
    string_of(v.as_slice())
}

/// The reply to closing preview `id`: whether one was open decides the text.
pub fn closed_message(id: &str, was_open: bool) -> (r: Result<String, String>)
    ensures
        was_open ==> (r matches Ok(m) && m@ == "closed preview "@ + id@),
        !was_open ==> (r matches Err(m) && m@ == "no preview with id "@ + id@),
{
    if was_open {
        let mut v = chars_of("closed preview ");
        append_chars(&mut v, chars_of(id).as_slice());
        Ok(string_of(v.as_slice()))
    } else {
        let mut v = chars_of("no preview with id ");
        append_chars(&mut v, chars_of(id).as_slice());
        Err(string_of(v.as_slice()))
    }
}


/// The tools this extension offers: open and close.
pub fn get_tools() -> (r: Vec<crate::tools::ToolSpec>)
    ensures
        r@.len() == 2,
        r@[0].name@ == OPEN_TOOL@,
        r@[1].name@ == CLOSE_TOOL@,
        r@[0].description@ == "Open a live preview of a web app and read back what it actually renders. Proxies the target URL, injects a page bridge, then returns the rendered DOM elements and browser console output. Use this to verify UI changes instead of reading HTML source."@,
        r@[0].input_schema@ == "{\"type\":\"object\",\"properties\":{\"url\":{\"type\":\"string\",\"description\":\"URL of the running app to preview, e.g. http://localhost:3000\"},\"port\":{\"type\":\"integer\",\"description\":\"Local port for the proxy. Omit to pick a free one.\"}},\"required\":[\"url\"]}"@,
        r@[1].description@ == "Close a running browser preview by id. The preview URL stops working; the app being previewed is not affected."@,
        r@[1].input_schema@ == "{\"type\":\"object\",\"properties\":{\"preview_id\":{\"type\":\"string\",\"description\":\"Preview id returned by browser_preview\"}},\"required\":[\"preview_id\"]}"@,
{
    vec![
        crate::tools::ToolSpec {
            name: OPEN_TOOL,
            description: "Open a live preview of a web app and read back what it actually renders. Proxies the target URL, injects a page bridge, then returns the rendered DOM elements and browser console output. Use this to verify UI changes instead of reading HTML source.",
            input_schema: "{\"type\":\"object\",\"properties\":{\"url\":{\"type\":\"string\",\"description\":\"URL of the running app to preview, e.g. http://localhost:3000\"},\"port\":{\"type\":\"integer\",\"description\":\"Local port for the proxy. Omit to pick a free one.\"}},\"required\":[\"url\"]}",
        },
        crate::tools::ToolSpec {
            name: CLOSE_TOOL,
            description: "Close a running browser preview by id. The preview URL stops working; the app being previewed is not affected.",
            input_schema: "{\"type\":\"object\",\"properties\":{\"preview_id\":{\"type\":\"string\",\"description\":\"Preview id returned by browser_preview\"}},\"required\":[\"preview_id\"]}",
        },
    ]
}

} // verus!
