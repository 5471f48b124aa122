//! The slash-command menu: which inputs open it, what it lists, and what
//! picking an entry leads to.
//!
//! The pickers and prompts themselves are the terminal's; this module decides
//! what they offer and what line is dispatched in the end.

use vstd::prelude::*;

use crate::text::{
    append_chars, chars_eq, chars_of, contains, is_ws, starts_with, string_of, trim, trim_chars,
    views,
};

verus! {

/// What happens after a command is picked from the menu.
#[derive(Debug, Clone, PartialEq, Eq)]
pub enum Flow {
    /// Dispatch the bare command, e.g. `/new`.
    Run,
    /// Ask for free-text arguments first (may be optional).
    FreeArgs { hint: String, required: bool },
    PickTheme,
    PickMode,
    PickModel,
    PickPrompt,
    PickSkills,
    /// Open the sidekick provider/model configure dialog.
    SidekickDialog,
    /// Fusion pairing: pick the sidekick model, then the lead model.
    PickFusion,
}

#[derive(Debug, Clone)]
pub struct MenuEntry {
    pub name: String,
    pub description: String,
    pub flow: Flow,
}

/// A command offered by the agent side, to be listed after the built-in
/// entries.
#[derive(Debug, Clone)]
pub struct AgentCommand {
    pub name: String,
    pub description: String,
    /// Defined by the agent itself rather than by a recipe or prompt.
    pub builtin: bool,
    pub input_hint: Option<String>,
}

/// No character of `s` is whitespace.
pub open spec fn no_whitespace(s: Seq<char>) -> bool {
    forall|i: int| 0 <= i < s.len() ==> !is_ws(#[trigger] s[i])
}

/// Only single-token inputs starting with `/` open the menu, and only when
/// they contain no further `/` (so `/tmp/file` stays a plain message).
pub open spec fn opens_menu(input: Seq<char>) -> bool {
    let t = trim(input);
    &&& starts_with(t, "/"@)
    &&& no_whitespace(t)
    &&& !contains(t.skip(1), "/"@)
}

/// Whether a submitted line should open the slash menu instead of being
/// dispatched or sent to the agent as a message.
pub fn should_open(input: &str) -> (r: bool)
    ensures
        r == opens_menu(input@),
{
    let t = trim_chars(chars_of(input).as_slice());
    if !crate::text::starts_with_chars(t.as_slice(), chars_of("/").as_slice()) {
        return false;
    }
    proof {
        reveal_strlit("/");
    }
    let mut k: usize = 0;
    while k < t.len()
        invariant
            k <= t@.len(),
            t@ == trim(input@),
            starts_with(t@, "/"@),
            forall|i: int| 0 <= i < k ==> !is_ws(#[trigger] t@[i]),
        decreases t@.len() - k,
    {
        if crate::text::is_whitespace(t[k]) {
            assert(is_ws(t@[k as int]));
            assert(!no_whitespace(t@));
            return false;
        }
        k = k + 1;
    }
    let rest = crate::text::copy_range(t.as_slice(), 1, t.len());
    assert(rest@ =~= t@.skip(1));
    !crate::text::contains_chars(rest.as_slice(), chars_of("/").as_slice())
}

/// The command line for `name` with `args`.
pub open spec fn composed(name: Seq<char>, args: Seq<char>) -> Seq<char> {
    if args.len() == 0 {
        "/"@ + name
    } else {
        "/"@ + name + " "@ + args
    }
}

pub fn compose(name: &str, args: &str) -> (r: String)
    ensures
        r@ == composed(name@, args@),
{
    let mut v = chars_of("/");
    append_chars(&mut v, chars_of(name).as_slice());
    let a = chars_of(args);
    if a.len() > 0 {
        append_chars(&mut v, chars_of(" ").as_slice());
        append_chars(&mut v, a.as_slice());
    }
    string_of(v.as_slice())
}

fn entry(name: &str, description: &str, flow: Flow) -> (r: MenuEntry)
    ensures
        r.name@ == name@,
        r.description@ == description@,
        r.flow == flow,
{
    MenuEntry { name: name.to_owned(), description: description.to_owned(), flow }
}

fn free_args(hint: &str, required: bool) -> (r: Flow)
    ensures
        r matches Flow::FreeArgs { hint: h, required: q } && h@ == hint@ && q == required,
{
    Flow::FreeArgs { hint: hint.to_owned(), required }
}

/// The names of the built-in entries, in menu order.
pub open spec fn builtin_names() -> Seq<Seq<char>> {
    seq![
        "exit"@,
        "help"@,
        "new"@,
        "clear"@,
        "compact"@,
        "model"@,
        "mode"@,
        "t"@,
        "r"@,
        "edit"@,
        "plan"@,
        "endplan"@,
        "skills"@,
        "prompts"@,
        "prompt"@,
        "sidekick"@,
        "fusion"@,
        "builtin"@,
        "extension"@,
    ]
}

pub open spec fn entry_names(es: Seq<MenuEntry>) -> Seq<Seq<char>> {
    es.map_values(|e: MenuEntry| e.name@)
}

/// A menu flow with its hint as text.
pub enum FlowView {
    Run,
    FreeArgs { hint: Seq<char>, required: bool },
    PickTheme,
    PickMode,
    PickModel,
    PickPrompt,
    PickSkills,
    SidekickDialog,
    PickFusion,
}

pub open spec fn flow_view(f: Flow) -> FlowView {
    match f {
        Flow::Run => FlowView::Run,
        Flow::FreeArgs { hint, required } => FlowView::FreeArgs { hint: hint@, required },
        Flow::PickTheme => FlowView::PickTheme,
        Flow::PickMode => FlowView::PickMode,
        Flow::PickModel => FlowView::PickModel,
        Flow::PickPrompt => FlowView::PickPrompt,
        Flow::PickSkills => FlowView::PickSkills,
        Flow::SidekickDialog => FlowView::SidekickDialog,
        Flow::PickFusion => FlowView::PickFusion,
    }
}

/// An entry as name, description and flow.
pub open spec fn entry_view(e: MenuEntry) -> (Seq<char>, Seq<char>, FlowView) {
    (e.name@, e.description@, flow_view(e.flow))
}

pub open spec fn entry_views(es: Seq<MenuEntry>) -> Seq<(Seq<char>, Seq<char>, FlowView)> {
    es.map_values(|e: MenuEntry| entry_view(e))
}

/// The built-in entries, in menu order: name, description, and what picking
/// the entry leads to.
pub open spec fn builtin_menu() -> Seq<(Seq<char>, Seq<char>, FlowView)> {
    seq![
        ("exit"@, "Exit the session"@, FlowView::Run),
        ("help"@, "Show available commands"@, FlowView::Run),
        ("new"@, "Start a fresh session (keeps provider, model, extensions)"@, FlowView::Run),
        ("clear"@, "Clear the chat history"@, FlowView::Run),
        ("compact"@, "Compact the conversation to save context"@, FlowView::Run),
        ("model"@, "Open the model picker"@, FlowView::PickModel),
        ("mode"@, "Set the karmx mode"@, FlowView::PickMode),
        ("t"@, "Toggle or set the theme (light, dark, ansi)"@, FlowView::PickTheme),
        ("r"@, "Toggle full tool output"@, FlowView::Run),
        ("edit"@, "Compose a message in your editor"@, FlowView::FreeArgs { hint: "optional prefill text"@, required: false }),
        ("plan"@, "Enter plan mode"@, FlowView::FreeArgs { hint: "optional message"@, required: false }),
        ("endplan"@, "Exit plan mode"@, FlowView::Run),
        ("skills"@, "List skills, or load specific ones"@, FlowView::PickSkills),
        ("prompts"@, "List available prompts"@, FlowView::FreeArgs { hint: "--extension <name> (optional)"@, required: false }),
        ("prompt"@, "Execute a prompt by name"@, FlowView::PickPrompt),
        ("sidekick"@, "Pick the sidekick (fusion) provider + model"@, FlowView::SidekickDialog),
        ("fusion"@, "Pick a sidekick model, then the lead model"@, FlowView::PickFusion),
        ("builtin"@, "Enable builtin extensions by name"@, FlowView::FreeArgs { hint: "names, comma-separated"@, required: true }),
        ("extension"@, "Add a stdio extension"@, FlowView::FreeArgs { hint: "ENV=val command args..."@, required: true }),
    ]
}

/// The built-in menu entries.
pub fn builtin_entries() -> (r: Vec<MenuEntry>)
    ensures
        entry_names(r@) == builtin_names(),
        entry_views(r@) == builtin_menu(),
{
    let v = vec![
        entry("exit", "Exit the session", Flow::Run),
        entry("help", "Show available commands", Flow::Run),
        entry("new", "Start a fresh session (keeps provider, model, extensions)", Flow::Run),
        entry("clear", "Clear the chat history", Flow::Run),
        entry("compact", "Compact the conversation to save context", Flow::Run),
        entry("model", "Open the model picker", Flow::PickModel),
        entry("mode", "Set the karmx mode", Flow::PickMode),
        entry("t", "Toggle or set the theme (light, dark, ansi)", Flow::PickTheme),
        entry("r", "Toggle full tool output", Flow::Run),
        entry("edit", "Compose a message in your editor", free_args("optional prefill text", false)),
        entry("plan", "Enter plan mode", free_args("optional message", false)),
        entry("endplan", "Exit plan mode", Flow::Run),
        entry("skills", "List skills, or load specific ones", Flow::PickSkills),
        entry("prompts", "List available prompts", free_args("--extension <name> (optional)", false)),
        entry("prompt", "Execute a prompt by name", Flow::PickPrompt),
        entry("sidekick", "Pick the sidekick (fusion) provider + model", Flow::SidekickDialog),
        entry("fusion", "Pick a sidekick model, then the lead model", Flow::PickFusion),
        entry("builtin", "Enable builtin extensions by name", free_args("names, comma-separated", true)),
        entry("extension", "Add a stdio extension", free_args("ENV=val command args...", true)),
    ];
    assert(entry_names(v@) =~= builtin_names());
    assert(entry_views(v@) =~= builtin_menu());
    v
}

/// How an agent command is run from the menu: the agent's own `goal` and
/// `grind` take a description, its other own commands run bare, and any
/// other command asks for its arguments.
pub open spec fn agent_command_flow(c: AgentCommand, flow: Flow) -> bool {
    if c.builtin {
        if c.name@ == "goal"@ || c.name@ == "grind"@ {
            flow matches Flow::FreeArgs { hint, required } && hint@ == "description (or 'off' to clear)"@
                && !required
        } else {
            flow == Flow::Run
        }
    } else {
        flow matches Flow::FreeArgs { hint, required } && !required && hint@ == match c.input_hint {
            Some(h) => h@,
            None => "arguments (optional)"@,
        }
    }
}

/// The agent commands that get a menu entry: each whose name is not yet
/// taken, by a built-in entry or an earlier agent command.
pub open spec fn added_commands(taken: Seq<Seq<char>>, cmds: Seq<AgentCommand>) -> Seq<AgentCommand>
    decreases cmds.len(),
{
    if cmds.len() == 0 {
        Seq::<AgentCommand>::empty()
    } else {
        let prev = added_commands(taken, cmds.drop_last());
        let names = taken + prev.map_values(|c: AgentCommand| c.name@);
        if names.contains(cmds.last().name@) {
            prev
        } else {
            prev.push(cmds.last())
        }
    }
}

fn flow_for(c: &AgentCommand) -> (r: Flow)
    ensures
        agent_command_flow(*c, r),
{
    if c.builtin {
        let n = chars_of(c.name.as_str());
        if crate::text::eq_str(n.as_slice(), "goal") || crate::text::eq_str(n.as_slice(), "grind") {
            free_args("description (or 'off' to clear)", false)
        } else {
            Flow::Run
        }
    } else {
        match &c.input_hint {
            Some(h) => Flow::FreeArgs { hint: h.clone(), required: false },
            None => free_args("arguments (optional)", false),
        }
    }
}

fn has_name(entries: &Vec<MenuEntry>, name: &str) -> (r: bool)
    ensures
        r == entry_names(entries@).contains(name@),
{
    let mut k: usize = 0;
    while k < entries.len()
        invariant
            k <= entries@.len(),
            forall|i: int| 0 <= i < k ==> entry_names(entries@)[i] != name@,
        decreases entries@.len() - k,
    {
        if chars_eq(chars_of(entries[k].name.as_str()).as_slice(), chars_of(name).as_slice()) {
            assert(entry_names(entries@)[k as int] == name@);
            return true;
        }
        k = k + 1;
    }
    false
}

/// The menu: the built-in entries, then each agent command whose name is not
/// yet taken, in order.
pub fn menu_entries(commands: &[AgentCommand]) -> (r: Vec<MenuEntry>)
    ensures
        r@.len() == builtin_names().len() + added_commands(builtin_names(), commands@).len(),
        entry_names(r@) == builtin_names() + added_commands(builtin_names(), commands@).map_values(
            |c: AgentCommand| c.name@,
        ),
        forall|i: int|
            0 <= i < added_commands(builtin_names(), commands@).len() ==> {
                let c = #[trigger] added_commands(builtin_names(), commands@)[i];
                let e = r@[builtin_names().len() + i];
                e.description@ == c.description@ && agent_command_flow(c, e.flow)
            },
        entry_views(r@).take(builtin_names().len() as int) == builtin_menu(),
{
    let mut entries = builtin_entries();
    let ghost base = builtin_names();
    let mut k: usize = 0;
    assert(commands@.take(0) =~= Seq::<AgentCommand>::empty());
    while k < commands.len()
        invariant
            k <= commands@.len(),
            base == builtin_names(),
            entries@.len() == base.len() + added_commands(base, commands@.take(k as int)).len(),
            entry_names(entries@) == base + added_commands(base, commands@.take(k as int)).map_values(
                |c: AgentCommand| c.name@,
            ),
            forall|i: int|
                0 <= i < added_commands(base, commands@.take(k as int)).len() ==> {
                    let c = #[trigger] added_commands(base, commands@.take(k as int))[i];
                    let e = entries@[base.len() + i];
                    e.description@ == c.description@ && agent_command_flow(c, e.flow)
                },
            entry_views(entries@).take(base.len() as int) == builtin_menu(),
        decreases commands@.len() - k,
    {
        let c = &commands[k];
        assert(commands@.take(k + 1).drop_last() =~= commands@.take(k as int));
        assert(commands@.take(k + 1).last() == *c);
        if !has_name(&entries, c.name.as_str()) {
            let e = MenuEntry { name: c.name.clone(), description: c.description.clone(), flow: flow_for(c) };
            let ghost before = entries@;
            entries.push(e);
            assert(entry_names(entries@) =~= entry_names(before).push(c.name@));
            assert(entry_views(entries@).take(base.len() as int) =~= entry_views(before).take(
                base.len() as int,
            ));
            assert(added_commands(base, commands@.take(k + 1)) == added_commands(
                base,
                commands@.take(k as int),
            ).push(*c));
            assert(added_commands(base, commands@.take(k + 1)).map_values(|c: AgentCommand| c.name@)
                =~= added_commands(base, commands@.take(k as int)).map_values(
                |c: AgentCommand| c.name@,
            ).push(c.name@));
        }
        k = k + 1;
    }
    assert(commands@.take(k as int) =~= commands@);
    entries
}

/// What the typed command names: `input` trimmed, without leading `/`s.
pub open spec fn typed_name(input: Seq<char>) -> Seq<char> {
    trim(input).skip(leading_slashes(trim(input)) as int)
}

pub open spec fn leading_slashes(s: Seq<char>) -> nat
    decreases s.len(),
{
    if s.len() > 0 && s[0] == '/' {
        1 + leading_slashes(s.drop_first())
    } else {
        0
    }
}

pub fn typed(input: &str) -> (r: String)
    ensures
        r@ == typed_name(input@),
{
    let t = trim_chars(chars_of(input).as_slice());
    let mut i: usize = 0;
    assert(t@.skip(0) =~= t@);
    while i < t.len() && t[i] == '/'
        invariant
            i <= t@.len(),
            leading_slashes(t@) == i + leading_slashes(t@.skip(i as int)),
        decreases t@.len() - i,
    {
        assert(t@.skip(i as int).drop_first() =~= t@.skip(i + 1));
        i = i + 1;
    }
    let rest = crate::text::copy_range(t.as_slice(), i, t.len());
    assert(rest@ =~= t@.skip(i as int));
    string_of(rest.as_slice())
}

/// The position of the entry named `name`, if there is one.
pub fn find_entry(entries: &[MenuEntry], name: &str) -> (r: Option<usize>)
    ensures
        match r {
            Some(i) => i < entries@.len() && entries@[i as int].name@ == name@ && forall|j: int|
                0 <= j < i ==> #[trigger] entries@[j].name@ != name@,
            None => forall|j: int| 0 <= j < entries@.len() ==> #[trigger] entries@[j].name@ != name@,
        },
{
    let mut k: usize = 0;
    while k < entries.len()
        invariant
            k <= entries@.len(),
            forall|j: int| 0 <= j < k ==> #[trigger] entries@[j].name@ != name@,
        decreases entries@.len() - k,
    {
        if chars_eq(chars_of(entries[k].name.as_str()).as_slice(), chars_of(name).as_slice()) {
            return Some(k);
        }
        k = k + 1;
    }
    None
}

/// Positions of the entries in picker order: entries whose name starts with
/// what was typed first (so `/mo` + Enter lands on /model), each group in
/// menu order.
pub fn picker_positions(entries: &[MenuEntry], typed: &str) -> (r: Vec<usize>)
    ensures
        r@.len() == entries@.len(),
        forall|i: int| 0 <= i < r@.len() ==> #[trigger] r@[i] < entries@.len(),
        forall|i: int, j: int|
            0 <= i < j < r@.len() ==> #[trigger] r@[i] != #[trigger] r@[j],
        forall|i: int, j: int|
            #![trigger r@[i], r@[j]]
            0 <= i < j < r@.len() && starts_with(entries@[r@[j] as int].name@, typed@)
                ==> starts_with(entries@[r@[i] as int].name@, typed@),
        forall|i: int, j: int|
            #![trigger r@[i], r@[j]]
            0 <= i < j < r@.len() && starts_with(entries@[r@[i] as int].name@, typed@)
                == starts_with(entries@[r@[j] as int].name@, typed@) ==> r@[i] < r@[j],
{
    let t = chars_of(typed);
    let mut first: Vec<usize> = Vec::new();
    let mut second: Vec<usize> = Vec::new();
    let mut k: usize = 0;
    while k < entries.len()
        invariant
            k <= entries@.len(),
            first@.len() + second@.len() == k,
            forall|i: int| 0 <= i < first@.len() ==> #[trigger] first@[i] < k && starts_with(entries@[first@[i] as int].name@, t@),
            forall|i: int| 0 <= i < second@.len() ==> #[trigger] second@[i] < k && !starts_with(entries@[second@[i] as int].name@, t@),
            forall|i: int, j: int| 0 <= i < j < first@.len() ==> #[trigger] first@[i] < #[trigger] first@[j],
            forall|i: int, j: int| 0 <= i < j < second@.len() ==> #[trigger] second@[i] < #[trigger] second@[j],
        decreases entries@.len() - k,
    {
        let n = chars_of(entries[k].name.as_str());
        if crate::text::starts_with_chars(n.as_slice(), t.as_slice()) {
            first.push(k);
            assert(first@.last() == k);
        } else {
            second.push(k);
            assert(second@.last() == k);
        }
        k = k + 1;
    }
    let mut out = first;
    let nf = out.len();
    let mut j: usize = 0;
    while j < second.len()
        invariant
            j <= second@.len(),
            nf + second@.len() == entries@.len(),
            out@.len() == nf + j,
            forall|i: int| 0 <= i < nf ==> #[trigger] out@[i] < entries@.len() && starts_with(entries@[out@[i] as int].name@, t@),
            forall|i: int| nf <= i < out@.len() ==> #[trigger] out@[i] == second@[i - nf],
            forall|i: int| 0 <= i < second@.len() ==> #[trigger] second@[i] < entries@.len() && !starts_with(entries@[second@[i] as int].name@, t@),
            forall|a: int, b: int| 0 <= a < b < nf ==> #[trigger] out@[a] < #[trigger] out@[b],
            forall|a: int, b: int| 0 <= a < b < second@.len() ==> #[trigger] second@[a] < #[trigger] second@[b],
        decreases second@.len() - j,
    {
        out.push(second[j]);
        j = j + 1;
    }
    out
}

/// What the terminal does next for a picked entry.
#[derive(Debug, Clone, PartialEq, Eq)]
pub enum MenuAction {
    /// Dispatch this command line.
    Dispatch(String),
    /// Ask for arguments for `name` (with a placeholder hint), then dispatch
    /// the composed line.
    AskArgs { name: String, hint: String, required: bool },
    /// Let the user pick one of `options`, then dispatch `command option`.
    PickFrom { command: String, options: Vec<String>, title: String },
    PickMode,
    PickModel,
    PickPrompt,
    PickSkills,
}

/// The next step for a picked entry.
pub fn entry_action(e: &MenuEntry) -> (r: MenuAction)
    ensures
        match e.flow {
            Flow::Run => r matches MenuAction::Dispatch(l) && l@ == "/"@ + e.name@,
            Flow::FreeArgs { hint, required } => r matches MenuAction::AskArgs {
                name,
                hint: h,
                required: q,
            } && name@ == e.name@ && h@ == hint@ && q == required,
            Flow::PickTheme => r matches MenuAction::PickFrom { command, options, title }
                && command@ == "/t"@ && title@ == "Theme"@ && views_of(options@) == seq![
                "light"@,
                "dark"@,
                "ansi"@,
            ],
            Flow::PickMode => r == MenuAction::PickMode,
            Flow::PickModel => r == MenuAction::PickModel,
            Flow::PickPrompt => r == MenuAction::PickPrompt,
            Flow::PickSkills => r == MenuAction::PickSkills,
            Flow::SidekickDialog => r matches MenuAction::Dispatch(l) && l@ == "/sidekick"@,
            Flow::PickFusion => r == MenuAction::PickModel,
        },
{
    match &e.flow {
        Flow::Run => {
            let mut v = chars_of("/");
            append_chars(&mut v, chars_of(e.name.as_str()).as_slice());
            MenuAction::Dispatch(string_of(v.as_slice()))
        },
        Flow::FreeArgs { hint, required } => MenuAction::AskArgs {
            name: e.name.clone(),
            hint: hint.clone(),
            required: *required,
        },
        Flow::PickTheme => {
            let options = vec!["light".to_owned(), "dark".to_owned(), "ansi".to_owned()];
            assert(views_of(options@) =~= seq!["light"@, "dark"@, "ansi"@]);
            MenuAction::PickFrom { command: "/t".to_owned(), options, title: "Theme".to_owned() }
        },
        Flow::PickMode => MenuAction::PickMode,
        Flow::PickModel => MenuAction::PickModel,
        Flow::PickPrompt => MenuAction::PickPrompt,
        Flow::PickSkills => MenuAction::PickSkills,
        Flow::SidekickDialog => MenuAction::Dispatch("/sidekick".to_owned()),
        Flow::PickFusion => MenuAction::PickModel,
    }
}

pub open spec fn views_of(v: Seq<String>) -> Seq<Seq<char>> {
    v.map_values(|s: String| s@)
}

/// The line for an option picked from a list: `command option`.
pub fn picked_line(command: &str, chosen: &str) -> (r: String)
    ensures
        r@ == command@ + " "@ + chosen@,
{
    let mut v = chars_of(command);
    append_chars(&mut v, chars_of(" ").as_slice());
    append_chars(&mut v, chars_of(chosen).as_slice());
    string_of(v.as_slice())
}

/// The line for the chosen skills: bare `/skills` lists them all.
pub fn skills_line(chosen: &[String]) -> (r: String)
    ensures
        chosen@.len() == 0 ==> r@ == "/skills"@,
        chosen@.len() > 0 ==> r@ == "/skills "@ + crate::text::join(views_of(chosen@), " "@),
{
    if chosen.len() == 0 {
        return "/skills".to_owned();
    }
    let mut parts: Vec<Vec<char>> = Vec::new();
    let mut k: usize = 0;
    while k < chosen.len()
        invariant
            k <= chosen@.len(),
            views(parts@) == views_of(chosen@).take(k as int),
        decreases chosen@.len() - k,
    {
        let ghost before = views(parts@);
        let item = chars_of(chosen[k].as_str());
        parts.push(item);
        assert(views(parts@) =~= before.push(item@));
        assert(views_of(chosen@)[k as int] == chosen@[k as int]@);
        assert(views(parts@) =~= views_of(chosen@).take(k + 1));
        k = k + 1;
    }
    assert(views_of(chosen@).take(k as int) =~= views_of(chosen@));
    let body = crate::text::join_chars(&parts, chars_of(" ").as_slice());
    let mut v = chars_of("/skills ");
    append_chars(&mut v, body.as_slice());
    string_of(v.as_slice())
}

/// The line for a prompt run from the menu: `/prompt name`, then its
/// arguments when any were given.
pub fn prompt_line(name: &str, args: &str) -> (r: String)
    ensures
        r@ == composed("prompt "@ + name@, args@),
{
    let mut n = chars_of("prompt ");
    append_chars(&mut n, chars_of(name).as_slice());
    let s = string_of(n.as_slice());
    compose(s.as_str(), args)
}

/// How the menu opens for a submitted line.
#[derive(Debug, Clone, PartialEq, Eq)]
pub enum MenuStart {
    /// The line names an entry exactly: run the entry at this position
    /// without showing the picker.
    Run(usize),
    /// Show the picker, filtered by what was typed after the slashes.
    Pick(String),
}

/// Open the command menu for `input` (`/`, `/mode`, or an unrecognised
/// `/word`): an exact name runs its entry directly, anything else opens the
/// picker with what was typed.
pub fn run(input: &str, entries: &[MenuEntry]) -> (r: MenuStart)
    ensures
        match r {
            MenuStart::Run(i) => i < entries@.len() && entries@[i as int].name@ == typed_name(input@)
                && forall|j: int| 0 <= j < i ==> #[trigger] entries@[j].name@ != typed_name(input@),
            MenuStart::Pick(t) => t@ == typed_name(input@) && forall|j: int|
                0 <= j < entries@.len() ==> #[trigger] entries@[j].name@ != typed_name(input@),
        },
{
    let t = typed(input);
    match find_entry(entries, t.as_str()) {
        Some(i) => MenuStart::Run(i),
        None => MenuStart::Pick(t),
    }
}

} // verus!
