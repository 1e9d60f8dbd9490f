//! Menu and slash-command domain logic: the command list, fuzzy matching,
//! menu items, and the state the interactive prompt keeps between key
//! events.

use vstd::prelude::*;

use crate::text::is_subseq_of;
use crate::text::str_chars;
use crate::text::sub_string;

verus! {

/// What Unicode lowercasing yields for a string.
///
/// Relied upon below: the mapping is locale-independent, a function of the
/// characters alone.
pub uninterp spec fn lower_of(s: Seq<char>) -> Seq<char>;

/// Relies on str::to_lowercase (std): the Unicode lowercase equivalent of
/// the string. An empty string has no characters to map and stays empty.
#[verifier::external_body]
fn to_lowercase(s: &str) -> (r: String)
    ensures
        r@ == lower_of(s@),
        s@.len() == 0 ==> r@.len() == 0,
{
    s.to_lowercase()
}





/// Slash commands of the application.
#[derive(Clone, Copy, Debug, PartialEq, Eq, Structural)]
pub enum SlashCommand {
    Agent,
    Compact,
    Dump,
    Exit,
    Forge,
    Help,
    Info,
    Login,
    Logout,
    Model,
    Muse,
    New,
    Tools,
    Update,
}

/// The lowercase name a command is written as.
pub open spec fn name_spec(c: SlashCommand) -> Seq<char> {
    match c {
        SlashCommand::Agent => "agent"@,
        SlashCommand::Compact => "compact"@,
        SlashCommand::Dump => "dump"@,
        SlashCommand::Exit => "exit"@,
        SlashCommand::Forge => "forge"@,
        SlashCommand::Help => "help"@,
        SlashCommand::Info => "info"@,
        SlashCommand::Login => "login"@,
        SlashCommand::Logout => "logout"@,
        SlashCommand::Model => "model"@,
        SlashCommand::Muse => "muse"@,
        SlashCommand::New => "new"@,
        SlashCommand::Tools => "tools"@,
        SlashCommand::Update => "update"@,
    }
}

/// The description shown beside a command.
pub open spec fn description_spec(c: SlashCommand) -> Seq<char> {
    match c {
        SlashCommand::Agent => "Switch between different AI agents."@,
        SlashCommand::Compact => "Start new conversation with summarized context"@,
        SlashCommand::Dump => "Export conversation as JSON or HTML"@,
        SlashCommand::Exit => "Close the application"@,
        SlashCommand::Forge => "Switch to agent Forge"@,
        SlashCommand::Help => "Access help documentation and instructions"@,
        SlashCommand::Info => "Display system and environment information"@,
        SlashCommand::Login => "Authenticate with Forge account"@,
        SlashCommand::Logout => "Sign out from current session"@,
        SlashCommand::Model => "Switch to different AI model"@,
        SlashCommand::Muse => "Switch to agent Muse"@,
        SlashCommand::New => "Start new conversation"@,
        SlashCommand::Tools => "View available tools"@,
        SlashCommand::Update => "Upgrade to latest Forge version"@,
    }
}

/// All commands, in declaration order.
pub open spec fn all_commands() -> Seq<SlashCommand> {
    seq![
        SlashCommand::Agent,
        SlashCommand::Compact,
        SlashCommand::Dump,
        SlashCommand::Exit,
        SlashCommand::Forge,
        SlashCommand::Help,
        SlashCommand::Info,
        SlashCommand::Login,
        SlashCommand::Logout,
        SlashCommand::Model,
        SlashCommand::Muse,
        SlashCommand::New,
        SlashCommand::Tools,
        SlashCommand::Update,
    ]
}

/// A command matches a query when the lowercased query appears in order
/// within the lowercased command name.
pub open spec fn matches_spec(c: SlashCommand, query: Seq<char>) -> bool {
    is_subseq_of(lower_of(query), lower_of(name_spec(c)))
}

/// The commands matching a query, in declaration order.
pub open spec fn filtered_commands(cs: Seq<SlashCommand>, query: Seq<char>) -> Seq<SlashCommand>
    decreases cs.len(),
{
    if cs.len() == 0 {
        Seq::<SlashCommand>::empty()
    } else {
        (if matches_spec(cs.first(), query) {
            seq![cs.first()]
        } else {
            Seq::<SlashCommand>::empty()
        }) + filtered_commands(cs.drop_first(), query)
    }
}

impl SlashCommand {
    /// The name the command is written as after the slash.
    pub fn name(&self) -> (r: &'static str)
        ensures
            r@ == name_spec(*self),
    {
        match self {
            SlashCommand::Agent => "agent",
            SlashCommand::Compact => "compact",
            SlashCommand::Dump => "dump",
            SlashCommand::Exit => "exit",
            SlashCommand::Forge => "forge",
            SlashCommand::Help => "help",
            SlashCommand::Info => "info",
            SlashCommand::Login => "login",
            SlashCommand::Logout => "logout",
            SlashCommand::Model => "model",
            SlashCommand::Muse => "muse",
            SlashCommand::New => "new",
            SlashCommand::Tools => "tools",
            SlashCommand::Update => "update",
        }
    }

    /// The description of the command.
    pub fn description(&self) -> (r: &'static str)
        ensures
            r@ == description_spec(*self),
    {
        match self {
            SlashCommand::Agent => "Switch between different AI agents.",
            SlashCommand::Compact => "Start new conversation with summarized context",
            SlashCommand::Dump => "Export conversation as JSON or HTML",
            SlashCommand::Exit => "Close the application",
            SlashCommand::Forge => "Switch to agent Forge",
            SlashCommand::Help => "Access help documentation and instructions",
            SlashCommand::Info => "Display system and environment information",
            SlashCommand::Login => "Authenticate with Forge account",
            SlashCommand::Logout => "Sign out from current session",
            SlashCommand::Model => "Switch to different AI model",
            SlashCommand::Muse => "Switch to agent Muse",
            SlashCommand::New => "Start new conversation",
            SlashCommand::Tools => "View available tools",
            SlashCommand::Update => "Upgrade to latest Forge version",
        }
    }

    /// Every command, in declaration order.
    pub fn all() -> (r: Vec<SlashCommand>)
        ensures
            r@ == all_commands(),
    {
        let mut v: Vec<SlashCommand> = Vec::new();
        v.push(SlashCommand::Agent);
        v.push(SlashCommand::Compact);
        v.push(SlashCommand::Dump);
        v.push(SlashCommand::Exit);
        v.push(SlashCommand::Forge);
        v.push(SlashCommand::Help);
        v.push(SlashCommand::Info);
        v.push(SlashCommand::Login);
        v.push(SlashCommand::Logout);
        v.push(SlashCommand::Model);
        v.push(SlashCommand::Muse);
        v.push(SlashCommand::New);
        v.push(SlashCommand::Tools);
        v.push(SlashCommand::Update);
        proof {
            assert(v@ =~= all_commands());
        }
        v
    }

    /// The command written as `s`, exactly; `None` when no command has that
    /// name.
    pub fn from_name(s: &str) -> (r: Option<SlashCommand>)
        ensures
            match r {
                Some(c) => s@ == name_spec(c),
                None => forall|c: SlashCommand| s@ != #[trigger] name_spec(c),
            },
    {
        let all = SlashCommand::all();
        let n = all.len();
        let mut i: usize = 0;
        while i < n
            invariant
                i <= n == all@.len(),
                all@ == all_commands(),
                forall|j: int| 0 <= j < i ==> s@ != #[trigger] name_spec(all@[j]),
            decreases n - i,
        {
            let c = all[i];
            if crate::text::str_eq(s, c.name()) {
                return Some(c);
            }
            i = i + 1;
        }
        proof {
            assert forall|c: SlashCommand| s@ != #[trigger] name_spec(c) by {
                match c {
                    SlashCommand::Agent => assert(c == all_commands()[0]),
                    SlashCommand::Compact => assert(c == all_commands()[1]),
                    SlashCommand::Dump => assert(c == all_commands()[2]),
                    SlashCommand::Exit => assert(c == all_commands()[3]),
                    SlashCommand::Forge => assert(c == all_commands()[4]),
                    SlashCommand::Help => assert(c == all_commands()[5]),
                    SlashCommand::Info => assert(c == all_commands()[6]),
                    SlashCommand::Login => assert(c == all_commands()[7]),
                    SlashCommand::Logout => assert(c == all_commands()[8]),
                    SlashCommand::Model => assert(c == all_commands()[9]),
                    SlashCommand::Muse => assert(c == all_commands()[10]),
                    SlashCommand::New => assert(c == all_commands()[11]),
                    SlashCommand::Tools => assert(c == all_commands()[12]),
                    SlashCommand::Update => assert(c == all_commands()[13]),
                }
            }
        }
        None
    }

    /// Fuzzy matching on the command name: true when every character of the
    /// query appears, in order, in the name; case does not matter.
    pub fn fuzzy_matches(&self, query: &str) -> (r: bool)
        ensures
            r == matches_spec(*self, query@),
    {
        let ql = to_lowercase(query);
        let tl = to_lowercase(self.name());
        let qc = str_chars(ql.as_str());
        let tc = str_chars(tl.as_str());
        let qn = qc.len();
        let tn = tc.len();
        let mut qi: usize = 0;
        let mut ti: usize = 0;
        proof {
            assert(qc@.skip(0) =~= qc@);
            assert(tc@.skip(0) =~= tc@);
        }
        while ti < tn
            invariant
                qi <= qn == qc@.len(),
                ti <= tn == tc@.len(),
                qc@ == lower_of(query@),
                tc@ == lower_of(name_spec(*self)),
                is_subseq_of(qc@, tc@) == is_subseq_of(
                    qc@.skip(qi as int),
                    tc@.skip(ti as int),
                ),
            decreases tn - ti,
        {
            proof {
                assert(tc@.skip(ti as int).first() == tc@[ti as int]);
                assert(tc@.skip(ti as int).drop_first() =~= tc@.skip(ti as int + 1));
                if qi < qn {
                    assert(qc@.skip(qi as int).first() == qc@[qi as int]);
                    assert(qc@.skip(qi as int).drop_first() =~= qc@.skip(qi as int + 1));
                }
            }
            if qi < qn && tc[ti] == qc[qi] {
                qi = qi + 1;
            }
            ti = ti + 1;
        }
        proof {
            assert(tc@.skip(tn as int) =~= Seq::<char>::empty());
            if qi == qn {
                assert(qc@.skip(qi as int) =~= Seq::<char>::empty());
            }
        }
        qi == qn
    }

    /// All commands that fuzzy match the query, in declaration order.
    pub fn fuzzy_filter(query: &str) -> (r: Vec<SlashCommand>)
        ensures
            r@ == filtered_commands(all_commands(), query@),
    {
        let all = SlashCommand::all();
        let n = all.len();
        let mut out: Vec<SlashCommand> = Vec::new();
        let mut i: usize = 0;
        proof {
            assert(all@.skip(0) =~= all@);
        }
        while i < n
            invariant
                i <= n == all@.len(),
                all@ == all_commands(),
                filtered_commands(all_commands(), query@) == out@ + filtered_commands(
                    all@.skip(i as int),
                    query@,
                ),
            decreases n - i,
        {
            proof {
                assert(all@.skip(i as int).first() == all@[i as int]);
                assert(all@.skip(i as int).drop_first() =~= all@.skip(i as int + 1));
            }
            let c = all[i];
            if c.fuzzy_matches(query) {
                out.push(c);
            }
            i = i + 1;
            proof {
                assert(filtered_commands(all_commands(), query@) =~= out@ + filtered_commands(
                    all@.skip(i as int),
                    query@,
                ));
            }
        }
        proof {
            assert(filtered_commands(all@.skip(n as int), query@) =~= Seq::<
                SlashCommand,
            >::empty());
            assert(out@ =~= filtered_commands(all_commands(), query@));
        }
        out
    }
}

/// The slash menu shows while the editor text starts with a slash.
pub open spec fn slash_menu_visible_spec(text: Seq<char>) -> bool {
    text.len() > 0 && text.first() == '/'
}

/// Menu visibility: always in normal mode; in insert mode only while the
/// text is a slash search with at least one matching command.
pub open spec fn menu_visible_spec(normal_mode: bool, text: Seq<char>) -> bool {
    if normal_mode {
        true
    } else if slash_menu_visible_spec(text) {
        filtered_commands(all_commands(), text.drop_first()).len() > 0
    } else {
        false
    }
}

/// Decides whether the command menu shows, from the editor mode and its
/// current text.
pub fn menu_visible_for(normal_mode: bool, text: &str) -> (r: bool)
    ensures
        r == menu_visible_spec(normal_mode, text@),
{
    if normal_mode {
        return true;
    }
    let cs = str_chars(text);
    if cs.len() == 0 {
        return false;
    }
    if cs[0] != '/' {
        return false;
    }
    let term = sub_string(&cs, 1, cs.len());
    proof {
        assert(term@ =~= text@.drop_first());
    }
    let matches = SlashCommand::fuzzy_filter(term.as_str());
    matches.len() > 0
}

/// One entry of the command menu.
#[derive(Clone, Debug)]
pub struct MenuItem {
    pub title: String,
    pub description: String,
    pub shortcut: char,
}

impl MenuItem {
    /// An entry with a title, a description and its shortcut letter.
    pub fn new(title: String, description: String, trigger_letter: char) -> (r: Self)
        ensures
            r.title@ == title@,
            r.description@ == description@,
            r.shortcut == trigger_letter,
    {
        MenuItem { title, description, shortcut: trigger_letter }
    }
}

/// An item holds exactly these fields.
pub open spec fn item_is(it: MenuItem, t: Seq<char>, d: Seq<char>, s: char) -> bool {
    it.title@ == t && it.description@ == d && it.shortcut == s
}

/// Central definition of all menu items.
#[derive(Clone, Debug)]
pub struct MenuItems {
    pub items: Vec<MenuItem>,
}

impl MenuItems {
    /// The fourteen entries of the application menu, in order.
    pub fn new() -> (r: Self)
        ensures
            r.items@.len() == 14,
            item_is(r.items@[0], "Agent"@, "Switch between different agents"@, 'a'),
            item_is(
                r.items@[1],
                "Compact"@,
                "Start new conversation with summarized context"@,
                'c',
            ),
            item_is(r.items@[2], "Dump"@, "Export conversation as JSON or HTML"@, 'd'),
            item_is(r.items@[3], "Quit"@, "Close the application"@, 'q'),
            item_is(r.items@[4], "Forge"@, "Switch to agent Forge"@, 'f'),
            item_is(r.items@[5], "Help"@, "Access help documentation and instructions"@, 'h'),
            item_is(r.items@[6], "Info"@, "Display system and environment information"@, 'i'),
            item_is(r.items@[7], "Login"@, "Authenticate with Forge account"@, 'l'),
            item_is(r.items@[8], "Logout"@, "Sign out from current session"@, 'o'),
            item_is(r.items@[9], "Model"@, "Switch to different AI model"@, 'm'),
            item_is(r.items@[10], "Muse"@, "Switch to agent Muse"@, 'u'),
            item_is(r.items@[11], "New"@, "Start new conversation"@, 'n'),
            item_is(r.items@[12], "Tools"@, "View available tools"@, 't'),
            item_is(r.items@[13], "Update"@, "Upgrade to latest Forge version"@, 'p'),
    {
        let mut items: Vec<MenuItem> = Vec::new();
        items.push(MenuItem::new(owned("Agent"), owned("Switch between different agents"), 'a'));
        items.push(
            MenuItem::new(
                owned("Compact"),
                owned("Start new conversation with summarized context"),
                'c',
            ),
        );
        items.push(
            MenuItem::new(owned("Dump"), owned("Export conversation as JSON or HTML"), 'd'),
        );
        items.push(MenuItem::new(owned("Quit"), owned("Close the application"), 'q'));
        items.push(MenuItem::new(owned("Forge"), owned("Switch to agent Forge"), 'f'));
        items.push(
            MenuItem::new(
                owned("Help"),
                owned("Access help documentation and instructions"),
                'h',
            ),
        );
        items.push(
            MenuItem::new(
                owned("Info"),
                owned("Display system and environment information"),
                'i',
            ),
        );
        items.push(MenuItem::new(owned("Login"), owned("Authenticate with Forge account"), 'l'));
        items.push(MenuItem::new(owned("Logout"), owned("Sign out from current session"), 'o'));
        items.push(MenuItem::new(owned("Model"), owned("Switch to different AI model"), 'm'));
        items.push(MenuItem::new(owned("Muse"), owned("Switch to agent Muse"), 'u'));
        items.push(MenuItem::new(owned("New"), owned("Start new conversation"), 'n'));
        items.push(MenuItem::new(owned("Tools"), owned("View available tools"), 't'));
        items.push(MenuItem::new(owned("Update"), owned("Upgrade to latest Forge version"), 'p'));
        MenuItems { items }
    }

    /// How many entries the menu holds.
    pub fn count(&self) -> (r: usize)
        ensures
            r == self.items@.len(),
    {
        self.items.len()
    }

    /// The entries as a fresh list, in order, field for field.
    pub fn to_vec(&self) -> (r: Vec<MenuItem>)
        ensures
            r@.len() == self.items@.len(),
            forall|i: int|
                0 <= i < r@.len() ==> item_is(
                    #[trigger] r@[i],
                    self.items@[i].title@,
                    self.items@[i].description@,
                    self.items@[i].shortcut,
                ),
    {
        let n = self.items.len();
        let mut out: Vec<MenuItem> = Vec::new();
        let mut i: usize = 0;
        while i < n
            invariant
                i <= n == self.items@.len(),
                out@.len() == i,
                forall|j: int|
                    0 <= j < i ==> item_is(
                        #[trigger] out@[j],
                        self.items@[j].title@,
                        self.items@[j].description@,
                        self.items@[j].shortcut,
                    ),
            decreases n - i,
        {
            let it = &self.items[i];
            let t = copy_string(&it.title);
            let d = copy_string(&it.description);
            out.push(MenuItem { title: t, description: d, shortcut: it.shortcut });
            i = i + 1;
        }
        out
    }
}

impl Default for MenuItems {
    fn default() -> (r: Self)
        ensures
            r.items@.len() == 14,
    {
        MenuItems::new()
    }
}

/// An owned string from a literal.
fn owned(s: &str) -> (r: String)
    ensures
        r@ == s@,
{
    s.to_owned()
}

/// A fresh copy of a string.
fn copy_string(s: &String) -> (r: String)
    ensures
        r@ == s@,
{
    let cs = str_chars(s.as_str());
    crate::text::chars_to_string(&cs)
}

/// A conversation's identifier, as the engine sees it: an opaque token.
#[derive(Clone, Debug)]
pub struct ConversationId(pub String);

/// Where the prompt stands in a conversation.
#[derive(Clone, Debug)]
pub struct ConversationState {
    pub conversation_id: Option<ConversationId>,
    pub is_first: bool,
}

impl ConversationState {
    /// A state before any conversation exists.
    pub fn new() -> (r: Self)
        ensures
            r.conversation_id is None,
            r.is_first,
    {
        ConversationState { conversation_id: None, is_first: true }
    }

    /// Binds the state to a conversation.
    pub fn init_conversation(&mut self, conversation_id: ConversationId)
        ensures
            match final(self).conversation_id {
                Some(id) => id.0@ == conversation_id.0@,
                None => false,
            },
            !final(self).is_first,
    {
        self.conversation_id = Some(conversation_id);
        self.is_first = false;
    }
}

/// What the status bar knows of the workspace.
#[derive(Clone, Debug)]
pub struct Workspace {
    pub current_branch: Option<String>,
    pub current_dir: Option<String>,
}

/// The bottom status line: editor mode, agent name, and workspace facts.
#[derive(Debug)]
pub struct StatusBar {
    pub editor_status: Option<String>,
    pub agent: Option<String>,
    pub workspace: Workspace,
}

impl StatusBar {
    /// A status bar with all fields set.
    pub fn new(agent: String, editor_status: String, workspace: Workspace) -> (r: Self)
        ensures
            match r.editor_status {
                Some(s) => s@ == editor_status@,
                None => false,
            },
            match r.agent {
                Some(s) => s@ == agent@,
                None => false,
            },
            r.workspace == workspace,
    {
        StatusBar { editor_status: Some(editor_status), agent: Some(agent), workspace }
    }
}

} // verus!
