//! The table of command handlers.

use vstd::prelude::*;
use vstd::hash_map::StringHashMap;
use crate::command::{SlackCommand, SlackCommandView};
use crate::response::{SlackResponse, SlackResponseView};
use crate::text::strings_view;

verus! {

/// What runs when a command is invoked.
///
/// A handler answers by changing the reply it is handed; `effect` says which
/// changes one run may make.
pub trait CommandHandler {
    /// Whether a run that starts from `cmd` and `resp` may end in `cmd_after`
    /// and `resp_after`. Unless an implementation says more, any outcome may.
    open spec fn effect(
        &self,
        cmd: SlackCommandView,
        resp: SlackResponseView,
        cmd_after: SlackCommandView,
        resp_after: SlackResponseView,
    ) -> bool {
        true
    }

    /// Runs the handler once.
    fn run(&self, cmd: &mut SlackCommand, resp: &mut SlackResponse)
        ensures
            self.effect(old(cmd)@, old(resp)@, final(cmd)@, final(resp)@),
    ;
}

/// The handler that tells which bot is answering.
pub struct VersionCommand;

impl VersionCommand {
    /// The line that the handler replies with.
    pub open spec fn line() -> Seq<char> {
        "slackbot.rs version 0.1"@
    }
}

impl CommandHandler for VersionCommand {
    /// One run adds the version line to the reply and changes nothing else.
    open spec fn effect(
        &self,
        cmd: SlackCommandView,
        resp: SlackResponseView,
        cmd_after: SlackCommandView,
        resp_after: SlackResponseView,
    ) -> bool {
        &&& cmd_after == cmd
        &&& resp_after == resp.with_lines(seq![VersionCommand::line()])
    }

    fn run(&self, cmd: &mut SlackCommand, resp: &mut SlackResponse) {
        resp.reply("slackbot.rs version 0.1");
    }
}

/// The line that answers a command nobody registered.
pub open spec fn not_found_line(name: Seq<char>) -> Seq<char> {
    "Command not found: "@ + name
}

/// Whether dispatching `name` through `table` may turn `cmd` and `resp` into
/// `cmd_after` and `resp_after`: through the handler registered under `name`,
/// or, where there is none, by adding the not-found line and nothing else.
pub open spec fn dispatched<H: CommandHandler>(
    table: Map<Seq<char>, H>,
    name: Seq<char>,
    cmd: SlackCommandView,
    resp: SlackResponseView,
    cmd_after: SlackCommandView,
    resp_after: SlackResponseView,
) -> bool {
    if table.contains_key(name) {
        table[name].effect(cmd, resp, cmd_after, resp_after)
    } else {
        &&& cmd_after == cmd
        &&& resp_after == resp.with_lines(seq![not_found_line(name)])
    }
}

/// Handlers by command name. Names match exactly, case included.
#[verifier::reject_recursive_types(H)]
pub struct CommandManager<H: CommandHandler> {
    pub commands: StringHashMap<H>,
}

impl<H: CommandHandler> View for CommandManager<H> {
    type V = Map<Seq<char>, H>;

    open spec fn view(&self) -> Map<Seq<char>, H> {
        self.commands@
    }
}

impl<H: CommandHandler> CommandManager<H> {
    /// A table with no handlers.
    pub fn new() -> (manager: Self)
        ensures
            manager@ == Map::<Seq<char>, H>::empty(),
    {
        CommandManager { commands: StringHashMap::new() }
    }

    /// Registers `func` under `name`, in place of any handler that was there.
    pub fn register(&mut self, name: String, func: H)
        ensures
            final(self)@ == old(self)@.insert(name@, func),
    {
        self.commands.insert(name, func);
    }

    /// Runs the handler registered under `name` and returns the reply's lines;
    /// where there is none, adds the not-found line to the reply and returns
    /// `None`.
    pub fn handle(&self, name: String, cmd: &mut SlackCommand, resp: &mut SlackResponse) -> (out:
        Option<Vec<String>>)
        ensures
            dispatched(self@, name@, old(cmd)@, old(resp)@, final(cmd)@, final(resp)@),
            out is Some <==> self@.contains_key(name@),
            out matches Some(lines) ==> strings_view(lines@) == final(resp)@.response,
    {
        match self.commands.get(name.as_str()) {
            Some(func) => {
                func.run(cmd, resp);
                let lines = resp.response.clone();
                assert(strings_view(lines@) =~= strings_view(resp.response@));
                Some(lines)
            },
            None => {
                let line = "Command not found: ".to_owned().concat(name.as_str());
                resp.reply(line.as_str());
                None
            },
        }
    }
}

/// A name that nobody registered is answered with the not-found line and
/// nothing else: the command stays as it was, and the reply gains that one
/// line after those it had.
pub proof fn lemma_unregistered_adds_not_found<H: CommandHandler>(
    table: Map<Seq<char>, H>,
    name: Seq<char>,
    cmd: SlackCommandView,
    resp: SlackResponseView,
    cmd_after: SlackCommandView,
    resp_after: SlackResponseView,
)
    requires
        !table.contains_key(name),
        dispatched(table, name, cmd, resp, cmd_after, resp_after),
    ensures
        cmd_after == cmd,
        resp_after.response == resp.response.push("Command not found: "@ + name),
        resp_after.overrides() == resp.overrides(),
{
    assert(resp.response + seq![not_found_line(name)] =~= resp.response.push(not_found_line(name)));
}

} // verus!
