//! The bot: its settings, its handlers, and the handling of one request.

use vstd::prelude::*;
use crate::command::{parse_body, RequestError, SlackCommand, SlackCommandView};
use crate::manager::{dispatched, not_found_line, CommandHandler, CommandManager};
use crate::pairs::{member, pairs_map};
use crate::response::{
    json_object_text, lemma_rendered_members, opt_view, rendered, DisplayOptions, SlackResponse,
    SlackResponseView,
};

verus! {

/// A bot: the port it serves on, its handlers, and the display settings that
/// apply where a reply sets none.
#[verifier::reject_recursive_types(H)]
pub struct SlackBot<H: CommandHandler> {
    pub port: isize,
    pub manager: CommandManager<H>,
    pub username: Option<String>,
    pub icon_url: Option<String>,
    pub icon_emoji: Option<String>,
}

/// Where a bot listens.
pub struct Config {
    pub bind_ip: [u8; 4],
    pub bind_port: u16,
}

/// What goes back to the sender of a request that was answered.
pub struct HttpReply {
    pub content_type: String,
    pub body: Vec<u8>,
}

/// The content type of every reply.
pub open spec fn json_content_type() -> Seq<char> {
    "application/json"@
}

/// The bytes of the object that `resp` is rendered as under `defaults`.
pub open spec fn reply_body(resp: SlackResponseView, defaults: DisplayOptions) -> Seq<u8> {
    vstd::utf8::encode_utf8(json_object_text(rendered(resp, defaults)))
}

/// Whether `body` renders a reply that dispatching `name` with `cmd` through
/// `table` may leave, starting from the empty reply.
pub open spec fn is_answer<H: CommandHandler>(
    table: Map<Seq<char>, H>,
    defaults: DisplayOptions,
    name: Seq<char>,
    cmd: SlackCommandView,
    body: Seq<u8>,
) -> bool {
    exists|cmd_after: SlackCommandView, resp_after: SlackResponseView|
        #[trigger] dispatched(
            table,
            name,
            cmd,
            SlackResponseView::empty(),
            cmd_after,
            resp_after,
        ) && body == reply_body(resp_after, defaults)
}

impl<H: CommandHandler> SlackBot<H> {
    /// The display settings that apply where a reply sets none.
    pub open spec fn defaults(&self) -> DisplayOptions {
        DisplayOptions {
            username: opt_view(self.username),
            icon_url: opt_view(self.icon_url),
            icon_emoji: opt_view(self.icon_emoji),
        }
    }

    /// A bot for `port` with no handlers and no display settings.
    pub fn new(port: isize) -> (bot: SlackBot<H>)
        ensures
            bot.port == port,
            bot.manager@ == Map::<Seq<char>, H>::empty(),
            bot.defaults() == (DisplayOptions { username: None, icon_url: None, icon_emoji: None }),
    {
        SlackBot {
            port: port,
            manager: CommandManager::new(),
            username: None,
            icon_url: None,
            icon_emoji: None,
        }
    }

    /// The local address that the bot serves on. The port is cut to its low
    /// sixteen bits.
    pub fn get_config(&self) -> (config: Config)
        ensures
            config.bind_ip@ == seq![127u8, 0u8, 0u8, 1u8],
            config.bind_port == self.port as u16,
    {
        Config { bind_ip: [127, 0, 0, 1], bind_port: #[verifier::truncate] (self.port as u16) }
    }

    /// Renders `resp` and wraps it as the reply to send.
    pub fn respond(&self, resp: &SlackResponse) -> (reply: HttpReply)
        ensures
            reply.content_type@ == json_content_type(),
            reply.body@ == reply_body(resp@, self.defaults()),
    {
        let json = resp.to_json(self);
        HttpReply { content_type: "application/json".to_owned(), body: json.as_str().as_bytes_vec() }
    }

    /// Handles one request: decodes the body, parses the command, dispatches
    /// it, and renders the reply.
    ///
    /// A body that does not parse is given up with the parser's error and
    /// nothing is rendered. Every other body is answered, also where no
    /// handler is registered under the command's name.
    pub fn handle_request(&self, body: &[u8]) -> (out: Result<HttpReply, RequestError>)
        ensures
            match parse_body(body@) {
                Err(e) => out == Err::<HttpReply, RequestError>(e),
                Ok((name, cmd)) => {
                    &&& out matches Ok(reply)
                    &&& reply.content_type@ == json_content_type()
                    &&& is_answer(self.manager@, self.defaults(), name, cmd, reply.body@)
                },
            },
    {
        let (name, mut cmd) = match SlackCommand::from_body(body) {
            Ok(parsed) => parsed,
            Err(e) => { return Err(e); },
        };
        let mut resp = SlackResponse::new();
        let ghost name_view = name@;
        let ghost cmd_before = cmd@;
        let _ = self.manager.handle(name, &mut cmd, &mut resp);
        let reply = self.respond(&resp);
        assert(is_answer(self.manager@, self.defaults(), name_view, cmd_before, reply.body@)) by {
            assert(dispatched(
                self.manager@,
                name_view,
                cmd_before,
                SlackResponseView::empty(),
                cmd@,
                resp@,
            ));
        }
        Ok(reply)
    }
}

/// A request whose command nobody registered is answered with the rendering
/// of a reply that holds the not-found line and nothing else, so that line is
/// the whole text.
pub proof fn lemma_unregistered_answer<H: CommandHandler>(
    table: Map<Seq<char>, H>,
    defaults: DisplayOptions,
    name: Seq<char>,
    cmd: SlackCommandView,
    body: Seq<u8>,
)
    requires
        !table.contains_key(name),
        is_answer(table, defaults, name, cmd, body),
    ensures
        ({
            let resp = SlackResponseView::empty().with_lines(seq![not_found_line(name)]);
            &&& body == reply_body(resp, defaults)
            &&& member(pairs_map(rendered(resp, defaults)), "text"@) == Some(
                "Command not found: "@ + name,
            )
        }),
{
    let resp = SlackResponseView::empty().with_lines(seq![not_found_line(name)]);
    assert(resp.response =~= seq![not_found_line(name)]);
    lemma_rendered_members(resp, defaults);
}

} // verus!
