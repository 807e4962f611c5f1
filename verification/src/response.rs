//! The reply that a handler builds up, and its rendering as a JSON object.

use vstd::prelude::*;
use rustc_serialize::json::{Json, Object};
use crate::bot::SlackBot;
use crate::manager::CommandHandler;
use crate::pairs::{
    distinct_names, lemma_pairs_map_push, member, pairs_map, pairs_view, Pair,
};
use crate::text::{join, join_strings, strings_view};

verus! {

/// The character content of an optional string.
pub open spec fn opt_view(o: Option<String>) -> Option<Seq<char>> {
    match o {
        Some(s) => Some(s@),
        None => None,
    }
}

/// How a reply is shown: under which name, and with which icon. Each setting
/// may be absent.
#[verifier::ext_equal]
pub ghost struct DisplayOptions {
    pub username: Option<Seq<char>>,
    pub icon_url: Option<Seq<char>>,
    pub icon_emoji: Option<Seq<char>>,
}

/// The reply to one request: its lines, and the display settings that this
/// reply overrides.
pub struct SlackResponse {
    pub username: Option<String>,
    pub icon_url: Option<String>,
    pub icon_emoji: Option<String>,
    pub response: Vec<String>,
}

/// The mathematical content of a `SlackResponse`.
#[verifier::ext_equal]
pub ghost struct SlackResponseView {
    pub username: Option<Seq<char>>,
    pub icon_url: Option<Seq<char>>,
    pub icon_emoji: Option<Seq<char>>,
    pub response: Seq<Seq<char>>,
}

impl SlackResponseView {
    /// The reply that a request starts with: no lines, no overrides.
    pub open spec fn empty() -> SlackResponseView {
        SlackResponseView { username: None, icon_url: None, icon_emoji: None, response: Seq::empty() }
    }

    /// The display settings that this reply overrides.
    pub open spec fn overrides(self) -> DisplayOptions {
        DisplayOptions {
            username: self.username,
            icon_url: self.icon_url,
            icon_emoji: self.icon_emoji,
        }
    }

    /// This reply with `lines` added at its end, in order.
    pub open spec fn with_lines(self, lines: Seq<Seq<char>>) -> SlackResponseView {
        SlackResponseView { response: self.response + lines, ..self }
    }
}

impl View for SlackResponse {
    type V = SlackResponseView;

    open spec fn view(&self) -> SlackResponseView {
        SlackResponseView {
            username: opt_view(self.username),
            icon_url: opt_view(self.icon_url),
            icon_emoji: opt_view(self.icon_emoji),
            response: strings_view(self.response@),
        }
    }
}

/// The separator between the lines of a reply.
pub open spec fn line_break() -> Seq<char> {
    "\n"@
}

/// The setting that applies: the reply's own where it has one, else the
/// bot's, else none.
pub open spec fn resolved(over: Option<Seq<char>>, default: Option<Seq<char>>) -> Option<
    Seq<char>,
> {
    match over {
        Some(_) => over,
        None => default,
    }
}

/// The entry for `key`: one pair where there is a value, none where there is
/// not.
pub open spec fn optional_entry(key: Seq<char>, value: Option<Seq<char>>) -> Seq<Pair> {
    match value {
        Some(v) => seq![(key, v)],
        None => Seq::empty(),
    }
}

/// The entries of the object that a reply is rendered as: the text, which is
/// always there, and each display setting that the reply or the bot has.
pub open spec fn rendered(resp: SlackResponseView, defaults: DisplayOptions) -> Seq<Pair> {
    seq![("text"@, join(resp.response, line_break()))] + optional_entry(
        "icon_url"@,
        resolved(resp.icon_url, defaults.icon_url),
    ) + optional_entry("icon_emoji"@, resolved(resp.icon_emoji, defaults.icon_emoji))
        + optional_entry("username"@, resolved(resp.username, defaults.username))
}

/// The compact JSON text that `rustc_serialize` writes for an object whose
/// members are the given names, each with its value as a JSON string.
pub uninterp spec fn json_object_text(entries: Seq<(Seq<char>, Seq<char>)>) -> Seq<char>;

/// Builds a `rustc_serialize::json::Json::Object` with one string member for
/// each pair of `entries` and formats it with `Json`'s `Display`, which writes
/// compact JSON. The names must differ, so that each pair becomes a member.
/// The contract only names what the call returns.
#[verifier::external_body]
fn encode_object(entries: &Vec<(String, String)>) -> (text: String)
    requires
        distinct_names(pairs_view(entries@)),
    ensures
        text@ == json_object_text(pairs_view(entries@)),
{
    let object: Object =
        entries.iter().map(|(k, v)| (k.clone(), Json::String(v.clone()))).collect();
    Json::Object(object).to_string()
}

/// The setting that applies: the reply's own where it has one, else the
/// bot's, else none.
pub fn resolve<'a>(over: &'a Option<String>, default: &'a Option<String>) -> (out: &'a Option<
    String,
>)
    ensures
        opt_view(*out) == resolved(opt_view(*over), opt_view(*default)),
{
    match over {
        Some(_) => over,
        None => default,
    }
}

/// Adds the entry for `key` to `entries` where `value` holds one.
fn push_optional(entries: &mut Vec<(String, String)>, key: &str, value: &Option<String>)
    ensures
        pairs_view(final(entries)@) == pairs_view(old(entries)@) + optional_entry(
            key@,
            opt_view(*value),
        ),
{
    match value {
        Some(v) => {
            entries.push((key.to_owned(), v.clone()));
            assert(pairs_view(entries@) =~= pairs_view(old(entries)@) + seq![(key@, v@)]);
        },
        None => {
            assert(pairs_view(entries@) =~= pairs_view(old(entries)@) + Seq::empty());
        },
    }
}

impl SlackResponse {
    /// A reply with no lines and no overrides.
    pub fn new() -> (resp: SlackResponse)
        ensures
            resp@ == SlackResponseView::empty(),
    {
        let resp =
            SlackResponse { username: None, icon_url: None, icon_emoji: None, response: Vec::new() };
        assert(strings_view(resp.response@) =~= Seq::empty());
        resp
    }

    /// Appends one line to the reply.
    pub fn reply(&mut self, string: &str)
        ensures
            final(self)@ == old(self)@.with_lines(seq![string@]),
    {
        self.response.push(string.to_owned());
        assert(strings_view(self.response@) =~= old(self)@.response + seq![string@]);
    }

    /// The entries of the object that this reply is rendered as for `bot`.
    pub fn entries<H: CommandHandler>(&self, bot: &SlackBot<H>) -> (entries: Vec<(String, String)>)
        ensures
            pairs_view(entries@) == rendered(self@, bot.defaults()),
    {
        let mut entries: Vec<(String, String)> = Vec::new();
        let text = join_strings(&self.response, "\n");
        entries.push(("text".to_owned(), text));
        assert(pairs_view(entries@) =~= seq![("text"@, join(self@.response, line_break()))]);
        push_optional(&mut entries, "icon_url", resolve(&self.icon_url, &bot.icon_url));
        push_optional(&mut entries, "icon_emoji", resolve(&self.icon_emoji, &bot.icon_emoji));
        push_optional(&mut entries, "username", resolve(&self.username, &bot.username));
        entries
    }

    /// Renders this reply for `bot` as the text of a JSON object.
    pub fn to_json<H: CommandHandler>(&self, bot: &SlackBot<H>) -> (json: String)
        ensures
            json@ == json_object_text(rendered(self@, bot.defaults())),
    {
        let entries = self.entries(bot);
        proof {
            lemma_rendered_names_differ(self@, bot.defaults());
        }
        encode_object(&entries)
    }
}

/// The names of the four members are pairwise different.
pub proof fn lemma_member_names_differ()
    ensures
        "text"@ != "icon_url"@,
        "text"@ != "icon_emoji"@,
        "text"@ != "username"@,
        "icon_url"@ != "icon_emoji"@,
        "icon_url"@ != "username"@,
        "icon_emoji"@ != "username"@,
{
    reveal_strlit("text");
    reveal_strlit("icon_url");
    reveal_strlit("icon_emoji");
    reveal_strlit("username");
    assert("text"@.len() == 4);
    assert("icon_url"@.len() == 8);
    assert("icon_emoji"@.len() == 10);
    assert("username"@.len() == 8);
    assert("icon_url"@[0] == 'i');
    assert("username"@[0] == 'u');
}

/// No two entries of a rendered reply bear the same name.
pub proof fn lemma_rendered_names_differ(resp: SlackResponseView, defaults: DisplayOptions)
    ensures
        distinct_names(rendered(resp, defaults)),
{
    lemma_member_names_differ();
    let entries = rendered(resp, defaults);
    let text = seq![("text"@, join(resp.response, line_break()))];
    let icon_url = optional_entry("icon_url"@, resolved(resp.icon_url, defaults.icon_url));
    let icon_emoji = optional_entry("icon_emoji"@, resolved(resp.icon_emoji, defaults.icon_emoji));
    let username = optional_entry("username"@, resolved(resp.username, defaults.username));
    assert(entries == text + icon_url + icon_emoji + username);
    assert forall|i: int, j: int| 0 <= i < j < entries.len() implies (#[trigger] entries[i]).0 != (
    #[trigger] entries[j]).0 by {
        assert(entries[0].0 == "text"@);
        assert(icon_url.len() <= 1 && icon_emoji.len() <= 1 && username.len() <= 1);
        assert(forall|k: int| 0 <= k < icon_url.len() ==> icon_url[k].0 == "icon_url"@);
        assert(forall|k: int| 0 <= k < icon_emoji.len() ==> icon_emoji[k].0 == "icon_emoji"@);
        assert(forall|k: int| 0 <= k < username.len() ==> username[k].0 == "username"@);
    }
}

/// Adding an optional entry at the end sets its name where there is a value,
/// and changes nothing where there is none.
proof fn lemma_pairs_map_optional(entries: Seq<Pair>, key: Seq<char>, value: Option<Seq<char>>)
    ensures
        pairs_map(entries + optional_entry(key, value)) == (match value {
            Some(v) => pairs_map(entries).insert(key, v),
            None => pairs_map(entries),
        }),
{
    match value {
        Some(v) => {
            assert(entries + optional_entry(key, value) =~= entries.push((key, v)));
            lemma_pairs_map_push(entries, (key, v));
        },
        None => {
            assert(entries + optional_entry(key, value) =~= entries);
        },
    }
}

/// What a rendered reply holds, member by member.
///
/// The text is the reply's lines joined by line breaks, in the order in which
/// they were added. Each display setting is resolved on its own: the reply's
/// value where it has one, else the bot's, and no member where neither has
/// one. There are no other members.
pub proof fn lemma_rendered_members(resp: SlackResponseView, defaults: DisplayOptions)
    ensures
        ({
            let object = pairs_map(rendered(resp, defaults));
            &&& member(object, "text"@) == Some(join(resp.response, line_break()))
            &&& member(object, "icon_url"@) == resolved(resp.icon_url, defaults.icon_url)
            &&& member(object, "icon_emoji"@) == resolved(resp.icon_emoji, defaults.icon_emoji)
            &&& member(object, "username"@) == resolved(resp.username, defaults.username)
            &&& forall|name: Seq<char>| #[trigger]
                object.contains_key(name) ==> name == "text"@ || name == "icon_url"@ || name
                    == "icon_emoji"@ || name == "username"@
        }),
{
    lemma_member_names_differ();
    let text = seq![("text"@, join(resp.response, line_break()))];
    let icon_url = resolved(resp.icon_url, defaults.icon_url);
    let icon_emoji = resolved(resp.icon_emoji, defaults.icon_emoji);
    let username = resolved(resp.username, defaults.username);
    lemma_pairs_map_push(Seq::empty(), ("text"@, join(resp.response, line_break())));
    assert(Seq::<Pair>::empty().push(("text"@, join(resp.response, line_break()))) =~= text);
    lemma_pairs_map_optional(text, "icon_url"@, icon_url);
    let two = text + optional_entry("icon_url"@, icon_url);
    lemma_pairs_map_optional(two, "icon_emoji"@, icon_emoji);
    let three = two + optional_entry("icon_emoji"@, icon_emoji);
    lemma_pairs_map_optional(three, "username"@, username);
}

/// Overrides fall back field by field, not all together: a reply that sets
/// its own icon emoji and no username is rendered with its own icon emoji and
/// with the bot's username.
pub proof fn lemma_fallback_is_per_field(resp: SlackResponseView, defaults: DisplayOptions)
    requires
        resp.icon_emoji is Some,
        resp.username is None,
        defaults.icon_emoji is Some,
        defaults.username is Some,
    ensures
        member(pairs_map(rendered(resp, defaults)), "icon_emoji"@) == resp.icon_emoji,
        member(pairs_map(rendered(resp, defaults)), "username"@) == defaults.username,
{
    lemma_rendered_members(resp, defaults);
}

/// Lines added one after another are lines added together.
pub proof fn lemma_with_lines_composes(
    resp: SlackResponseView,
    first: Seq<Seq<char>>,
    second: Seq<Seq<char>>,
)
    ensures
        resp.with_lines(first).with_lines(second) == resp.with_lines(first + second),
{
    assert((resp.response + first) + second =~= resp.response + (first + second));
}

/// The text of a rendered reply is exactly the lines that were added to it,
/// in the order of the calls, joined by line breaks.
pub proof fn lemma_text_joins_replies(lines: Seq<Seq<char>>, defaults: DisplayOptions)
    ensures
        member(
            pairs_map(rendered(SlackResponseView::empty().with_lines(lines), defaults)),
            "text"@,
        ) == Some(join(lines, line_break())),
{
    let resp = SlackResponseView::empty().with_lines(lines);
    assert(resp.response =~= lines);
    lemma_rendered_members(resp, defaults);
}

} // verus!
