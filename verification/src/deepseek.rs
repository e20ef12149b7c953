//! Questions to a language model.

use crate::chat;
use crate::json;
use crate::json::{Json, Tree};
use crate::text;
use crate::text::{
    cat, cat3, chars_of, lines, lossy, push_to, same_str, split_once, string_of, trim, trim_char,
    trim_end_char, trimmed, utf8_text,
};
use vstd::prelude::*;
use vstd::slice::slice_subrange;

verus! {

/// So many characters of a reply that is no JSON are shown.
pub const HEAD_CHARS: usize = 200;

/// Who is asked.
#[derive(Debug, Clone, Copy, PartialEq, Eq, Structural)]
pub enum Provider {
    DeepSeek,
    OpenAi,
}

/// The names of a provider's settings, what they are where they are not set,
/// and what the provider is called.
pub struct Service {
    pub key_var: &'static str,
    pub base_var: &'static str,
    pub model_var: &'static str,
    pub base: &'static str,
    pub model: &'static str,
    pub name: &'static str,
}

impl Provider {
    pub open spec fn label_of(self) -> Seq<char> {
        match self {
            Provider::DeepSeek => "DS"@,
            Provider::OpenAi => "OAI"@,
        }
    }

    pub fn label(self) -> (r: &'static str)
        ensures
            r@ == self.label_of(),
    {
        match self {
            Provider::DeepSeek => "DS",
            Provider::OpenAi => "OAI",
        }
    }

    pub open spec fn toggled_of(self) -> Provider {
        match self {
            Provider::DeepSeek => Provider::OpenAi,
            Provider::OpenAi => Provider::DeepSeek,
        }
    }

    pub fn toggled(self) -> (r: Provider)
        ensures
            r == self.toggled_of(),
    {
        match self {
            Provider::DeepSeek => Provider::OpenAi,
            Provider::OpenAi => Provider::DeepSeek,
        }
    }

    pub open spec fn saved_of(self) -> Seq<char> {
        match self {
            Provider::DeepSeek => "deepseek"@,
            Provider::OpenAi => "openai"@,
        }
    }

    /// What the provider is saved as.
    pub fn as_str(self) -> (r: &'static str)
        ensures
            r@ == self.saved_of(),
    {
        match self {
            Provider::DeepSeek => "deepseek",
            Provider::OpenAi => "openai",
        }
    }

    pub open spec fn from_str_of(s: Seq<char>) -> Provider {
        if s == "openai"@ {
            Provider::OpenAi
        } else {
            Provider::DeepSeek
        }
    }

    /// The provider that was saved.
    pub fn from_str(s: &str) -> (r: Provider)
        ensures
            r == Provider::from_str_of(s@),
    {
        if same_str(s, "openai") {
            Provider::OpenAi
        } else {
            Provider::DeepSeek
        }
    }

    pub open spec fn key_var_of(self) -> Seq<char> {
        match self {
            Provider::DeepSeek => "LLM_API_KEY"@,
            Provider::OpenAi => "OPENAI_API_KEY"@,
        }
    }

    pub open spec fn base_var_of(self) -> Seq<char> {
        match self {
            Provider::DeepSeek => "LLM_BASE_URL"@,
            Provider::OpenAi => "OPENAI_BASE_URL"@,
        }
    }

    pub open spec fn model_var_of(self) -> Seq<char> {
        match self {
            Provider::DeepSeek => "LLM_MODEL"@,
            Provider::OpenAi => "OPENAI_MODEL"@,
        }
    }

    pub open spec fn usual_base(self) -> Seq<char> {
        match self {
            Provider::DeepSeek => "https://api.deepseek.com/v1"@,
            Provider::OpenAi => "https://api.openai.com/v1"@,
        }
    }

    pub open spec fn usual_model(self) -> Seq<char> {
        match self {
            Provider::DeepSeek => "deepseek-chat"@,
            Provider::OpenAi => "gpt-4o-mini"@,
        }
    }

    pub open spec fn name_of(self) -> Seq<char> {
        match self {
            Provider::DeepSeek => "DeepSeek"@,
            Provider::OpenAi => "OpenAI"@,
        }
    }

    /// The names of the provider's settings, and what is usual.
    pub fn service(self) -> (r: Service)
        ensures
            r.key_var@ == self.key_var_of(),
            r.base_var@ == self.base_var_of(),
            r.model_var@ == self.model_var_of(),
            r.base@ == self.usual_base(),
            r.model@ == self.usual_model(),
            r.name@ == self.name_of(),
    {
        match self {
            Provider::DeepSeek => Service {
                key_var: "LLM_API_KEY",
                base_var: "LLM_BASE_URL",
                model_var: "LLM_MODEL",
                base: "https://api.deepseek.com/v1",
                model: "deepseek-chat",
                name: "DeepSeek",
            },
            Provider::OpenAi => Service {
                key_var: "OPENAI_API_KEY",
                base_var: "OPENAI_BASE_URL",
                model_var: "OPENAI_MODEL",
                base: "https://api.openai.com/v1",
                model: "gpt-4o-mini",
                name: "OpenAI",
            },
        }
    }
}

/// The provider that was saved is the provider that is read.
pub proof fn provider_reads_back(p: Provider)
    ensures
        Provider::from_str_of(p.saved_of()) == p,
{
    reveal_strlit("openai");
    reveal_strlit("deepseek");
    assert("openai"@.len() == 6 && "deepseek"@.len() == 8);
}

/// There are two providers, and the switch goes from each to the other; their
/// names on the switch differ.
pub proof fn switch_goes_to_the_other(p: Provider)
    ensures
        p.toggled_of() != p,
        p.toggled_of().toggled_of() == p,
        p.label_of() != p.toggled_of().label_of(),
        p.saved_of() != p.toggled_of().saved_of(),
        p.key_var_of() != p.toggled_of().key_var_of(),
        p.base_var_of() != p.toggled_of().base_var_of(),
        p.model_var_of() != p.toggled_of().model_var_of(),
        p.usual_base() != p.toggled_of().usual_base(),
        p.usual_model() != p.toggled_of().usual_model(),
        p.name_of() != p.toggled_of().name_of(),
{
    reveal_strlit("DS");
    reveal_strlit("OAI");
    reveal_strlit("openai");
    reveal_strlit("deepseek");
    reveal_strlit("LLM_API_KEY");
    reveal_strlit("OPENAI_API_KEY");
    reveal_strlit("LLM_BASE_URL");
    reveal_strlit("OPENAI_BASE_URL");
    reveal_strlit("LLM_MODEL");
    reveal_strlit("OPENAI_MODEL");
    reveal_strlit("https://api.deepseek.com/v1");
    reveal_strlit("https://api.openai.com/v1");
    reveal_strlit("deepseek-chat");
    reveal_strlit("gpt-4o-mini");
    reveal_strlit("DeepSeek");
    reveal_strlit("OpenAI");
    assert("DS"@.len() == 2 && "OAI"@.len() == 3);
    assert("openai"@.len() == 6 && "deepseek"@.len() == 8);
    assert("LLM_API_KEY"@.len() == 11 && "OPENAI_API_KEY"@.len() == 14);
    assert("LLM_BASE_URL"@.len() == 12 && "OPENAI_BASE_URL"@.len() == 15);
    assert("LLM_MODEL"@.len() == 9 && "OPENAI_MODEL"@.len() == 12);
    assert("https://api.deepseek.com/v1"@.len() == 27 && "https://api.openai.com/v1"@.len() == 25);
    assert("deepseek-chat"@.len() == 13 && "gpt-4o-mini"@.len() == 11);
    assert("DeepSeek"@.len() == 8 && "OpenAI"@.len() == 6);
}

// ---------------------------------------------------------------------------
// Settings
// ---------------------------------------------------------------------------

/// The setting in a line: its name and its value, which loses the quotes around
/// it. An empty line and a comment hold none.
pub open spec fn setting_of(line: Seq<char>) -> Option<(Seq<char>, Seq<char>)> {
    let l = text::trim_of(line);
    if l.len() == 0 || l[0] == '#' {
        None
    } else {
        match text::split_once_of(l, "="@) {
            Some((k, v)) => Some(
                (
                    text::trim_of(k),
                    text::trim_char_of(text::trim_char_of(text::trim_of(v), '"'), '\''),
                ),
            ),
            None => None,
        }
    }
}

/// A line with a name, an equals sign and a value sets the value, whether it
/// stands in quotes or not, and whatever white space is around the two. A line
/// that begins with a number sign sets nothing, nor does one without an equals
/// sign.
pub proof fn setting_is_read(k: Seq<char>, v: Seq<char>, comment: Seq<char>)
    requires
        k.len() > 0,
        !k.contains('='),
        k[0] != '#',
        !text::is_space_of(k[0]),
        !text::is_space_of(k.last()),
        v.len() > 0 ==> !text::is_space_of(v[0]) && !text::is_space_of(v.last()) && v[0] != '"'
            && v[0] != '\'' && v.last() != '"' && v.last() != '\'',
    ensures
        setting_of(k + seq!['='] + v) == Some((k, v)),
        setting_of(seq![' '] + (k + seq!['='] + v) + seq![' ']) == Some((k, v)),
        setting_of(k + seq!['='] + (seq!['"'] + v + seq!['"'])) == Some((k, v)),
        setting_of(k + seq!['='] + (seq!['\''] + v + seq!['\''])) == Some((k, v)),
        setting_of(k) is None,
        setting_of(seq!['#'] + comment) is None,
        setting_of(Seq::empty()) is None,
{
    let none = Seq::<char>::empty();
    reveal_strlit("=");
    assert("="@ =~= seq!['=']);
    lemma_bare_setting(k, v);
    lemma_bare_setting(k, seq!['"'] + v + seq!['"']);
    lemma_bare_setting(k, seq!['\''] + v + seq!['\'']);
    lemma_unquoted(v, '"');
    lemma_unquoted(v, '\'');
    lemma_unquoted(seq!['\''] + v + seq!['\''], '"');
    let l = k + seq!['='] + v;
    assert(text::trim_of(seq![' '] + l + seq![' ']) == text::trim_of(l)) by {
        assert(text::is_space_of(' '));
        if v.len() == 0 || !text::is_space_of(v.last()) {
            assert(l.last() == if v.len() == 0 {
                '='
            } else {
                v.last()
            });
        }
        text::trim_takes_only_space(seq![' '], l, seq![' ']);
        text::trim_takes_only_space(none, l, none);
        assert(none + l + none =~= l);
    }
    text::trim_takes_only_space(none, k, none);
    assert(none + k + none =~= k);
    text::split_once_cuts_at_one_place(k, '=', none);
    let c = seq!['#'] + comment;
    text::lemma_trim_start(c);
    text::lemma_trim_end(c);
    assert(c[0] == '#');
    assert(!text::is_space_of('#'));
    assert(text::trim_start_of(c) == c);
    lemma_trim_keeps_head(c);
}

proof fn lemma_trim_keeps_head(s: Seq<char>)
    requires
        s.len() > 0,
        !text::is_space_of(s[0]),
    ensures
        text::trim_of(s).len() > 0,
        text::trim_of(s)[0] == s[0],
    decreases s.len(),
{
    if text::is_space_of(s.last()) {
        assert(s.len() > 1);
        lemma_trim_keeps_head(s.drop_last());
    }
}

/// The setting in a line without white space around its parts, but for the
/// quotes.
proof fn lemma_bare_setting(k: Seq<char>, v: Seq<char>)
    requires
        k.len() > 0,
        !k.contains('='),
        k[0] != '#',
        !text::is_space_of(k[0]),
        !text::is_space_of(k.last()),
        v.len() > 0 ==> !text::is_space_of(v[0]) && !text::is_space_of(v.last()),
    ensures
        setting_of(k + seq!['='] + v) == Some(
            (k, text::trim_char_of(text::trim_char_of(v, '"'), '\'')),
        ),
{
    let none = Seq::<char>::empty();
    let l = k + seq!['='] + v;
    reveal_strlit("=");
    assert("="@ =~= seq!['=']);
    assert(l.last() == if v.len() == 0 {
        '='
    } else {
        v.last()
    });
    text::trim_takes_only_space(none, l, none);
    assert(none + l + none =~= l);
    text::split_once_cuts_at_one_place(k, '=', v);
    text::trim_takes_only_space(none, k, none);
    assert(none + k + none =~= k);
    text::trim_takes_only_space(none, v, none);
    assert(none + v + none =~= v);
}

proof fn lemma_unquoted(v: Seq<char>, c: char)
    requires
        v.len() > 0 ==> v[0] != c && v.last() != c,
    ensures
        text::trim_char_of(v, c) == v,
        text::trim_char_of(seq![c] + v + seq![c], c) == v,
{
    let q = seq![c] + v + seq![c];
    assert(q.skip(1) =~= v + seq![c]);
    if v.len() == 0 {
        assert(v + seq![c] =~= seq![c]);
        assert(seq![c].skip(1) =~= v);
        assert(text::trim_start_char_of(seq![c], c) == text::trim_start_char_of(v, c));
        assert(text::trim_start_char_of(q, c) == text::trim_start_char_of(q.skip(1), c));
        assert(text::trim_start_char_of(q, c) =~= v);
    } else {
        assert((v + seq![c])[0] == v[0]);
        assert(text::trim_start_char_of(q.skip(1), c) == q.skip(1));
        assert(text::trim_start_char_of(q, c) == v + seq![c]);
        assert((v + seq![c]).drop_last() =~= v);
    }
}

/// The settings in lines.
pub open spec fn settings_of(ls: Seq<Seq<char>>) -> Seq<(Seq<char>, Seq<char>)>
    decreases ls.len(),
{
    if ls.len() == 0 {
        Seq::empty()
    } else {
        match setting_of(ls.last()) {
            Some(s) => settings_of(ls.drop_last()).push(s),
            None => settings_of(ls.drop_last()),
        }
    }
}

/// Each line is read by itself, behind those before it: one that holds a setting
/// gives it, and one that does not changes nothing.
pub proof fn lines_are_read_one_by_one(ls: Seq<Seq<char>>, line: Seq<char>)
    ensures
        settings_of(ls.push(line)) == match setting_of(line) {
            Some(s) => settings_of(ls).push(s),
            None => settings_of(ls),
        },
        settings_of(Seq::empty()).len() == 0,
{
    assert(ls.push(line).drop_last() =~= ls);
}

/// The value of a setting: the last one that has the name.
pub open spec fn value_of(env: Seq<(Seq<char>, Seq<char>)>, name: Seq<char>) -> Option<Seq<char>>
    decreases env.len(),
{
    if env.len() == 0 {
        None
    } else if env.last().0 == name {
        Some(env.last().1)
    } else {
        value_of(env.drop_last(), name)
    }
}

/// The names and values of settings.
pub open spec fn pair_views(v: Seq<(String, String)>) -> Seq<(Seq<char>, Seq<char>)> {
    v.map_values(|p: (String, String)| (p.0@, p.1@))
}

fn setting(line: &[char]) -> (r: Option<(String, String)>)
    ensures
        match r {
            Some((k, v)) => setting_of(line@) == Some((k@, v@)),
            None => setting_of(line@) is None,
        },
{
    let l = trim(line);
    if l.len() == 0 || l[0] == '#' {
        return None;
    }
    let eq = chars_of("=");
    match split_once(l, eq.as_slice()) {
        Some((k, v)) => Some(
            (string_of(trim(k)), string_of(trim_char(trim_char(trim(v), '"'), '\''))),
        ),
        None => None,
    }
}

/// The settings in the text of a file, none where there is no file.
pub fn read_env(source: Option<&str>) -> (r: Vec<(String, String)>)
    ensures
        pair_views(r@) == match source {
            Some(s) => settings_of(text::lines_of(s@)),
            None => Seq::empty(),
        },
{
    let mut out: Vec<(String, String)> = Vec::new();
    assert(pair_views(out@) =~= Seq::empty());
    let source = match source {
        Some(s) => s,
        None => {
            return out;
        },
    };
    let chars = chars_of(source);
    let ls = lines(chars.as_slice());
    let ghost all = text::lines_of(source@);
    let mut i: usize = 0;
    assert(all.take(0) =~= Seq::empty());
    while i < ls.len()
        invariant
            i <= ls@.len(),
            text::views(ls@) == all,
            pair_views(out@) == settings_of(all.take(i as int)),
        decreases ls.len() - i,
    {
        let ghost was = pair_views(out@);
        assert(all[i as int] == ls@[i as int]@);
        assert(all.take(i + 1).drop_last() =~= all.take(i as int));
        if let Some(p) = setting(ls[i]) {
            out.push(p);
            assert(pair_views(out@) =~= was.push((p.0@, p.1@)));
        }
        i = i + 1;
    }
    assert(all.take(all.len() as int) =~= all);
    out
}

/// The value of a setting.
pub fn value<'a>(env: &'a Vec<(String, String)>, name: &str) -> (r: Option<&'a str>)
    ensures
        text::opt_str(r) == value_of(pair_views(env@), name@),
{
    let ghost all = pair_views(env@);
    let mut n: usize = env.len();
    assert(all.take(n as int) =~= all);
    while n > 0
        invariant
            n <= env@.len(),
            all == pair_views(env@),
            value_of(all, name@) == value_of(all.take(n as int), name@),
        decreases n,
    {
        assert(all.take(n as int).last() == (env@[n - 1].0@, env@[n - 1].1@));
        assert(all.take(n as int).drop_last() =~= all.take(n - 1));
        if same_str(env[n - 1].0.as_str(), name) {
            return Some(env[n - 1].1.as_str());
        }
        n = n - 1;
    }
    None
}

/// A later line with the same name is the one that counts.
pub proof fn last_setting_counts(
    env: Seq<(Seq<char>, Seq<char>)>,
    name: Seq<char>,
    v: Seq<char>,
    other: Seq<char>,
)
    ensures
        value_of(env.push((name, v)), other) == if other == name {
            Some(v)
        } else {
            value_of(env, other)
        },
{
    assert(env.push((name, v)).drop_last() =~= env);
}

// ---------------------------------------------------------------------------
// The request
// ---------------------------------------------------------------------------

/// One message of the conversation.
pub open spec fn message_of(role: Seq<char>, content: Seq<char>) -> Tree {
    Tree::Object(
        json::object_of(seq![("role"@, Tree::Text(role)), ("content"@, Tree::Text(content))]),
    )
}

pub open spec fn role_of(is_user: bool) -> Seq<char> {
    if is_user {
        "user"@
    } else {
        "assistant"@
    }
}

/// The messages of a conversation.
pub open spec fn turns_of(history: Seq<(bool, Seq<char>)>) -> Seq<Tree> {
    history.map_values(|h: (bool, Seq<char>)| message_of(role_of(h.0), h.1))
}

/// The messages: what the assistant is told first, where that is something, and
/// then the conversation.
pub open spec fn messages_of(system: Seq<char>, history: Seq<(bool, Seq<char>)>) -> Seq<Tree> {
    let rest = turns_of(history);
    if text::trim_of(system).len() == 0 {
        rest
    } else {
        seq![message_of("system"@, text::trim_of(system))] + rest
    }
}

/// What is sent.
pub open spec fn payload_of(
    model: Seq<char>,
    system: Seq<char>,
    history: Seq<(bool, Seq<char>)>,
) -> Tree {
    Tree::Object(
        json::object_of(
            seq![
                ("model"@, Tree::Text(model)),
                ("messages"@, Tree::List(messages_of(system, history))),
                ("stream"@, Tree::Bool(false)),
            ],
        ),
    )
}

/// A document that can be written and read.
pub open spec fn plain(t: Tree, depth: nat) -> bool {
    json::proper(t) && json::whole(t) && json::nested(t, depth)
}

proof fn lemma_message(role: Seq<char>, content: Seq<char>)
    ensures
        plain(message_of(role, content), 98),
{
    let pairs = seq![("role"@, Tree::Text(role)), ("content"@, Tree::Text(content))];
    assert forall|i: int| 0 <= i < pairs.len() implies json::proper((#[trigger] pairs[i]).1)
        && json::whole(pairs[i].1) && json::nested(pairs[i].1, 97) by {}
    json::object_is_proper(pairs);
    json::object_is_whole(pairs, 98);
}

fn message(role: &str, content: &str) -> (r: Json)
    ensures
        r@ == message_of(role@, content@),
        plain(r@, 98),
{
    let mut pairs: Vec<(String, Json)> = Vec::new();
    pairs.push(("role".to_owned(), Json::Text(role.to_owned())));
    pairs.push(("content".to_owned(), Json::Text(content.to_owned())));
    assert(json::entries(pairs@) =~= seq![
        ("role"@, Tree::Text(role@)),
        ("content"@, Tree::Text(content@)),
    ]);
    proof {
        lemma_message(role@, content@);
    }
    json::object(pairs)
}

/// What is sent can be read by the other side.
pub proof fn payload_is_plain(
    model: Seq<char>,
    system: Seq<char>,
    history: Seq<(bool, Seq<char>)>,
)
    ensures
        plain(payload_of(model, system, history), 100),
{
    let ms = messages_of(system, history);
    assert forall|i: int| 0 <= i < ms.len() implies json::proper(#[trigger] ms[i]) && json::whole(
        ms[i],
    ) && json::nested(ms[i], 98) by {
        if text::trim_of(system).len() == 0 {
            lemma_message(role_of(history[i].0), history[i].1);
        } else if i == 0 {
            lemma_message("system"@, text::trim_of(system));
        } else {
            lemma_message(role_of(history[i - 1].0), history[i - 1].1);
        }
    }
    let list = Tree::List(ms);
    assert(json::proper(list) && json::whole(list) && json::nested(list, 99));
    let pairs = seq![
        ("model"@, Tree::Text(model)),
        ("messages"@, list),
        ("stream"@, Tree::Bool(false)),
    ];
    assert forall|i: int| 0 <= i < pairs.len() implies json::proper((#[trigger] pairs[i]).1)
        && json::whole(pairs[i].1) && json::nested(pairs[i].1, 99) by {}
    json::object_is_proper(pairs);
    json::object_is_whole(pairs, 100);
}

/// What is sent: the model, the messages, and that the answer comes at once.
/// The other side reads exactly that.
pub fn payload(model: &str, system: &str, history: &Vec<(bool, String)>) -> (r: String)
    ensures
        r@ == json::written_of(payload_of(model@, system@, chat::history_views(history@))),
        json::document_of(r@) == Some(
            payload_of(model@, system@, chat::history_views(history@)),
        ),
{
    let ghost views = chat::history_views(history@);
    let first = trimmed(system);
    let mut messages: Vec<Json> = Vec::new();
    if chars_of(first.as_str()).len() > 0 {
        messages.push(message("system", first.as_str()));
    }
    let ghost head = json::trees(messages@);
    let mut i: usize = 0;
    assert(json::trees(messages@) =~= head + turns_of(views.take(0)));
    while i < history.len()
        invariant
            i <= history@.len(),
            views == chat::history_views(history@),
            json::trees(messages@) == head + turns_of(views.take(i as int)),
        decreases history.len() - i,
    {
        let ghost was = json::trees(messages@);
        let role = if history[i].0 {
            "user"
        } else {
            "assistant"
        };
        let m = message(role, history[i].1.as_str());
        assert(views[i as int] == (history@[i as int].0, history@[i as int].1@));
        messages.push(m);
        assert(json::trees(messages@) =~= was.push(m@));
        assert(json::trees(messages@) =~= head + turns_of(views.take(i + 1)));
        i = i + 1;
    }
    assert(views.take(views.len() as int) =~= views);
    assert(json::trees(messages@) =~= messages_of(system@, views));
    let list = Json::List(messages);
    assert(list@->List_0 =~= json::trees(messages@));
    let mut pairs: Vec<(String, Json)> = Vec::new();
    pairs.push(("model".to_owned(), Json::Text(model.to_owned())));
    pairs.push(("messages".to_owned(), list));
    pairs.push(("stream".to_owned(), Json::Bool(false)));
    assert(json::entries(pairs@) =~= seq![
        ("model"@, Tree::Text(model@)),
        ("messages"@, Tree::List(messages_of(system@, views))),
        ("stream"@, Tree::Bool(false)),
    ]);
    proof {
        payload_is_plain(model@, system@, views);
    }
    json::write(&json::object(pairs))
}

/// The words of the command that asks, or why nothing can be asked: the key is
/// missing. `env` is the settings.
pub open spec fn request_of(
    p: Provider,
    env: Seq<(Seq<char>, Seq<char>)>,
    system: Seq<char>,
    history: Seq<(bool, Seq<char>)>,
) -> Result<Seq<Seq<char>>, Seq<char>> {
    let key = set_or(env, p.key_var_of(), Seq::empty());
    let base = set_or(env, p.base_var_of(), p.usual_base());
    let model = set_or(env, p.model_var_of(), p.usual_model());
    if key.len() == 0 || key == "EMPTY"@ {
        Err("нет "@ + p.key_var_of() + " в .env автопилота"@)
    } else {
        Ok(
            seq![
                "-sS"@,
                "-X"@,
                "POST"@,
                text::trim_end_char_of(base, '/') + "/chat/completions"@,
                "-H"@,
                "Content-Type: application/json"@,
                "-H"@,
                "Authorization: Bearer "@ + key,
                "-d"@,
                json::written_of(payload_of(model, system, history)),
            ],
        )
    }
}

/// A question goes to the provider that was chosen, with that provider's key,
/// where there is one; otherwise nothing is sent, and it is said which key is
/// missing. Without a setting of its own the address is the provider's.
pub proof fn question_goes_to_its_provider(
    env: Seq<(Seq<char>, Seq<char>)>,
    system: Seq<char>,
    history: Seq<(bool, Seq<char>)>,
)
    ensures
        ({
            let r = request_of(Provider::OpenAi, env, system, history);
            &&& r is Ok <==> (value_of(env, "OPENAI_API_KEY"@) matches Some(k) && k.len() > 0 && k
                != "EMPTY"@)
            &&& r matches Ok(args) ==> args.contains(
                "Authorization: Bearer "@ + value_of(env, "OPENAI_API_KEY"@)->Some_0,
            ) && (value_of(env, "OPENAI_BASE_URL"@) is None ==> args.contains(
                "https://api.openai.com/v1/chat/completions"@,
            )) && (value_of(env, "OPENAI_MODEL"@) is None ==> args.contains(
                json::written_of(payload_of("gpt-4o-mini"@, system, history)),
            ))
            &&& r matches Err(e) ==> text::contains_of(e, "OPENAI_API_KEY"@)
        }),
        ({
            let r = request_of(Provider::DeepSeek, env, system, history);
            &&& r is Ok <==> (value_of(env, "LLM_API_KEY"@) matches Some(k) && k.len() > 0 && k
                != "EMPTY"@)
            &&& r matches Ok(args) ==> args.contains(
                "Authorization: Bearer "@ + value_of(env, "LLM_API_KEY"@)->Some_0,
            ) && (value_of(env, "LLM_BASE_URL"@) is None ==> args.contains(
                "https://api.deepseek.com/v1/chat/completions"@,
            )) && (value_of(env, "LLM_MODEL"@) is None ==> args.contains(
                json::written_of(payload_of("deepseek-chat"@, system, history)),
            ))
            &&& r matches Err(e) ==> text::contains_of(e, "LLM_API_KEY"@)
        }),
{
    reveal_strlit("https://api.openai.com/v1");
    reveal_strlit("https://api.openai.com/v1/chat/completions");
    reveal_strlit("https://api.deepseek.com/v1");
    reveal_strlit("https://api.deepseek.com/v1/chat/completions");
    reveal_strlit("/chat/completions");
    assert("https://api.openai.com/v1"@ + "/chat/completions"@
        =~= "https://api.openai.com/v1/chat/completions"@);
    assert("https://api.deepseek.com/v1"@ + "/chat/completions"@
        =~= "https://api.deepseek.com/v1/chat/completions"@);
    lemma_request(Provider::OpenAi, env, system, history);
    lemma_request(Provider::DeepSeek, env, system, history);
}

proof fn lemma_request(
    p: Provider,
    env: Seq<(Seq<char>, Seq<char>)>,
    system: Seq<char>,
    history: Seq<(bool, Seq<char>)>,
)
    ensures
        ({
            let r = request_of(p, env, system, history);
            &&& r matches Ok(args) ==> args.contains(args[3]) && args.contains(args[7])
                && args.contains(args[9])
            &&& r matches Err(e) ==> text::contains_of(e, p.key_var_of())
        }),
{
    match request_of(p, env, system, history) {
        Err(e) => {
            reveal_strlit("нет ");
            let k = p.key_var_of();
            assert(e.subrange(4, 4 + k.len() as int) =~= k);
            assert(text::occurs_at(e, k, 4));
            text::lemma_find_from(e, k, 0);
        },
        Ok(_) => {},
    }
}

/// Settings of one provider do not touch the questions to the other, and an
/// address that was set is used, whether it ends in a slash or not.
pub proof fn settings_are_kept_apart(
    p: Provider,
    env: Seq<(Seq<char>, Seq<char>)>,
    v: Seq<char>,
    system: Seq<char>,
    history: Seq<(bool, Seq<char>)>,
)
    ensures
        request_of(p, env.push((p.toggled_of().key_var_of(), v)), system, history) == request_of(
            p,
            env,
            system,
            history,
        ),
        request_of(p, env.push((p.toggled_of().base_var_of(), v)), system, history) == request_of(
            p,
            env,
            system,
            history,
        ),
        request_of(p, env.push((p.toggled_of().model_var_of(), v)), system, history) == request_of(
            p,
            env,
            system,
            history,
        ),
        request_of(p, env.push((p.base_var_of(), v.push('/'))), system, history) == request_of(
            p,
            env.push((p.base_var_of(), v)),
            system,
            history,
        ),
        v.len() > 0 && v.last() != '/' ==> (request_of(
            p,
            env.push((p.base_var_of(), v)),
            system,
            history,
        ) matches Ok(args) ==> args.contains(v + "/chat/completions"@)),
{
    reveal_strlit("LLM_API_KEY");
    reveal_strlit("OPENAI_API_KEY");
    reveal_strlit("LLM_BASE_URL");
    reveal_strlit("OPENAI_BASE_URL");
    reveal_strlit("LLM_MODEL");
    reveal_strlit("OPENAI_MODEL");
    assert("LLM_API_KEY"@.len() == 11 && "OPENAI_API_KEY"@.len() == 14 && "LLM_BASE_URL"@.len()
        == 12 && "OPENAI_BASE_URL"@.len() == 15 && "LLM_MODEL"@.len() == 9 && "OPENAI_MODEL"@.len()
        == 12);
    assert("LLM_BASE_URL"@[0] == 'L' && "OPENAI_MODEL"@[0] == 'O');
    let q = p.toggled_of();
    let names = seq![q.key_var_of(), q.base_var_of(), q.model_var_of()];
    let mine = seq![p.key_var_of(), p.base_var_of(), p.model_var_of()];
    assert forall|i: int, j: int| 0 <= i < 3 && 0 <= j < 3 implies value_of(
        env.push((#[trigger] names[i], v)),
        #[trigger] mine[j],
    ) == value_of(env, mine[j]) by {
        last_setting_counts(env, names[i], v, mine[j]);
    }
    assert(names[0] == q.key_var_of() && names[1] == q.base_var_of() && names[2]
        == q.model_var_of());
    assert(mine[0] == p.key_var_of() && mine[1] == p.base_var_of() && mine[2] == p.model_var_of());
    let b = p.base_var_of();
    assert forall|u: Seq<char>, j: int| 0 <= j < 3 implies value_of(
        #[trigger] env.push((b, u)),
        #[trigger] mine[j],
    ) == if j == 1 {
        Some(u)
    } else {
        value_of(env, mine[j])
    } by {
        last_setting_counts(env, b, u, mine[j]);
    }
    assert(v.push('/').drop_last() =~= v);
    assert(text::trim_end_char_of(v.push('/'), '/') == text::trim_end_char_of(v, '/'));
    lemma_request(p, env.push((b, v)), system, history);
}

/// The whole conversation is sent, in its order, each turn as the user's or the
/// assistant's; what the assistant is told stands before it, where it is told
/// anything.
pub proof fn conversation_is_sent_whole(
    model: Seq<char>,
    system: Seq<char>,
    history: Seq<(bool, Seq<char>)>,
    i: int,
)
    requires
        0 <= i < history.len(),
    ensures
        ({
            let sent = payload_of(model, system, history);
            let told = text::trim_of(system).len() > 0;
            let at = if told {
                i + 1
            } else {
                i
            };
            &&& json::text_field_of(sent, "model"@) == Some(model)
            &&& json::field_of(sent, "stream"@) == Some(Tree::Bool(false))
            &&& json::field_of(sent, "messages"@) matches Some(Tree::List(ms)) && ms.len()
                == history.len() + if told {
                1int
            } else {
                0
            } && json::text_field_of(ms[at], "content"@) == Some(history[i].1)
                && json::text_field_of(ms[at], "role"@) == Some(
                if history[i].0 {
                    "user"@
                } else {
                    "assistant"@
                },
            ) && (told ==> json::text_field_of(ms[0], "role"@) == Some("system"@)
                && json::text_field_of(ms[0], "content"@) == Some(text::trim_of(system)))
        }),
{
    reveal_strlit("model");
    reveal_strlit("messages");
    reveal_strlit("stream");
    assert("model"@.len() == 5 && "messages"@.len() == 8 && "stream"@.len() == 6);
    let none = Seq::<(Seq<char>, Tree)>::empty();
    let list = Tree::List(messages_of(system, history));
    let a = none.push(("model"@, Tree::Text(model)));
    let b = a.push(("messages"@, list));
    let c = b.push(("stream"@, Tree::Bool(false)));
    assert(c =~= seq![
        ("model"@, Tree::Text(model)),
        ("messages"@, list),
        ("stream"@, Tree::Bool(false)),
    ]);
    let keys = seq!["model"@, "messages"@, "stream"@];
    assert forall|j: int| 0 <= j < 3 implies json::lookup(
        json::object_of(c),
        #[trigger] keys[j],
    ) == Some(c[j].1) by {
        json::last_pair_counts(none, "model"@, Tree::Text(model), keys[j]);
        json::last_pair_counts(a, "messages"@, list, keys[j]);
        json::last_pair_counts(b, "stream"@, Tree::Bool(false), keys[j]);
    }
    assert(keys[0] == "model"@ && keys[1] == "messages"@ && keys[2] == "stream"@);
    lemma_message_fields(role_of(history[i].0), history[i].1);
    lemma_message_fields("system"@, text::trim_of(system));
    assert(turns_of(history)[i] == message_of(role_of(history[i].0), history[i].1));
}

proof fn lemma_message_fields(role: Seq<char>, content: Seq<char>)
    ensures
        json::text_field_of(message_of(role, content), "role"@) == Some(role),
        json::text_field_of(message_of(role, content), "content"@) == Some(content),
{
    reveal_strlit("role");
    reveal_strlit("content");
    assert("role"@.len() == 4 && "content"@.len() == 7);
    let none = Seq::<(Seq<char>, Tree)>::empty();
    let a = none.push(("role"@, Tree::Text(role)));
    assert(a.push(("content"@, Tree::Text(content))) =~= seq![
        ("role"@, Tree::Text(role)),
        ("content"@, Tree::Text(content)),
    ]);
    json::last_pair_counts(none, "role"@, Tree::Text(role), "role"@);
    json::last_pair_counts(a, "content"@, Tree::Text(content), "role"@);
    json::last_pair_counts(a, "content"@, Tree::Text(content), "content"@);
}

/// A setting, or the other text where it is not set.
pub open spec fn set_or(
    env: Seq<(Seq<char>, Seq<char>)>,
    name: Seq<char>,
    other: Seq<char>,
) -> Seq<char> {
    match value_of(env, name) {
        Some(v) => v,
        None => other,
    }
}

fn value_or<'a>(env: &'a Vec<(String, String)>, name: &str, other: &'a str) -> (r: &'a str)
    ensures
        r@ == set_or(pair_views(env@), name@, other@),
{
    match value(env, name) {
        Some(v) => v,
        None => other,
    }
}

/// The words of the command that asks, or why nothing can be asked.
pub fn request(
    p: Provider,
    env: &Vec<(String, String)>,
    system: &str,
    history: &Vec<(bool, String)>,
) -> (r: Result<Vec<String>, String>)
    ensures
        match r {
            Ok(args) => request_of(
                p,
                pair_views(env@),
                system@,
                chat::history_views(history@),
            ) == Ok::<Seq<Seq<char>>, Seq<char>>(text::texts(args@)),
            Err(e) => request_of(
                p,
                pair_views(env@),
                system@,
                chat::history_views(history@),
            ) == Err::<Seq<Seq<char>>, Seq<char>>(e@),
        },
{
    let s = p.service();
    let key = value_or(env, s.key_var, "");
    proof {
        reveal_strlit("");
        assert(""@ =~= Seq::empty());
    }
    if chars_of(key).len() == 0 || same_str(key, "EMPTY") {
        return Err(cat3("нет ", s.key_var, " в .env автопилота"));
    }
    let base = chars_of(value_or(env, s.base_var, s.base));
    let model = value_or(env, s.model_var, s.model);
    let url = cat(string_of(trim_end_char(base.as_slice(), '/')).as_str(), "/chat/completions");
    let mut args: Vec<String> = Vec::new();
    assert(text::texts(args@) =~= Seq::empty());
    push_to(&mut args, "-sS");
    push_to(&mut args, "-X");
    push_to(&mut args, "POST");
    push_to(&mut args, url.as_str());
    push_to(&mut args, "-H");
    push_to(&mut args, "Content-Type: application/json");
    push_to(&mut args, "-H");
    push_to(&mut args, cat("Authorization: Bearer ", key).as_str());
    push_to(&mut args, "-d");
    push_to(&mut args, payload(model, system, history).as_str());
    assert(text::texts(args@) =~= request_of(
        p,
        pair_views(env@),
        system@,
        chat::history_views(history@),
    )->Ok_0);
    Ok(args)
}

// ---------------------------------------------------------------------------
// The answer
// ---------------------------------------------------------------------------

/// The document in bytes, where they hold one.
pub open spec fn document_in(bytes: Seq<u8>) -> Option<Tree> {
    if vstd::utf8::valid_utf8(bytes) {
        json::document_of(vstd::utf8::decode_utf8(bytes))
    } else {
        None
    }
}

/// What the provider says went wrong.
pub open spec fn fault_of(body: Tree) -> Option<Seq<char>> {
    match json::field_of(body, "error"@) {
        Some(e) => json::text_field_of(e, "message"@),
        None => None,
    }
}

/// The first of the answers.
pub open spec fn content_of(body: Tree) -> Option<Seq<char>> {
    match json::field_of(body, "choices"@) {
        Some(Tree::List(v)) if v.len() > 0 => match json::field_of(v[0], "message"@) {
            Some(m) => json::text_field_of(m, "content"@),
            None => None,
        },
        _ => None,
    }
}

/// What comes of a reply that is a document.
pub open spec fn reply_of(p: Provider, body: Tree) -> Result<Seq<char>, Seq<char>> {
    match (fault_of(body), content_of(body)) {
        (Some(msg), _) => Err(p.name_of() + ": "@ + msg),
        (None, Some(c)) if text::trim_of(c).len() > 0 => Ok(text::trim_of(c)),
        _ => Err("пустой ответ "@ + p.name_of()),
    }
}

/// The start of a text.
pub open spec fn head_of(s: Seq<char>) -> Seq<char> {
    if s.len() > HEAD_CHARS {
        s.take(HEAD_CHARS as int)
    } else {
        s
    }
}

/// What comes of the command that asked: `document` is the document in what it
/// printed.
pub open spec fn answer_of(
    p: Provider,
    success: bool,
    printed: Seq<char>,
    document: Option<Tree>,
    failed: Seq<char>,
) -> Result<Seq<char>, Seq<char>> {
    if !success {
        Err("curl: "@ + text::trim_of(failed))
    } else {
        match document {
            Some(body) => reply_of(p, body),
            None => Err("ответ не JSON: "@ + head_of(printed)),
        }
    }
}

/// An answer is shown only where the command went well, the provider complained
/// of nothing and answered with more than white space; it is what the provider
/// said, without the white space around it. A complaint is shown with the name of
/// the provider.
pub proof fn only_an_answer_is_shown(
    p: Provider,
    success: bool,
    printed: Seq<char>,
    document: Option<Tree>,
    failed: Seq<char>,
)
    ensures
        ({
            let r = answer_of(p, success, printed, document, failed);
            &&& r matches Ok(t) ==> success && document is Some && t.len() > 0 && text::trim_of(t)
                == t && fault_of(document->Some_0) is None && content_of(document->Some_0) is Some
                && t == text::trim_of(content_of(document->Some_0)->Some_0)
            &&& success && document is Some && fault_of(document->Some_0) is None && (content_of(
                document->Some_0,
            ) matches Some(c) && text::trim_of(c).len() > 0) ==> r is Ok
            &&& !success ==> (r matches Err(e) && text::starts_of(e, "curl: "@))
            &&& success && document is None ==> (r matches Err(e) && text::starts_of(
                e,
                "ответ не JSON: "@,
            ) && e.len() <= 15 + 200)
            &&& success && document is Some && (fault_of(document->Some_0) matches Some(msg)) ==> (
            r matches Err(e) && text::starts_of(e, p.name_of()) && text::ends_of(
                e,
                fault_of(document->Some_0)->Some_0,
            ))
        }),
{
    reveal_strlit("curl: ");
    reveal_strlit("ответ не JSON: ");
    let r = answer_of(p, success, printed, document, failed);
    if success && document is Some {
        let body = document->Some_0;
        match content_of(body) {
            Some(c) => {
                text::trim_is_idempotent(c);
            },
            None => {},
        }
        if fault_of(body) is Some {
            let msg = fault_of(body)->Some_0;
            let e = p.name_of() + ": "@ + msg;
            assert(e.subrange(0, p.name_of().len() as int) =~= p.name_of());
            assert(e.subrange(e.len() - msg.len(), e.len() as int) =~= msg);
        }
    } else if !success {
        let e = "curl: "@ + text::trim_of(failed);
        assert(e.subrange(0, 6) =~= "curl: "@);
    } else {
        let e = "ответ не JSON: "@ + head_of(printed);
        assert(e.subrange(0, 15) =~= "ответ не JSON: "@);
    }
}

/// A result over texts.
pub open spec fn result_view(r: Result<String, String>) -> Result<Seq<char>, Seq<char>> {
    match r {
        Ok(s) => Ok(s@),
        Err(e) => Err(e@),
    }
}

fn fault(body: &Json) -> (r: Option<&str>)
    ensures
        text::opt_str(r) == fault_of(body@),
{
    match body.get("error") {
        Some(e) => e.text_field("message"),
        None => None,
    }
}

fn content(body: &Json) -> (r: Option<&str>)
    ensures
        text::opt_str(r) == content_of(body@),
{
    match body.get("choices") {
        Some(Json::List(v)) => {
            let ghost all = Json::List(*v)@;
            assert(all->List_0 =~= json::trees(v@));
            if v.len() == 0 {
                return None;
            }
            assert(all->List_0[0] == v@[0]@);
            match v[0].get("message") {
                Some(m) => m.text_field("content"),
                None => None,
            }
        },
        _ => None,
    }
}

/// What comes of a reply that is a document: its answer without the white space
/// around it, or what went wrong.
pub fn reply(p: Provider, body: &Json) -> (r: Result<String, String>)
    ensures
        result_view(r) == reply_of(p, body@),
{
    let name = p.service().name;
    if let Some(msg) = fault(body) {
        return Err(cat3(name, ": ", msg));
    }
    if let Some(c) = content(body) {
        let t = trimmed(c);
        if chars_of(t.as_str()).len() > 0 {
            return Ok(t);
        }
    }
    Err(cat("пустой ответ ", name))
}

/// What comes of the command that asked, from whether it went well and what it
/// printed.
pub fn answer(p: Provider, success: bool, stdout: &[u8], stderr: &[u8]) -> (r: Result<
    String,
    String,
>)
    ensures
        result_view(r) == answer_of(
            p,
            success,
            text::lossy_of(stdout@),
            document_in(stdout@),
            text::lossy_of(stderr@),
        ),
{
    if !success {
        return Err(cat("curl: ", trimmed(lossy(stderr).as_str()).as_str()));
    }
    if let Some(t) = utf8_text(stdout) {
        if let Some(body) = json::read(t.as_str()) {
            return reply(p, &body);
        }
    }
    let chars = chars_of(lossy(stdout).as_str());
    let n: usize = if chars.len() > HEAD_CHARS {
        HEAD_CHARS
    } else {
        chars.len()
    };
    let head = slice_subrange(chars.as_slice(), 0, n);
    assert(head@ =~= head_of(chars@));
    Err(cat("ответ не JSON: ", string_of(head).as_str()))
}

} // verus!
