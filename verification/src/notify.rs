//! Configuration and messages of the notifications sent when a coding-agent
//! turn completes: the ntfy endpoint taken from the environment and the
//! text handed to the desktop notifiers.
use vstd::prelude::*;
use crate::text::{
    parse_u64, parse_uint_spec, push_char, slash_segments, split_slash_segments, trim, trim_str,
};

verus! {

/// The first of the looked-up values that is not blank, trimmed.
pub open spec fn first_set(values: Seq<Option<Seq<char>>>) -> Option<Seq<char>>
    decreases values.len(),
{
    if values.len() == 0 {
        None
    } else {
        match values[0] {
            Some(v) => if trim(v).len() > 0 {
                Some(trim(v))
            } else {
                first_set(values.drop_first())
            },
            None => first_set(values.drop_first()),
        }
    }
}

/// Optional texts as plain values.
pub open spec fn opt_texts(xs: Seq<Option<String>>) -> Seq<Option<Seq<char>>> {
    xs.map_values(|x: Option<String>| match x {
        Some(s) => Some(s@),
        None => None,
    })
}

/// An optional text as a plain value.
pub open spec fn opt_text(x: Option<String>) -> Option<Seq<char>> {
    match x {
        Some(s) => Some(s@),
        None => None,
    }
}

/// The value of the first of several environment variables that is set
/// and not blank, trimmed; `values` holds what each lookup gave, in the
/// order of the variables.
pub fn env_first(values: &Vec<Option<String>>) -> (r: Option<String>)
    ensures
        opt_text(r) == first_set(opt_texts(values@)),
{
    let ghost v = opt_texts(values@);
    let mut i: usize = 0;
    proof {
        assert(v.subrange(0, v.len() as int) =~= v);
    }
    while i < values.len()
        invariant
            i <= values@.len(),
            v == opt_texts(values@),
            first_set(v) == first_set(v.subrange(i as int, v.len() as int)),
        decreases values@.len() - i,
    {
        proof {
            let t = v.subrange(i as int, v.len() as int);
            assert(t.drop_first() =~= v.subrange(i + 1, v.len() as int));
            assert(t[0] == v[i as int]);
        }
        match &values[i] {
            Some(value) => {
                let t = trim_str(value.as_str());
                if t.unicode_len() > 0 {
                    return Some(String::from_str(t));
                }
            },
            None => {},
        }
        i = i + 1;
    }
    None
}

/// What the `url` crate gives for a base URL with path segments appended:
/// the serialized URL, or nothing where the base does not parse or cannot
/// be a base.
pub uninterp spec fn url_with_segments(base: Seq<char>, segments: Seq<Seq<char>>) -> Option<Seq<char>>;

/// `Url::parse(base)`, then on its path segments `pop_if_empty` and
/// `extend(segments)`, serialized. What the crate makes of the text is left
/// to the name `url_with_segments`.
#[verifier::external_body]
fn join_url_segments(base: &str, segments: &Vec<String>) -> (r: Option<String>)
    ensures
        opt_text(r) == url_with_segments(base@, segments@.map_values(|s: String| s@)),
{
    let mut url = url::Url::parse(base).ok()?;
    url.path_segments_mut().ok()?.pop_if_empty().extend(segments.iter());
    Some(url.to_string())
}

/// The URL turn notifications are published to: the base URL, trimmed,
/// with its trailing empty segment dropped and the topic's segments
/// appended.
pub fn build_ntfy_publish_url(base_url: &str, topic: &str) -> (r: Option<String>)
    ensures
        opt_text(r) == url_with_segments(trim(base_url@), slash_segments(topic@)),
{
    let segments = split_slash_segments(topic);
    join_url_segments(trim_str(base_url), &segments)
}

/// How long a publication may take: the configured number of seconds where
/// it is a positive integer, else four.
pub open spec fn timeout_spec(value: Option<Seq<char>>) -> u64 {
    match value {
        Some(v) => match parse_uint_spec(v, u64::MAX as int) {
            Some(n) => if n > 0 {
                n as u64
            } else {
                4
            },
            None => 4,
        },
        None => 4,
    }
}

/// The publication timeout in seconds, as [`timeout_spec`] says.
pub fn ntfy_timeout_secs(value: &Option<String>) -> (r: u64)
    ensures
        r == timeout_spec(opt_text(*value)),
{
    match value {
        Some(v) => match parse_u64(v.as_str()) {
            Some(n) => if n > 0 {
                n
            } else {
                4
            },
            None => 4,
        },
        None => 4,
    }
}

/// The environment variables the ntfy configuration reads, as looked up.
pub struct NtfyEnv {
    /// `VK_TURN_COMPLETION_NTFY_URL`.
    pub turn_url: Option<String>,
    /// `VK_NTFY_URL`.
    pub url: Option<String>,
    /// `VK_TURN_COMPLETION_NTFY_TOPIC`.
    pub turn_topic: Option<String>,
    /// `VK_NTFY_TOPIC`.
    pub topic: Option<String>,
    /// `VK_TURN_COMPLETION_NTFY_TOKEN`.
    pub turn_token: Option<String>,
    /// `VK_NTFY_TOKEN`.
    pub token: Option<String>,
    /// `VK_TURN_COMPLETION_NTFY_TIMEOUT_SECS`.
    pub turn_timeout_secs: Option<String>,
}

/// Where and how turn completions are published.
pub struct NtfyTurnCompletionConfig {
    pub publish_url: String,
    pub token: Option<String>,
    pub timeout_secs: u64,
}

/// The first set value of a turn-specific and a generic variable.
pub open spec fn pick(turn: Option<String>, generic: Option<String>) -> Option<Seq<char>> {
    first_set(seq![opt_text(turn), opt_text(generic)])
}

fn pick_exec(turn: &Option<String>, generic: &Option<String>) -> (r: Option<String>)
    ensures
        opt_text(r) == pick(*turn, *generic),
{
    let mut v: Vec<Option<String>> = Vec::new();
    v.push(match turn {
        Some(s) => Some(s.clone()),
        None => None,
    });
    v.push(match generic {
        Some(s) => Some(s.clone()),
        None => None,
    });
    proof {
        assert(opt_texts(v@) =~= seq![opt_text(*turn), opt_text(*generic)]);
    }
    env_first(&v)
}

impl NtfyTurnCompletionConfig {
    /// The configuration the environment gives: a URL and a topic are
    /// needed (the turn-specific variables first, then the generic ones),
    /// the token is optional, the timeout (read like the others, trimmed)
    /// defaults to four seconds, and the URL must be usable.
    pub fn from_lookup(env: &NtfyEnv) -> (r: Option<NtfyTurnCompletionConfig>)
        ensures
            match (pick(env.turn_url, env.url), pick(env.turn_topic, env.topic)) {
                (Some(u), Some(t)) => match url_with_segments(trim(u), slash_segments(t)) {
                    Some(p) => r matches Some(c) && c.publish_url@ == p && opt_text(c.token) == pick(
                        env.turn_token,
                        env.token,
                    ) && c.timeout_secs == timeout_spec(first_set(seq![opt_text(env.turn_timeout_secs)])),
                    None => r is None,
                },
                _ => r is None,
            },
    {
        let url = match pick_exec(&env.turn_url, &env.url) {
            Some(u) => u,
            None => {
                return None;
            },
        };
        let topic = match pick_exec(&env.turn_topic, &env.topic) {
            Some(t) => t,
            None => {
                return None;
            },
        };
        let token = pick_exec(&env.turn_token, &env.token);
        let mut timeout_values: Vec<Option<String>> = Vec::new();
        timeout_values.push(
            match &env.turn_timeout_secs {
                Some(s) => Some(s.clone()),
                None => None,
            },
        );
        proof {
            assert(opt_texts(timeout_values@) =~= seq![opt_text(env.turn_timeout_secs)]);
        }
        let timeout_secs = ntfy_timeout_secs(&env_first(&timeout_values));
        match build_ntfy_publish_url(url.as_str(), topic.as_str()) {
            Some(publish_url) => Some(NtfyTurnCompletionConfig { publish_url, token, timeout_secs }),
            None => None,
        }
    }
}

/// The authorization header of a publication: `Bearer <token>`.
pub fn bearer_header(token: &str) -> (r: String)
    ensures
        r@ == "Bearer "@ + token@,
{
    "Bearer ".to_string().concat(token)
}

/// `s` with each `"` escaped by a backslash, for an AppleScript string.
pub open spec fn quote_escaped(s: Seq<char>) -> Seq<char>
    decreases s.len(),
{
    if s.len() == 0 {
        s
    } else if s.last() == '"' {
        quote_escaped(s.drop_last()) + seq!['\\', '"']
    } else {
        quote_escaped(s.drop_last()).push(s.last())
    }
}

fn escape_quotes(s: &str) -> (r: String)
    ensures
        r@ == quote_escaped(s@),
{
    let s_cs = crate::text::chars_of(s);
    let n = s_cs.len();
    let mut out = String::new();
    let mut i: usize = 0;
    while i < n
        invariant
            s_cs@ == s@,
            n == s@.len(),
            i <= n,
            out@ == quote_escaped(s@.subrange(0, i as int)),
        decreases n - i,
    {
        let c = s_cs[i];
        proof {
            let t = s@.subrange(0, i + 1);
            assert(t.drop_last() =~= s@.subrange(0, i as int));
        }
        let ghost before = out@;
        if c == '"' {
            push_char(&mut out, '\\');
        }
        push_char(&mut out, c);
        proof {
            if c == '"' {
                assert(out@ =~= before + seq!['\\', '"']);
            }
        }
        i = i + 1;
    }
    proof {
        assert(s@.subrange(0, n as int) =~= s@);
    }
    out
}

/// The AppleScript that shows a macOS notification with the Glass sound.
pub open spec fn macos_script_spec(title: Seq<char>, message: Seq<char>) -> Seq<char> {
    "display notification \""@ + quote_escaped(message) + "\" with title \""@ + quote_escaped(title)
        + "\" sound name \"Glass\""@
}

/// The AppleScript of a macOS notification, as [`macos_script_spec`] says.
pub fn macos_notification_script(title: &str, message: &str) -> (r: String)
    ensures
        r@ == macos_script_spec(title@, message@),
{
    let m = escape_quotes(message);
    let t = escape_quotes(title);
    "display notification \"".to_string().concat(m.as_str()).concat("\" with title \"").concat(t.as_str()).concat(
        "\" sound name \"Glass\"",
    )
}

/// The Windows path of a WSL path: a relative path as it is; an absolute
/// one behind the WSL root where that is known.
pub fn wsl_to_windows_path(path: &str, wsl_root: Option<&str>) -> (r: Option<String>)
    ensures
        !(path@.len() > 0 && path@[0] == '/') ==> opt_text(r) == Some(path@),
        path@.len() > 0 && path@[0] == '/' ==> opt_text(r) == match wsl_root {
            Some(root) => Some(root@ + path@),
            None => None,
        },
{
    if !(path.unicode_len() > 0 && path.get_char(0) == '/') {
        return Some(String::from_str(path));
    }
    match wsl_root {
        Some(root) => Some(root.to_string().concat(path)),
        None => None,
    }
}

} // verus!
