//! The configuration, read from environment variables.

use std::collections::HashMap;

use vstd::prelude::*;

use crate::clock;
use crate::clock::Duration;
use crate::text;
use crate::text::{chars_of, parse_i64, parse_u64, trim};

verus! {

broadcast use vstd::string::group_string_axioms;

pub const DEFAULT_TARGET_URL: &'static str = "https://www.sbtix.de/catalog/tickets/98430-tickets-summer-breeze-2027-summer-breeze-open-air-dinkelsbuehl-am-18-08-2027";

pub const DEFAULT_USER_AGENT: &'static str = "Mozilla/5.0 (Macintosh; Intel Mac OS X 10_15_7) AppleWebKit/537.36 (KHTML, like Gecko) Chrome/126.0 Safari/537.36";

pub const DEFAULT_POLL_SECS: u64 = 60;

pub const TOKEN: &'static str = "TELOXIDE_TOKEN";

pub const CHAT_ID: &'static str = "TELEGRAM_CHAT_ID";

pub const DISCOVERY: &'static str = "SB_WATCHER_DISCOVERY";

pub const NTFY_TOPIC: &'static str = "NTFY_TOPIC";

pub const POLL_INTERVAL: &'static str = "POLL_INTERVAL_SECS";

pub const TARGET_URL: &'static str = "TARGET_URL";

pub const USER_AGENT: &'static str = "USER_AGENT";

pub const FIXTURE_PATH: &'static str = "SB_WATCHER_FIXTURE_PATH";

#[derive(Debug, Clone)]
pub struct Config {
    pub telegram_token: String,
    pub chat_id: Option<i64>,
    pub discovery: bool,
    pub ntfy_topic: Option<String>,
    pub poll_interval: Duration,
    pub target_url: String,
    pub user_agent: String,
    pub fixture_path: Option<String>,
}

/// What a configuration says.
#[verifier::ext_equal]
pub struct Settings {
    pub telegram_token: Seq<char>,
    pub chat_id: Option<i64>,
    pub discovery: bool,
    pub ntfy_topic: Option<Seq<char>>,
    pub poll_interval: int,
    pub target_url: Seq<char>,
    pub user_agent: Seq<char>,
    pub fixture_path: Option<Seq<char>>,
}

impl View for Config {
    type V = Settings;

    open spec fn view(&self) -> Settings {
        Settings {
            telegram_token: self.telegram_token@,
            chat_id: self.chat_id,
            discovery: self.discovery,
            ntfy_topic: text::optional_text(self.ntfy_topic),
            poll_interval: self.poll_interval@,
            target_url: self.target_url@,
            user_agent: self.user_agent@,
            fixture_path: text::optional_text(self.fixture_path),
        }
    }
}

/// Why the program cannot start.
#[derive(Debug, Clone, PartialEq, Eq)]
pub enum ConfigError {
    /// No bot token.
    MissingToken,
    /// A chat id that is no integer.
    BadChatId(String),
    /// A poll interval that is no integer.
    BadPollInterval(String),
    /// A poll interval of zero.
    ZeroPollInterval,
    /// No chat id, outside discovery mode.
    MissingChatId,
}

/// What a configuration error says.
pub enum Fault {
    MissingToken,
    BadChatId(Seq<char>),
    BadPollInterval(Seq<char>),
    ZeroPollInterval,
    MissingChatId,
}

impl View for ConfigError {
    type V = Fault;

    open spec fn view(&self) -> Fault {
        match self {
            ConfigError::MissingToken => Fault::MissingToken,
            ConfigError::BadChatId(v) => Fault::BadChatId(v@),
            ConfigError::BadPollInterval(v) => Fault::BadPollInterval(v@),
            ConfigError::ZeroPollInterval => Fault::ZeroPollInterval,
            ConfigError::MissingChatId => Fault::MissingChatId,
        }
    }
}

// ---------------------------------------------------------------------------
// Messages
// ---------------------------------------------------------------------------

/// `s` in double quotes, with what would not be legible escaped.
pub uninterp spec fn quoted(s: Seq<char>) -> Seq<char>;

/// `std::fmt::Debug` for `str`. The text depends on `s` alone.
#[verifier::external_body]
fn quote(s: &str) -> (r: String)
    ensures
        r@ == quoted(s@),
{
    format!("{:?}", s)
}

/// A configuration error in words.
pub open spec fn fault_text(fault: Fault) -> Seq<char> {
    match fault {
        Fault::MissingToken => "TELOXIDE_TOKEN is required — create a bot with @BotFather"@,
        Fault::BadChatId(v) => "TELEGRAM_CHAT_ID must be an integer, got "@ + quoted(v),
        Fault::BadPollInterval(v) => "POLL_INTERVAL_SECS must be an integer, got "@ + quoted(v),
        Fault::ZeroPollInterval => "POLL_INTERVAL_SECS must be greater than zero"@,
        Fault::MissingChatId =>
            "TELEGRAM_CHAT_ID is required. To find it, run once with SB_WATCHER_DISCOVERY=1 and message the bot; it replies with the id."@,
    }
}

impl ConfigError {
    /// The error in words.
    pub fn message(&self) -> (r: String)
        ensures
            r@ == fault_text(self@),
    {
        match self {
            ConfigError::MissingToken =>
                "TELOXIDE_TOKEN is required — create a bot with @BotFather".to_string(),
            ConfigError::BadChatId(v) => {
                let mut out = "TELEGRAM_CHAT_ID must be an integer, got ".to_string();
                out.append(&quote(v));
                out
            },
            ConfigError::BadPollInterval(v) => {
                let mut out = "POLL_INTERVAL_SECS must be an integer, got ".to_string();
                out.append(&quote(v));
                out
            },
            ConfigError::ZeroPollInterval =>
                "POLL_INTERVAL_SECS must be greater than zero".to_string(),
            ConfigError::MissingChatId =>
                "TELEGRAM_CHAT_ID is required. To find it, run once with SB_WATCHER_DISCOVERY=1 and message the bot; it replies with the id.".to_string(),
        }
    }
}

// ---------------------------------------------------------------------------
// Settings
// ---------------------------------------------------------------------------

/// Whether a map has an entry for the text `key`.
pub open spec fn has_entry(map: Map<String, String>, key: Seq<char>) -> bool {
    exists|k: String| map.contains_key(k) && #[trigger] k@ == key
}

/// The text that a map has for the text `key`.
pub open spec fn entry(map: Map<String, String>, key: Seq<char>) -> Option<Seq<char>> {
    if has_entry(map, key) {
        Some(map[choose|k: String| map.contains_key(k) && #[trigger] k@ == key]@)
    } else {
        None
    }
}

/// `std::collections::HashMap::get`: the value of the entry whose key has the
/// characters of `key`, if there is one. A map holds no two such entries.
#[verifier::external_body]
fn look_up<'a>(map: &'a HashMap<String, String>, key: &str) -> (r: Option<&'a String>)
    ensures
        match r {
            Some(v) => entry(map@, key@) == Some(v@),
            None => entry(map@, key@) is None,
        },
{
    map.get(key)
}

/// The value of a setting, without the spaces around it. A value of spaces
/// alone is no value.
pub open spec fn setting(map: Map<String, String>, key: Seq<char>) -> Option<Seq<char>> {
    match entry(map, key) {
        Some(v) => if text::trimmed(v).len() > 0 {
            Some(text::trimmed(v))
        } else {
            None
        },
        None => None,
    }
}

/// Treat whitespace-only values as absent. Deploy tooling frequently sets empty
/// strings rather than unsetting a variable.
fn opt(map: &HashMap<String, String>, key: &str) -> (r: Option<String>)
    ensures
        text::optional_text(r) == setting(map@, key@),
{
    match look_up(map, key) {
        Some(v) => {
            let t = trim(v);
            if chars_of(&t).len() > 0 {
                Some(t)
            } else {
                None
            }
        },
        None => None,
    }
}

/// `c`, in lower case if it is an ASCII letter.
pub open spec fn lowered_char(c: char) -> char {
    if 'A' <= c <= 'Z' {
        (c as u32 + 32) as char
    } else {
        c
    }
}

/// `s` with its ASCII letters in lower case.
pub open spec fn lowered(s: Seq<char>) -> Seq<char> {
    s.map_values(|c: char| lowered_char(c))
}

/// Whether `s` says yes.
pub open spec fn affirms(s: Seq<char>) -> bool {
    lowered(s) == "1"@ || lowered(s) == "true"@ || lowered(s) == "yes"@
}

fn to_lower(s: &str) -> (r: String)
    ensures
        r@ == lowered(s@),
{
    let chars = chars_of(s);
    let mut out = String::new();
    let mut i: usize = 0;
    while i < chars.len()
        invariant
            i <= chars@.len(),
            chars@ == s@,
            out@ == lowered(s@).take(i as int),
        decreases chars@.len() - i,
    {
        let c = chars[i];
        let low = if 'A' <= c && c <= 'Z' {
            (c as u8 + 32) as char
        } else {
            c
        };
        proof {
            assert(low == lowered_char(c));
            assert(lowered(s@).take(i + 1) =~= lowered(s@).take(i as int).push(low));
        }
        out.push(low);
        i += 1;
    }
    assert(lowered(s@).take(s@.len() as int) =~= lowered(s@));
    out
}

fn says_yes(s: &str) -> (r: bool)
    ensures
        r == affirms(s@),
{
    let low = to_lower(s);
    low == "1".to_string() || low == "true".to_string() || low == "yes".to_string()
}

/// The chat id that a setting gives.
pub open spec fn chat_id_of(value: Option<Seq<char>>) -> Result<Option<i64>, Fault> {
    match value {
        None => Ok(None),
        Some(v) => match text::integer_in(v, true, i64::MIN as int, i64::MAX as int) {
            Some(n) => Ok(Some(n as i64)),
            None => Err(Fault::BadChatId(v)),
        },
    }
}

/// The poll interval in nanoseconds that a setting gives.
pub open spec fn poll_interval_of(value: Option<Seq<char>>) -> Result<int, Fault> {
    match value {
        None => Ok(DEFAULT_POLL_SECS * clock::NANOS_PER_SEC),
        Some(v) => match text::integer_in(v, false, 0, u64::MAX as int) {
            Some(n) => if n == 0 {
                Err(Fault::ZeroPollInterval)
            } else {
                Ok(n * clock::NANOS_PER_SEC)
            },
            None => Err(Fault::BadPollInterval(v)),
        },
    }
}

/// `value`, or `otherwise` where there is none.
pub open spec fn or_else(value: Option<Seq<char>>, otherwise: Seq<char>) -> Seq<char> {
    match value {
        Some(v) => v,
        None => otherwise,
    }
}

/// The configuration that an environment gives. Of several faults the first
/// counts: the token, then the chat id, then the poll interval.
pub open spec fn settings_of(map: Map<String, String>) -> Result<Settings, Fault> {
    match setting(map, TOKEN@) {
        None => Err(Fault::MissingToken),
        Some(telegram_token) => match chat_id_of(setting(map, CHAT_ID@)) {
            Err(fault) => Err(fault),
            Ok(chat_id) => match poll_interval_of(setting(map, POLL_INTERVAL@)) {
                Err(fault) => Err(fault),
                Ok(poll_interval) => Ok(
                    Settings {
                        telegram_token,
                        chat_id,
                        discovery: (setting(map, DISCOVERY@) matches Some(v) && affirms(v)),
                        ntfy_topic: setting(map, NTFY_TOPIC@),
                        poll_interval,
                        target_url: or_else(setting(map, TARGET_URL@), DEFAULT_TARGET_URL@),
                        user_agent: or_else(setting(map, USER_AGENT@), DEFAULT_USER_AGENT@),
                        fixture_path: setting(map, FIXTURE_PATH@),
                    },
                ),
            },
        },
    }
}

/// What the result of reading a configuration says.
pub open spec fn reading(r: Result<Config, ConfigError>) -> Result<Settings, Fault> {
    match r {
        Ok(cfg) => Ok(cfg@),
        Err(e) => Err(e@),
    }
}

fn or_default(value: Option<String>, otherwise: &str) -> (r: String)
    ensures
        r@ == or_else(text::optional_text(value), otherwise@),
{
    match value {
        Some(v) => v,
        None => otherwise.to_string(),
    }
}

impl Config {
    /// Read the configuration from a map of environment variables.
    pub fn from_map(map: &HashMap<String, String>) -> (r: Result<Config, ConfigError>)
        ensures
            reading(r) == settings_of(map@),
    {
        let telegram_token = match opt(map, TOKEN) {
            Some(v) => v,
            None => {
                return Err(ConfigError::MissingToken);
            },
        };
        let chat_id = match opt(map, CHAT_ID) {
            Some(v) => match parse_i64(&v) {
                Some(n) => Some(n),
                None => {
                    return Err(ConfigError::BadChatId(v));
                },
            },
            None => None,
        };
        let poll_interval = match opt(map, POLL_INTERVAL) {
            Some(v) => match parse_u64(&v) {
                Some(secs) => {
                    if secs == 0 {
                        return Err(ConfigError::ZeroPollInterval);
                    }
                    Duration::from_secs(secs)
                },
                None => {
                    return Err(ConfigError::BadPollInterval(v));
                },
            },
            None => Duration::from_secs(DEFAULT_POLL_SECS),
        };
        let discovery = match opt(map, DISCOVERY) {
            Some(v) => says_yes(&v),
            None => false,
        };
        Ok(
            Config {
                telegram_token,
                chat_id,
                discovery,
                ntfy_topic: opt(map, NTFY_TOPIC),
                poll_interval,
                target_url: or_default(opt(map, TARGET_URL), DEFAULT_TARGET_URL),
                user_agent: or_default(opt(map, USER_AGENT), DEFAULT_USER_AGENT),
                fixture_path: opt(map, FIXTURE_PATH),
            },
        )
    }
}

// ---------------------------------------------------------------------------
// Starting
// ---------------------------------------------------------------------------

/// What the program does once it has started.
#[derive(Debug, Clone, Copy, PartialEq, Eq, Structural)]
pub enum StartMode {
    /// Answer every chat with its id, and watch nothing.
    Discovery,
    /// Watch, and alert this chat.
    Watch(i64),
}

/// What a configuration asks for. A missing chat id is no silent discovery.
pub open spec fn start_of(settings: Settings) -> Result<StartMode, Fault> {
    if settings.discovery {
        Ok(StartMode::Discovery)
    } else {
        match settings.chat_id {
            Some(chat) => Ok(StartMode::Watch(chat)),
            None => Err(Fault::MissingChatId),
        }
    }
}

/// Decide how to start. Discovery is explicit: an accidentally blank chat id
/// must be an error, never a silent deployment that watches nothing.
pub fn start_mode(cfg: &Config) -> (r: Result<StartMode, ConfigError>)
    ensures
        match r {
            Ok(mode) => start_of(cfg@) == Ok::<StartMode, Fault>(mode),
            Err(e) => start_of(cfg@) == Err::<StartMode, Fault>(e@),
        },
{
    if cfg.discovery {
        return Ok(StartMode::Discovery);
    }
    match cfg.chat_id {
        Some(chat) => Ok(StartMode::Watch(chat)),
        None => Err(ConfigError::MissingChatId),
    }
}

// ---------------------------------------------------------------------------
// What holds of every configuration
// ---------------------------------------------------------------------------

proof fn lemma_nothing_is_left_of_spaces(s: Seq<char>)
    requires
        forall|i: int| 0 <= i < s.len() ==> text::is_space(#[trigger] s[i]),
    ensures
        text::trimmed(s) == Seq::<char>::empty(),
{
    lemma_spaces_are_trimmed(s);
    lemma_spaces_are_trimmed(Seq::empty());
}

proof fn lemma_spaces_are_trimmed(s: Seq<char>)
    requires
        forall|i: int| 0 <= i < s.len() ==> text::is_space(#[trigger] s[i]),
    ensures
        text::trimmed_front(s) == Seq::<char>::empty(),
        text::trimmed_back(s) == Seq::<char>::empty(),
    decreases s.len(),
{
    if s.len() > 0 {
        lemma_spaces_are_trimmed(s.skip(1));
        lemma_spaces_are_trimmed(s.drop_last());
    }
}

/// A value of spaces alone, and an empty one, is as good as none.
pub proof fn law_a_blank_value_is_no_value(map: Map<String, String>, key: Seq<char>, value: Seq<char>)
    requires
        entry(map, key) == Some(value),
        forall|i: int| 0 <= i < value.len() ==> text::is_space(#[trigger] value[i]),
    ensures
        setting(map, key) is None,
{
    lemma_nothing_is_left_of_spaces(value);
}

/// Environments whose settings agree give the same configuration: blank values
/// and the spaces around a value make no difference, nor do other variables.
pub proof fn law_only_the_settings_count(a: Map<String, String>, b: Map<String, String>)
    requires
        setting(a, TOKEN@) == setting(b, TOKEN@),
        setting(a, CHAT_ID@) == setting(b, CHAT_ID@),
        setting(a, DISCOVERY@) == setting(b, DISCOVERY@),
        setting(a, NTFY_TOPIC@) == setting(b, NTFY_TOPIC@),
        setting(a, POLL_INTERVAL@) == setting(b, POLL_INTERVAL@),
        setting(a, TARGET_URL@) == setting(b, TARGET_URL@),
        setting(a, USER_AGENT@) == setting(b, USER_AGENT@),
        setting(a, FIXTURE_PATH@) == setting(b, FIXTURE_PATH@),
    ensures
        settings_of(a) == settings_of(b),
{
}

/// Where nothing but the token is set, every default applies.
pub proof fn law_defaults_apply(map: Map<String, String>, token: Seq<char>)
    requires
        setting(map, TOKEN@) == Some(token),
        setting(map, CHAT_ID@) is None,
        setting(map, DISCOVERY@) is None,
        setting(map, NTFY_TOPIC@) is None,
        setting(map, POLL_INTERVAL@) is None,
        setting(map, TARGET_URL@) is None,
        setting(map, USER_AGENT@) is None,
        setting(map, FIXTURE_PATH@) is None,
    ensures
        settings_of(map) == Ok::<Settings, Fault>(
            Settings {
                telegram_token: token,
                chat_id: None,
                discovery: false,
                ntfy_topic: None,
                poll_interval: 60_000_000_000,
                target_url: DEFAULT_TARGET_URL@,
                user_agent: DEFAULT_USER_AGENT@,
                fixture_path: None,
            },
        ),
{
}

/// No configuration polls without a pause: an interval is a second at least.
pub proof fn law_polls_are_at_least_a_second_apart(map: Map<String, String>)
    ensures
        settings_of(map) matches Ok(settings) ==> settings.poll_interval >= clock::NANOS_PER_SEC,
{
    if let Ok(settings) = settings_of(map) {
        if let Some(v) = setting(map, POLL_INTERVAL@) {
            let n = text::integer_in(v, false, 0, u64::MAX as int).unwrap();
            assert(n * clock::NANOS_PER_SEC >= clock::NANOS_PER_SEC) by (nonlinear_arith)
                requires
                    n >= 1,
            ;
        }
    }
}

/// A blank chat id is refused unless discovery was asked for: the program
/// watches, with a chat to alert, or was told not to watch.
pub proof fn law_a_blank_chat_id_is_refused(map: Map<String, String>)
    requires
        setting(map, CHAT_ID@) is None,
        !(setting(map, DISCOVERY@) matches Some(v) && affirms(v)),
    ensures
        settings_of(map) matches Ok(settings) ==> start_of(settings) == Err::<StartMode, Fault>(
            Fault::MissingChatId,
        ),
{
}

/// The value of a variable counts without the spaces around it, and not at all
/// where nothing else is left.
pub proof fn law_a_setting_is_what_its_variable_says(map: Map<String, String>, k: String)
    ensures
        map.contains_key(k) && (forall|other: String|
            map.contains_key(other) && #[trigger] other@ == k@ ==> other == k) ==> setting(map, k@)
            == (if text::trimmed(map[k]@).len() == 0 {
            None
        } else {
            Some(text::trimmed(map[k]@))
        }),
        (forall|other: String| map.contains_key(other) ==> #[trigger] other@ != k@) ==> setting(
            map,
            k@,
        ) is None,
{
    if map.contains_key(k) {
        assert(has_entry(map, k@));
    }
}

/// Each part of a configuration comes from the variable that is named for it,
/// or is the documented default.
pub proof fn law_each_part_comes_from_its_variable(map: Map<String, String>)
    ensures
        settings_of(map) matches Ok(settings) ==> {
            &&& setting(map, "TELOXIDE_TOKEN"@) == Some(settings.telegram_token)
            &&& settings.ntfy_topic == setting(map, "NTFY_TOPIC"@)
            &&& settings.fixture_path == setting(map, "SB_WATCHER_FIXTURE_PATH"@)
            &&& match setting(map, "TARGET_URL"@) {
                Some(url) => settings.target_url == url,
                None => settings.target_url
                    == "https://www.sbtix.de/catalog/tickets/98430-tickets-summer-breeze-2027-summer-breeze-open-air-dinkelsbuehl-am-18-08-2027"@,
            }
            &&& match setting(map, "USER_AGENT"@) {
                Some(agent) => settings.user_agent == agent,
                None => settings.user_agent
                    == "Mozilla/5.0 (Macintosh; Intel Mac OS X 10_15_7) AppleWebKit/537.36 (KHTML, like Gecko) Chrome/126.0 Safari/537.36"@,
            }
            &&& settings.discovery <==> (setting(map, "SB_WATCHER_DISCOVERY"@) matches Some(v)
                && affirms(v))
            &&& setting(map, "TELEGRAM_CHAT_ID"@) is None <==> settings.chat_id is None
            &&& setting(map, "POLL_INTERVAL_SECS"@) is None ==> settings.poll_interval
                == 60_000_000_000
        },
{
}

/// The numbers of a configuration are the ones that were written: every chat id
/// of 64 bits, and every interval of one second or more.
pub proof fn law_numbers_are_taken_as_written(map: Map<String, String>, n: int)
    ensures
        settings_of(map) matches Ok(settings) ==> {
            &&& setting(map, "TELEGRAM_CHAT_ID"@) == Some(text::signed_decimal(n))
                ==> (settings.chat_id matches Some(id) && id == n)
            &&& n >= 0 && setting(map, "POLL_INTERVAL_SECS"@) == Some(text::decimal(n as nat))
                ==> n >= 1 && settings.poll_interval == n * 1_000_000_000
        },
        setting(map, "TELOXIDE_TOKEN"@) is Some && setting(map, "TELEGRAM_CHAT_ID"@) == Some(
            text::signed_decimal(n),
        ) && setting(map, "POLL_INTERVAL_SECS"@) is None ==> (settings_of(map) is Ok
            <==> -9_223_372_036_854_775_808 <= n <= 9_223_372_036_854_775_807),
        n >= 0 && setting(map, "TELOXIDE_TOKEN"@) is Some && setting(map, "TELEGRAM_CHAT_ID"@) is None
            && setting(map, "POLL_INTERVAL_SECS"@) == Some(text::decimal(n as nat)) ==> (settings_of(
            map,
        ) is Ok <==> 1 <= n <= 18_446_744_073_709_551_615),
{
    text::law_decimal_reads_back(n);
}

/// Each fault is reported if and only if it is there and no earlier one is: a
/// missing token, then a chat id that is no integer of 64 bits, then an interval
/// that is none, or is zero. Without a fault the configuration is taken.
pub proof fn law_each_fault_is_reported(map: Map<String, String>)
    ensures
        ({
            let no_token = setting(map, "TELOXIDE_TOKEN"@) is None;
            let chat = setting(map, "TELEGRAM_CHAT_ID"@);
            let bad_chat = chat matches Some(v) && !(text::spelled_integer(v, true) matches Some(n)
                && -9_223_372_036_854_775_808 <= n <= 9_223_372_036_854_775_807);
            let poll = setting(map, "POLL_INTERVAL_SECS"@);
            let bad_poll = poll matches Some(v) && !(text::spelled_integer(v, false) matches Some(n)
                && 0 <= n <= 18_446_744_073_709_551_615);
            let zero_poll = poll matches Some(v) && text::spelled_integer(v, false) == Some(0int);
            if no_token {
                settings_of(map) == Err::<Settings, Fault>(Fault::MissingToken)
            } else if bad_chat {
                settings_of(map) == Err::<Settings, Fault>(Fault::BadChatId(chat->0))
            } else if bad_poll {
                settings_of(map) == Err::<Settings, Fault>(Fault::BadPollInterval(poll->0))
            } else if zero_poll {
                settings_of(map) == Err::<Settings, Fault>(Fault::ZeroPollInterval)
            } else {
                settings_of(map) is Ok
            }
        }),
{
}

/// Each fault in words.
pub proof fn law_each_fault_reads_as_it_should(value: Seq<char>)
    ensures
        fault_text(Fault::MissingToken)
            == "TELOXIDE_TOKEN is required — create a bot with @BotFather"@,
        fault_text(Fault::BadChatId(value)) == "TELEGRAM_CHAT_ID must be an integer, got "@ + quoted(
            value,
        ),
        fault_text(Fault::BadPollInterval(value)) == "POLL_INTERVAL_SECS must be an integer, got "@
            + quoted(value),
        fault_text(Fault::ZeroPollInterval) == "POLL_INTERVAL_SECS must be greater than zero"@,
        fault_text(Fault::MissingChatId)
            == "TELEGRAM_CHAT_ID is required. To find it, run once with SB_WATCHER_DISCOVERY=1 and message the bot; it replies with the id."@,
{
}

/// Whether `c` is the letter that is `lower` in lower case and `upper` in upper
/// case.
pub open spec fn is_letter(c: char, lower: char, upper: char) -> bool {
    c == lower || c == upper
}

proof fn lemma_lowered_char(c: char)
    ensures
        'A' <= c <= 'Z' ==> lowered_char(c) as int == c as int + 32,
        !('A' <= c <= 'Z') ==> lowered_char(c) == c,
{
}

/// Yes is `1`, `true` or `yes`, in letters of either case, and nothing else.
pub proof fn law_what_says_yes(s: Seq<char>)
    ensures
        affirms(s) <==> {
            ||| s.len() == 1 && s[0] == '1'
            ||| s.len() == 4 && is_letter(s[0], 't', 'T') && is_letter(s[1], 'r', 'R') && is_letter(
                s[2],
                'u',
                'U',
            ) && is_letter(s[3], 'e', 'E')
            ||| s.len() == 3 && is_letter(s[0], 'y', 'Y') && is_letter(s[1], 'e', 'E') && is_letter(
                s[2],
                's',
                'S',
            )
        },
{
    reveal_strlit("1");
    reveal_strlit("true");
    reveal_strlit("yes");
    let low = lowered(s);
    assert(forall|i: int| 0 <= i < s.len() ==> #[trigger] low[i] == lowered_char(s[i]));
    assert(low.len() == s.len());
    if low == "1"@ {
        assert(low[0] == '1');
        lemma_lowered_char(s[0]);
    }
    if low == "true"@ {
        assert(low[0] == 't' && low[1] == 'r' && low[2] == 'u' && low[3] == 'e');
        lemma_lowered_char(s[0]);
        lemma_lowered_char(s[1]);
        lemma_lowered_char(s[2]);
        lemma_lowered_char(s[3]);
    }
    if low == "yes"@ {
        assert(low[0] == 'y' && low[1] == 'e' && low[2] == 's');
        lemma_lowered_char(s[0]);
        lemma_lowered_char(s[1]);
        lemma_lowered_char(s[2]);
    }
    if s.len() == 1 && s[0] == '1' {
        assert(low =~= "1"@);
    }
    if s.len() == 4 && is_letter(s[0], 't', 'T') && is_letter(s[1], 'r', 'R') && is_letter(
        s[2],
        'u',
        'U',
    ) && is_letter(s[3], 'e', 'E') {
        assert(low[0] == 't' && low[1] == 'r' && low[2] == 'u' && low[3] == 'e');
        assert(low =~= "true"@);
    }
    if s.len() == 3 && is_letter(s[0], 'y', 'Y') && is_letter(s[1], 'e', 'E') && is_letter(
        s[2],
        's',
        'S',
    ) {
        assert(low[0] == 'y' && low[1] == 'e' && low[2] == 's');
        assert(low =~= "yes"@);
    }
}

/// Discovery goes by the wish for it alone; without it the program watches for
/// the chat that is configured, and does not start without one.
pub proof fn law_how_the_program_starts(settings: Settings)
    ensures
        start_of(settings) == Ok::<StartMode, Fault>(StartMode::Discovery) <==> settings.discovery,
        !settings.discovery ==> match settings.chat_id {
            Some(chat) => start_of(settings) == Ok::<StartMode, Fault>(StartMode::Watch(chat)),
            None => start_of(settings) == Err::<StartMode, Fault>(Fault::MissingChatId),
        },
{
}

/// What a configuration says is what it holds, and so it is with a fault.
pub proof fn law_configurations_say_what_they_hold(cfg: Config, e: ConfigError, value: String)
    ensures
        cfg@.telegram_token == cfg.telegram_token@,
        cfg@.chat_id == cfg.chat_id,
        cfg@.discovery == cfg.discovery,
        match cfg.ntfy_topic {
            Some(topic) => cfg@.ntfy_topic == Some(topic@),
            None => cfg@.ntfy_topic is None,
        },
        cfg@.poll_interval == cfg.poll_interval.nanos,
        cfg@.target_url == cfg.target_url@,
        cfg@.user_agent == cfg.user_agent@,
        match cfg.fixture_path {
            Some(path) => cfg@.fixture_path == Some(path@),
            None => cfg@.fixture_path is None,
        },
        ConfigError::MissingToken@ == Fault::MissingToken,
        ConfigError::BadChatId(value)@ == Fault::BadChatId(value@),
        ConfigError::BadPollInterval(value)@ == Fault::BadPollInterval(value@),
        ConfigError::ZeroPollInterval@ == Fault::ZeroPollInterval,
        ConfigError::MissingChatId@ == Fault::MissingChatId,
        reading(Ok(cfg)) == Ok::<Settings, Fault>(cfg@),
        reading(Err(e)) == Err::<Settings, Fault>(e@),
{
}

}
