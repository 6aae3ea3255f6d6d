//! The line parser: one line of text in, at most one event record out.
//!
//! A line is matched against an ordered table of rules. Each rule is a
//! regular expression, made of a shared timestamp prefix and a fragment of
//! its own, together with the event that its captured groups build. The
//! first rule that matches decides.

use std::collections::hash_map::DefaultHasher;
use std::hash::{Hash, Hasher};
use vstd::prelude::*;
use vstd::string::*;

use crate::event::{EventView, LogPayload, PayloadView, VrcLogEvent};
use crate::text::{replace_char, replaced, trim, trimmed, trimmed_end, trimmed_start};

verus! {

/// The groups that the `regex` crate captures for the leftmost match of
/// `pattern` in `haystack`: group 0 is the whole match, the others follow in
/// the order of their opening parentheses, and a group that took no part in
/// the match is `None`. The result is `None` where nothing matches or where
/// `pattern` is not an expression that the crate compiles.
pub uninterp spec fn regex_captures(pattern: Seq<char>, haystack: Seq<char>) -> Option<
    Seq<Option<Seq<char>>>,
>;

/// Compiles `pattern` with `regex::Regex::new` and searches `haystack` with
/// `Regex::captures`, copying each captured group out with `Captures::iter`.
///
/// Trusted: the result is named [`regex_captures`]; nothing else is claimed
/// of it. The expression is compiled on every call.
#[verifier::external_body]
fn capture_groups(pattern: &str, haystack: &str) -> (groups: Option<Vec<Option<String>>>)
    ensures
        groups.deep_view() == regex_captures(pattern@, haystack@),
{
    let re = regex::Regex::new(pattern).ok()?;
    let caps = re.captures(haystack)?;
    Some(caps.iter().map(|m| m.map(|m| m.as_str().to_string())).collect())
}

/// A compiled expression of the `regex` crate. Nothing inside it is seen
/// here: it is kept and handed back to the crate.
#[verifier::external_type_specification]
#[verifier::external_body]
pub struct ExRegex(regex::Regex);

/// Calls `regex::Regex::new`.
///
/// Trusted, with nothing claimed: `None` stands for a pattern that the
/// crate does not compile.
#[verifier::external_body]
fn compile(pattern: &str) -> Option<regex::Regex> {
    regex::Regex::new(pattern).ok()
}

/// Searches `haystack` with `Regex::captures`, copying each captured group
/// out with `Captures::iter`, and asks the expression with `Regex::as_str`
/// for the pattern that it was compiled from.
///
/// Trusted: the groups returned are those that [`regex_captures`] names for
/// the pattern returned and `haystack`. This is so for an expression that
/// `Regex::new` compiled, and [`compile`] is the only source of one here.
#[verifier::external_body]
fn captures_of<'a>(re: &'a regex::Regex, haystack: &str) -> (found: (
    &'a str,
    Option<Vec<Option<String>>>,
))
    ensures
        found.1.deep_view() == regex_captures(found.0@, haystack@),
{
    let groups = re.captures(haystack).map(
        |caps| caps.iter().map(|m| m.map(|m| m.as_str().to_string())).collect(),
    );
    (re.as_str(), groups)
}

/// The groups that `pattern` captures in `haystack`. Where `compiled` is
/// the expression compiled from `pattern`, it does the search; else the
/// pattern is compiled for this one search.
fn captures_with(compiled: Option<&regex::Regex>, pattern: &String, haystack: &str) -> (groups:
    Option<Vec<Option<String>>>)
    ensures
        groups.deep_view() == regex_captures(pattern@, haystack@),
{
    match compiled {
        Some(re) => {
            let (source, groups) = captures_of(re, haystack);
            if String::from_str(source) == *pattern {
                groups
            } else {
                capture_groups(pattern.as_str(), haystack)
            }
        },
        None => capture_groups(pattern.as_str(), haystack),
    }
}

/// What std's `DefaultHasher`, freshly made, gives after the timestamp and
/// then the event were fed to it.
pub uninterp spec fn hasher_output(timestamp: Seq<char>, event: EventView) -> u64;

/// Feeds `timestamp` and then `event` to a new `DefaultHasher` and returns
/// what `Hasher::finish` gives.
///
/// Trusted: the result is named [`hasher_output`], which makes it a
/// function of the timestamp's characters and the event's variant and
/// fields alone. `DefaultHasher::new` takes no key, so the value is the same
/// in every run.
#[verifier::external_body]
fn default_hash(timestamp: &str, event: &VrcLogEvent) -> (hash: u64)
    ensures
        hash == hasher_output(timestamp@, event@),
{
    let mut hasher = DefaultHasher::new();
    timestamp.hash(&mut hasher);
    event.hash(&mut hasher);
    hasher.finish()
}

/// The fingerprint of a timestamp and an event: the hasher's 64 bits, read
/// as a signed number so that they fit the store's integer column.
pub open spec fn dedup_hash(timestamp: Seq<char>, event: EventView) -> i64 {
    hasher_output(timestamp, event) as i64
}

/// The key under which the store keeps at most one record.
pub fn gen_hash(timestamp: &str, event: &VrcLogEvent) -> (hash: i64)
    ensures
        hash == dedup_hash(timestamp@, event@),
{
    #[verifier::truncate]
    (default_hash(timestamp, event) as i64)
}

/// Equal timestamps and structurally equal events have equal fingerprints.
pub proof fn hash_is_deterministic(ts1: Seq<char>, e1: EventView, ts2: Seq<char>, e2: EventView)
    requires
        ts1 == ts2,
        e1 == e2,
    ensures
        dedup_hash(ts1, e1) == dedup_hash(ts2, e2),
{
}

/// The rules of the table, in the order in which they are tried.
#[derive(Clone, Copy, Debug, PartialEq, Eq)]
pub enum RuleKind {
    AppStart,
    AppStop,
    Login,
    WorldEnter,
    InstanceJoin,
    PlayerJoin,
    PlayerLeft,
    SelfLeft,
}

/// The table of rules.
pub open spec fn rules() -> Seq<RuleKind> {
    seq![
        RuleKind::AppStart,
        RuleKind::AppStop,
        RuleKind::Login,
        RuleKind::WorldEnter,
        RuleKind::InstanceJoin,
        RuleKind::PlayerJoin,
        RuleKind::PlayerLeft,
        RuleKind::SelfLeft,
    ]
}

/// The table of rules, in the order in which they are tried.
pub fn rule_table() -> (table: Vec<RuleKind>)
    ensures
        table@ == rules(),
{
    let mut table: Vec<RuleKind> = Vec::new();
    table.push(RuleKind::AppStart);
    table.push(RuleKind::AppStop);
    table.push(RuleKind::Login);
    table.push(RuleKind::WorldEnter);
    table.push(RuleKind::InstanceJoin);
    table.push(RuleKind::PlayerJoin);
    table.push(RuleKind::PlayerLeft);
    table.push(RuleKind::SelfLeft);
    proof {
        assert(table@ =~= rules());
    }
    table
}

/// The expression that every line with a timestamp starts with. Its one
/// group captures the timestamp as the log writes it, `YYYY.MM.DD HH:mm:ss`.
pub open spec fn timestamp_pattern() -> Seq<char> {
    r"^(\d{4}\.\d{2}\.\d{2} \d{2}:\d{2}:\d{2})"@
}

/// The part of a rule's expression that is its own.
pub open spec fn rule_fragment_spec(kind: RuleKind) -> Seq<char> {
    match kind {
        RuleKind::AppStart => r"VRCNP: Server started"@,
        RuleKind::AppStop => r"VRCNP: Stopping server"@,
        RuleKind::Login => r"User Authenticated: (.+) \((usr_[\w-]+)\)"@,
        RuleKind::WorldEnter => r"\[Behaviour\] Entering Room: (.+)"@,
        RuleKind::InstanceJoin => r"\[Behaviour\] Joining (wrld_[\w-]+):(.+)"@,
        RuleKind::PlayerJoin => r"\[Behaviour\] OnPlayerJoined (.+) \((usr_[\w-]+)\)"@,
        RuleKind::PlayerLeft => r"\[Behaviour\] OnPlayerLeft (.+) \((usr_[\w-]+)\)"@,
        RuleKind::SelfLeft => r"\[Behaviour\] OnLeftRoom"@,
    }
}

/// A rule's whole expression: the timestamp prefix, anything, then the
/// rule's fragment.
pub open spec fn rule_pattern_spec(kind: RuleKind) -> Seq<char> {
    timestamp_pattern() + ".*"@ + rule_fragment_spec(kind)
}

fn timestamp_expression() -> (pattern: &'static str)
    ensures
        pattern@ == timestamp_pattern(),
{
    r"^(\d{4}\.\d{2}\.\d{2} \d{2}:\d{2}:\d{2})"
}

fn rule_fragment(kind: RuleKind) -> (fragment: &'static str)
    ensures
        fragment@ == rule_fragment_spec(kind),
{
    match kind {
        RuleKind::AppStart => r"VRCNP: Server started",
        RuleKind::AppStop => r"VRCNP: Stopping server",
        RuleKind::Login => r"User Authenticated: (.+) \((usr_[\w-]+)\)",
        RuleKind::WorldEnter => r"\[Behaviour\] Entering Room: (.+)",
        RuleKind::InstanceJoin => r"\[Behaviour\] Joining (wrld_[\w-]+):(.+)",
        RuleKind::PlayerJoin => r"\[Behaviour\] OnPlayerJoined (.+) \((usr_[\w-]+)\)",
        RuleKind::PlayerLeft => r"\[Behaviour\] OnPlayerLeft (.+) \((usr_[\w-]+)\)",
        RuleKind::SelfLeft => r"\[Behaviour\] OnLeftRoom",
    }
}

/// The expression of a rule, as the table compiles it.
pub fn rule_pattern(kind: RuleKind) -> (pattern: String)
    ensures
        pattern@ == rule_pattern_spec(kind),
{
    String::from_str(timestamp_expression()).concat(".*").concat(rule_fragment(kind))
}

/// The stored form of a timestamp: the log's form with `-` for each `.`.
pub open spec fn normalized(raw: Seq<char>) -> Seq<char> {
    replaced(raw, '.', '-')
}

/// Group `i` of a match, where the match has such a group and it took part.
pub open spec fn group(groups: Seq<Option<Seq<char>>>, i: int) -> Option<Seq<char>> {
    if 0 <= i < groups.len() {
        groups[i]
    } else {
        None
    }
}

/// The event that a rule builds from the groups of its match, where the
/// groups that it reads took part in the match.
pub open spec fn event_spec(kind: RuleKind, groups: Seq<Option<Seq<char>>>) -> Option<EventView> {
    match kind {
        RuleKind::AppStart => Some(EventView::AppStart),
        RuleKind::AppStop => Some(EventView::AppStop),
        RuleKind::SelfLeft => Some(EventView::SelfLeft),
        RuleKind::WorldEnter => match group(groups, 2) {
            Some(world_name) => Some(EventView::WorldEnter { world_name }),
            None => None,
        },
        RuleKind::Login => match (group(groups, 2), group(groups, 3)) {
            (Some(username), Some(user_id)) => Some(EventView::Login { username, user_id }),
            _ => None,
        },
        RuleKind::InstanceJoin => match (group(groups, 2), group(groups, 3)) {
            (Some(world_id), Some(suffix)) => Some(
                EventView::InstanceJoin { world_id, instance_id: world_id + ":"@ + suffix },
            ),
            _ => None,
        },
        RuleKind::PlayerJoin => match (group(groups, 2), group(groups, 3)) {
            (Some(player_name), Some(user_id)) => Some(
                EventView::PlayerJoin { player_name, user_id },
            ),
            _ => None,
        },
        RuleKind::PlayerLeft => match (group(groups, 2), group(groups, 3)) {
            (Some(player_name), Some(user_id)) => Some(
                EventView::PlayerLeft { player_name, user_id },
            ),
            _ => None,
        },
    }
}

/// The timestamp of a record: group 1, normalized, or `unknown` where the
/// match has no such group.
pub open spec fn record_timestamp_spec(groups: Seq<Option<Seq<char>>>) -> Seq<char> {
    match group(groups, 1) {
        Some(raw) => normalized(raw),
        None => "unknown"@,
    }
}

/// The record that a rule builds from the groups of its match.
pub open spec fn record_spec(kind: RuleKind, groups: Seq<Option<Seq<char>>>) -> Option<
    PayloadView,
> {
    match event_spec(kind, groups) {
        Some(event) => {
            let timestamp = record_timestamp_spec(groups);
            Some(PayloadView { event, timestamp, hash: dedup_hash(timestamp, event) })
        },
        None => None,
    }
}

fn group_at(groups: &Vec<Option<String>>, i: usize) -> (g: Option<&String>)
    ensures
        g.deep_view() == group(groups.deep_view(), i as int),
{
    if i < groups.len() {
        groups[i].as_ref()
    } else {
        None
    }
}

/// Builds the event of a rule from the groups that its expression captured.
///
/// Returns `None` where a group that the rule reads is missing; an
/// expression of the table always captures its groups when it matches.
pub fn event_from_captures(kind: RuleKind, groups: &Vec<Option<String>>) -> (event: Option<
    VrcLogEvent,
>)
    ensures
        event.deep_view() == event_spec(kind, groups.deep_view()),
{
    match kind {
        RuleKind::AppStart => Some(VrcLogEvent::AppStart),
        RuleKind::AppStop => Some(VrcLogEvent::AppStop),
        RuleKind::SelfLeft => Some(VrcLogEvent::SelfLeft),
        RuleKind::WorldEnter => match group_at(groups, 2) {
            Some(world_name) => Some(VrcLogEvent::WorldEnter { world_name: world_name.clone() }),
            None => None,
        },
        RuleKind::Login => match (group_at(groups, 2), group_at(groups, 3)) {
            (Some(username), Some(user_id)) => Some(
                VrcLogEvent::Login { username: username.clone(), user_id: user_id.clone() },
            ),
            _ => None,
        },
        RuleKind::InstanceJoin => match (group_at(groups, 2), group_at(groups, 3)) {
            (Some(world_id), Some(suffix)) => Some(
                VrcLogEvent::InstanceJoin {
                    world_id: world_id.clone(),
                    instance_id: world_id.clone().concat(":").concat(suffix.as_str()),
                },
            ),
            _ => None,
        },
        RuleKind::PlayerJoin => match (group_at(groups, 2), group_at(groups, 3)) {
            (Some(player_name), Some(user_id)) => Some(
                VrcLogEvent::PlayerJoin {
                    player_name: player_name.clone(),
                    user_id: user_id.clone(),
                },
            ),
            _ => None,
        },
        RuleKind::PlayerLeft => match (group_at(groups, 2), group_at(groups, 3)) {
            (Some(player_name), Some(user_id)) => Some(
                VrcLogEvent::PlayerLeft {
                    player_name: player_name.clone(),
                    user_id: user_id.clone(),
                },
            ),
            _ => None,
        },
    }
}

/// Builds the record of a rule from the groups that its expression captured:
/// the rule's event, the normalized timestamp of group 1, and their hash.
pub fn record_from_captures(kind: RuleKind, groups: &Vec<Option<String>>) -> (record: Option<
    LogPayload,
>)
    ensures
        record.deep_view() == record_spec(kind, groups.deep_view()),
{
    match event_from_captures(kind, groups) {
        Some(event) => {
            let timestamp = match group_at(groups, 1) {
                Some(raw) => replace_char(raw.as_str(), '.', '-'),
                None => String::from_str("unknown"),
            };
            let hash = gen_hash(timestamp.as_str(), &event);
            Some(LogPayload { event, timestamp, hash })
        },
        None => None,
    }
}

/// The first rule at or after place `from` whose expression matches `text`,
/// with the groups of its match.
pub open spec fn first_match(text: Seq<char>, from: int) -> Option<
    (RuleKind, Seq<Option<Seq<char>>>),
>
    decreases rules().len() - from,
{
    if from < 0 || from >= rules().len() {
        None
    } else {
        match regex_captures(rule_pattern_spec(rules()[from]), text) {
            Some(groups) => Some((rules()[from], groups)),
            None => first_match(text, from + 1),
        }
    }
}

/// What a line parses to: nothing for a line that is empty once trimmed or
/// that no rule matches, else the record of the first rule that matches the
/// trimmed line.
pub open spec fn parse_spec(line: Seq<char>) -> Option<PayloadView> {
    let text = trimmed(line);
    if text.len() == 0 {
        None
    } else {
        match first_match(text, 0) {
            Some((kind, groups)) => record_spec(kind, groups),
            None => None,
        }
    }
}

/// The table of rules with its expressions compiled, for parsing many
/// lines: each expression is compiled once, when the parser is made.
///
/// Nothing is claimed of what the parser holds. What it returns is stated
/// by its methods, and is the same for every parser.
pub struct LineParser {
    timestamp: Option<regex::Regex>,
    rules: Vec<Option<regex::Regex>>,
}

fn parse_with(parser: Option<&LineParser>, line: &str) -> (record: Option<LogPayload>)
    ensures
        record.deep_view() == parse_spec(line@),
        line@.len() == 0 ==> record is None,
{
    let text = trim(line);
    if text.is_empty() {
        return None;
    }
    assert(line@.len() != 0) by {
        if line@.len() == 0 {
            assert(trimmed_start(line@) == line@);
            assert(trimmed_end(line@) == line@);
        }
    }
    let table = rule_table();
    let mut i: usize = 0;
    while i < table.len()
        invariant
            i <= table.len(),
            table@ == rules(),
            text@ == trimmed(line@),
            text@.len() != 0,
            line@.len() != 0,
            first_match(text@, 0) == first_match(text@, i as int),
        decreases table.len() - i,
    {
        let kind = table[i];
        let pattern = rule_pattern(kind);
        let compiled = match parser {
            Some(p) => if i < p.rules.len() {
                p.rules[i].as_ref()
            } else {
                None
            },
            None => None,
        };
        match captures_with(compiled, &pattern, text) {
            Some(groups) => {
                return record_from_captures(kind, &groups);
            },
            None => {},
        }
        i += 1;
    }
    None
}

fn timestamp_with(parser: Option<&LineParser>, line: &str) -> (timestamp: Option<String>)
    ensures
        timestamp.deep_view() == extract_timestamp_spec(line@),
{
    let pattern = String::from_str(timestamp_expression());
    let compiled = match parser {
        Some(p) => p.timestamp.as_ref(),
        None => None,
    };
    match captures_with(compiled, &pattern, line) {
        Some(groups) => match group_at(&groups, 1) {
            Some(raw) => Some(replace_char(raw.as_str(), '.', '-')),
            None => None,
        },
        None => None,
    }
}

impl LineParser {
    /// Compiles the timestamp expression and the expression of each rule.
    pub fn new() -> (parser: Self) {
        let table = rule_table();
        let mut compiled: Vec<Option<regex::Regex>> = Vec::new();
        let mut i: usize = 0;
        while i < table.len()
            invariant
                i <= table.len(),
            decreases table.len() - i,
        {
            let pattern = rule_pattern(table[i]);
            compiled.push(compile(pattern.as_str()));
            i += 1;
        }
        LineParser {
            timestamp: compile(timestamp_expression()),
            rules: compiled,
        }
    }

    /// Parses one line of the log. An empty line yields nothing.
    pub fn parse_log_line(&self, line: &str) -> (record: Option<LogPayload>)
        ensures
            record.deep_view() == parse_spec(line@),
            line@.len() == 0 ==> record is None,
    {
        parse_with(Some(self), line)
    }

    /// Reads the timestamp at the start of a line, whether or not the
    /// line holds an event.
    pub fn extract_timestamp(&self, line: &str) -> (timestamp: Option<String>)
        ensures
            timestamp.deep_view() == extract_timestamp_spec(line@),
    {
        timestamp_with(Some(self), line)
    }
}

/// Parses one line of the log. An empty line yields nothing.
///
/// The expressions are compiled for this one line; a [`LineParser`] parses
/// many lines with expressions compiled once.
pub fn parse_log_line(line: &str) -> (record: Option<LogPayload>)
    ensures
        record.deep_view() == parse_spec(line@),
        line@.len() == 0 ==> record is None,
{
    parse_with(None, line)
}

/// The timestamp that a line starts with, normalized; `None` for a line that
/// does not start with one.
pub open spec fn extract_timestamp_spec(line: Seq<char>) -> Option<Seq<char>> {
    match regex_captures(timestamp_pattern(), line) {
        Some(groups) => match group(groups, 1) {
            Some(raw) => Some(normalized(raw)),
            None => None,
        },
        None => None,
    }
}

/// Reads the timestamp at the start of a line, whether or not the line
/// holds an event.
///
/// The expression is compiled for this one line; a [`LineParser`] reads
/// many lines with the expression compiled once.
pub fn extract_timestamp(line: &str) -> (timestamp: Option<String>)
    ensures
        timestamp.deep_view() == extract_timestamp_spec(line@),
{
    timestamp_with(None, line)
}

/// The record of an abnormal stop at `last_timestamp`: the tailer writes it
/// when a log ends without a stop. No line produces it.
pub fn create_invalid_app_stop_payload(last_timestamp: &str) -> (record: LogPayload)
    ensures
        record.deep_view() == (PayloadView {
            event: EventView::InvalidAppStop,
            timestamp: last_timestamp@,
            hash: dedup_hash(last_timestamp@, EventView::InvalidAppStop),
        }),
{
    let event = VrcLogEvent::InvalidAppStop;
    let timestamp = String::from_str(last_timestamp);
    let hash = gen_hash(timestamp.as_str(), &event);
    LogPayload { event, timestamp, hash }
}

} // verus!
