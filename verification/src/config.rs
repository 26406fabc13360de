//! The host table and the global paths.
//!
//! A host is known by its hostname, which no two hosts share. Changing a
//! host keeps every field that the operator left empty.

use vstd::prelude::*;
use vstd::string::*;
use crate::logging::Trap;
use crate::path::{chars_of, parse_path, render_path, string_of, FilePath};

verus! {

/// The paths that the whole engine works under.
#[derive(Debug)]
pub struct GlobalConfig {
    /// The hosts file.
    pub hosts: FilePath,
    /// The directory under which each host's snapshots lie.
    pub backups: FilePath,
    /// The directory into which snapshots are compiled.
    pub snapshots: FilePath,
    /// The log file.
    pub log: FilePath,
}

impl Clone for GlobalConfig {
    fn clone(&self) -> (r: Self)
        ensures
            r.hosts@ == self.hosts@,
            r.backups@ == self.backups@,
            r.snapshots@ == self.snapshots@,
            r.log@ == self.log@,
    {
        GlobalConfig {
            hosts: self.hosts.clone(),
            backups: self.backups.clone(),
            snapshots: self.snapshots.clone(),
            log: self.log.clone(),
        }
    }
}

/// How a host is addressed.
#[derive(Debug)]
pub enum HostIdentifier {
    Ip(String),
    Hostname(String),
}

impl HostIdentifier {
    /// The address as text.
    pub open spec fn text(&self) -> Seq<char> {
        match self {
            HostIdentifier::Ip(s) => s@,
            HostIdentifier::Hostname(s) => s@,
        }
    }

    /// The address as text.
    pub fn as_str(&self) -> (r: &str)
        ensures
            r@ == self.text(),
    {
        match self {
            HostIdentifier::Ip(s) => s.as_str(),
            HostIdentifier::Hostname(s) => s.as_str(),
        }
    }

    /// The address as the name of the host's directory.
    pub fn as_path(&self) -> (r: FilePath)
        ensures
            r@ == parse_path(self.text()),
    {
        FilePath::from(self.as_str())
    }
}

/// The port that is taken where a host names none.
pub open spec fn default_port() -> u16 {
    22
}

/// The schedule that is taken where a host names none: every day at midnight.
pub open spec fn default_cron() -> Seq<char> {
    "0 0 * * *"@
}

/// The private key that is taken where a host names none.
pub open spec fn default_key() -> Seq<Seq<char>> {
    parse_path("$HOME/.ssh/ed25519"@)
}

/// How to reach a host and what to copy from it.
#[derive(Debug)]
pub struct HostConfig {
    pub user: String,
    /// The remote address.
    pub identifier: String,
    pub port: Option<u16>,
    /// The private key file.
    pub key: Option<FilePath>,
    /// The directory on the remote that is backed up.
    pub source: FilePath,
    /// The directory on this machine that the host's backups go to.
    pub destination: FilePath,
    pub cron_schedule: Option<String>,
}

/// A host's configuration as plain values.
pub struct HostConfigView {
    pub user: Seq<char>,
    pub identifier: Seq<char>,
    pub port: Option<u16>,
    pub key: Option<Seq<Seq<char>>>,
    pub source: Seq<Seq<char>>,
    pub destination: Seq<Seq<char>>,
    pub cron_schedule: Option<Seq<char>>,
}

impl View for HostConfig {
    type V = HostConfigView;

    open spec fn view(&self) -> HostConfigView {
        HostConfigView {
            user: self.user@,
            identifier: self.identifier@,
            port: self.port,
            key: match self.key {
                Some(k) => Some(k@),
                None => None,
            },
            source: self.source@,
            destination: self.destination@,
            cron_schedule: match self.cron_schedule {
                Some(c) => Some(c@),
                None => None,
            },
        }
    }
}

impl Clone for HostConfig {
    fn clone(&self) -> (r: Self)
        ensures
            r@ == self@,
    {
        HostConfig {
            user: self.user.clone(),
            identifier: self.identifier.clone(),
            port: self.port,
            key: match &self.key {
                Some(k) => Some(k.clone()),
                None => None,
            },
            source: self.source.clone(),
            destination: self.destination.clone(),
            cron_schedule: match &self.cron_schedule {
                Some(c) => Some(c.clone()),
                None => None,
            },
        }
    }
}

/// What the operator typed into the form for a host, each field trimmed. An
/// empty field was skipped.
#[derive(Debug)]
pub struct HostAnswers {
    pub identifier: String,
    pub user: String,
    pub port: String,
    pub key: String,
    pub source: String,
    pub destination: String,
    pub cron_schedule: String,
}

/// The form's fields as plain values.
pub struct HostAnswersView {
    pub identifier: Seq<char>,
    pub user: Seq<char>,
    pub port: Seq<char>,
    pub key: Seq<char>,
    pub source: Seq<char>,
    pub destination: Seq<char>,
    pub cron_schedule: Seq<char>,
}

impl View for HostAnswers {
    type V = HostAnswersView;

    open spec fn view(&self) -> HostAnswersView {
        HostAnswersView {
            identifier: self.identifier@,
            user: self.user@,
            port: self.port@,
            key: self.key@,
            source: self.source@,
            destination: self.destination@,
            cron_schedule: self.cron_schedule@,
        }
    }
}

/// Whether `c` is a decimal digit.
pub open spec fn is_digit(c: char) -> bool {
    '0' <= c && c <= '9'
}

/// The number that a decimal digit stands for.
pub open spec fn digit_of(c: char) -> nat {
    if is_digit(c) {
        (c as nat - '0' as nat) as nat
    } else {
        0
    }
}

/// The number that a run of decimal digits spells.
pub open spec fn digits_value(s: Seq<char>) -> nat
    decreases s.len(),
{
    if s.len() == 0 {
        0
    } else {
        digits_value(s.drop_last()) * 10 + digit_of(s.last())
    }
}

/// Whether every character is a decimal digit.
pub open spec fn all_digits(s: Seq<char>) -> bool {
    forall|i: int| 0 <= i < s.len() ==> is_digit(#[trigger] s[i])
}

/// The digits of a number's text: the text without a leading `+`.
pub open spec fn unsigned_part(s: Seq<char>) -> Seq<char> {
    if s.len() > 0 && s[0] == '+' {
        s.skip(1)
    } else {
        s
    }
}

/// The port that `s` spells: an optional `+`, then at least one digit and
/// nothing else, for a number that a port can hold.
pub open spec fn port_of(s: Seq<char>) -> Option<u16> {
    let d = unsigned_part(s);
    if d.len() > 0 && all_digits(d) && digits_value(d) <= 0xffff {
        Some(digits_value(d) as u16)
    } else {
        None
    }
}

/// A run of digits spells no less than any run it starts with.
pub proof fn lemma_digits_monotone(s: Seq<char>, n: int)
    requires
        0 <= n <= s.len(),
    ensures
        digits_value(s.take(n)) <= digits_value(s),
    decreases s.len(),
{
    if n == s.len() {
        assert(s.take(n) =~= s);
    } else {
        assert(s.drop_last().take(n) =~= s.take(n));
        lemma_digits_monotone(s.drop_last(), n);
    }
}

/// Reads a port number.
pub fn parse_port(text: &str) -> (r: Option<u16>)
    ensures
        r == port_of(text@),
{
    let chars = chars_of(text);
    let start: usize = if chars.len() > 0 && chars[0] == '+' {
        1
    } else {
        0
    };
    let ghost d = unsigned_part(text@);
    assert(d =~= chars@.skip(start as int));
    if chars.len() == start {
        return None;
    }
    let mut value: u32 = 0;
    let mut i: usize = start;
    assert(d.take(0) =~= Seq::<char>::empty());
    while i < chars.len()
        invariant
            start <= i <= chars.len(),
            d == chars@.skip(start as int),
            d == unsigned_part(text@),
            value as nat == digits_value(d.take(i - start)),
            value <= 0xffff,
            all_digits(d.take(i - start)),
        decreases chars.len() - i,
    {
        let c = chars[i];
        proof {
            assert(d[i - start] == c);
            assert(d.take(i - start + 1).drop_last() =~= d.take(i - start));
            assert(d.take(i - start + 1).last() == c);
        }
        if !(c >= '0' && c <= '9') {
            assert(!all_digits(d));
            return None;
        }
        let digit: u32 = c as u32 - '0' as u32;
        value = value * 10 + digit;
        if value > 0xffff {
            proof {
                lemma_digits_monotone(d, i - start + 1);
            }
            return None;
        }
        i += 1;
    }
    assert(d.take(d.len() as int) =~= d);
    Some(value as u16)
}

/// The character of a decimal digit.
pub open spec fn digit_char(d: nat) -> char {
    if d == 0 {
        '0'
    } else if d == 1 {
        '1'
    } else if d == 2 {
        '2'
    } else if d == 3 {
        '3'
    } else if d == 4 {
        '4'
    } else if d == 5 {
        '5'
    } else if d == 6 {
        '6'
    } else if d == 7 {
        '7'
    } else if d == 8 {
        '8'
    } else {
        '9'
    }
}

/// A number in decimal, without leading zeros.
pub open spec fn decimal(n: nat) -> Seq<char>
    decreases n,
{
    if n < 10 {
        seq![digit_char(n)]
    } else {
        decimal(n / 10).push(digit_char(n % 10))
    }
}

/// The character of a decimal digit.
fn digit_to_char(d: u16) -> (c: char)
    requires
        d < 10,
    ensures
        c == digit_char(d as nat),
{
    match d {
        0 => '0',
        1 => '1',
        2 => '2',
        3 => '3',
        4 => '4',
        5 => '5',
        6 => '6',
        7 => '7',
        8 => '8',
        _ => '9',
    }
}

/// Appends a number in decimal.
fn push_decimal(out: &mut Vec<char>, n: u16)
    ensures
        final(out)@ == old(out)@ + decimal(n as nat),
    decreases n,
{
    if n < 10 {
        out.push(digit_to_char(n));
        assert(out@ =~= old(out)@ + decimal(n as nat));
    } else {
        push_decimal(out, n / 10);
        out.push(digit_to_char(n % 10));
        assert(out@ =~= old(out)@ + decimal(n as nat));
    }
}

/// A port number as text.
pub fn port_text(port: u16) -> (r: String)
    ensures
        r@ == decimal(port as nat),
{
    let mut out: Vec<char> = Vec::new();
    push_decimal(&mut out, port);
    assert(out@ =~= decimal(port as nat));
    string_of(&out)
}

/// A configuration as the console shows it, one field to a line, with the
/// defaults where the host names no port, key or schedule.
pub open spec fn config_text(config: HostConfigView) -> Seq<char> {
    "addr: "@ + config.identifier + "\nuser: "@ + config.user + "\nport: "@ + decimal(
        match config.port {
            Some(p) => p as nat,
            None => default_port() as nat,
        },
    ) + "\nkey Path: "@ + render_path(
        match config.key {
            Some(k) => k,
            None => default_key(),
        },
    ) + "\nsource: "@ + render_path(config.source) + "\ndestination: "@ + render_path(
        config.destination,
    ) + "\nfrequency (hrs): "@ + match config.cron_schedule {
        Some(c) => c,
        None => default_cron(),
    }
}

/// The text of a field of the form, or `prior` where the field was skipped.
pub open spec fn text_or(answer: Seq<char>, prior: Seq<char>) -> Seq<char> {
    if answer.len() == 0 {
        prior
    } else {
        answer
    }
}

/// The path that a field of the form spells, or `prior` where the field was
/// skipped.
pub open spec fn path_or(answer: Seq<char>, prior: Seq<Seq<char>>) -> Seq<Seq<char>> {
    if answer.len() == 0 {
        prior
    } else {
        parse_path(answer)
    }
}

/// The port of a changed host: the one typed, or the prior one, or the
/// default where there was none. Nothing where what was typed is no port.
pub open spec fn port_or(answer: Seq<char>, prior: Option<u16>) -> Option<u16> {
    if answer.len() == 0 {
        match prior {
            Some(p) => Some(p),
            None => Some(default_port()),
        }
    } else {
        port_of(answer)
    }
}

/// A configuration changed by the form: each field that was typed replaces
/// the prior value, each skipped field keeps it, and the defaults stand in
/// only where there was no prior value.
pub open spec fn changed_config(prior: HostConfigView, answers: HostAnswersView) -> HostConfigView {
    HostConfigView {
        user: text_or(answers.user, prior.user),
        identifier: text_or(answers.identifier, prior.identifier),
        port: port_or(answers.port, prior.port),
        key: Some(
            path_or(
                answers.key,
                match prior.key {
                    Some(k) => k,
                    None => default_key(),
                },
            ),
        ),
        source: path_or(answers.source, prior.source),
        destination: path_or(answers.destination, prior.destination),
        cron_schedule: Some(
            text_or(
                answers.cron_schedule,
                match prior.cron_schedule {
                    Some(c) => c,
                    None => default_cron(),
                },
            ),
        ),
    }
}

/// The configuration of a new host as the form gives it: every field as
/// typed, with the default port where none was typed.
pub open spec fn new_config(answers: HostAnswersView) -> HostConfigView {
    HostConfigView {
        user: answers.user,
        identifier: answers.identifier,
        port: port_or(answers.port, None),
        key: Some(parse_path(answers.key)),
        source: parse_path(answers.source),
        destination: parse_path(answers.destination),
        cron_schedule: Some(answers.cron_schedule),
    }
}

/// The text of a field of the form, or the prior text where it was skipped.
fn keep_or_take(answer: &String, prior: &String) -> (r: String)
    ensures
        r@ == text_or(answer@, prior@),
{
    if answer.as_str().is_empty() {
        prior.clone()
    } else {
        answer.clone()
    }
}

/// The path of a field of the form, or the prior path where it was skipped.
fn keep_or_parse(answer: &String, prior: &FilePath) -> (r: FilePath)
    ensures
        r@ == path_or(answer@, prior@),
{
    if answer.as_str().is_empty() {
        prior.clone()
    } else {
        FilePath::from(answer.as_str())
    }
}

impl HostConfig {
    /// The configuration with every field given.
    pub fn from(
        user: String,
        identifier: String,
        port: u16,
        key: FilePath,
        source: FilePath,
        destination: FilePath,
        cron_schedule: String,
    ) -> (r: Self)
        ensures
            r@ == (HostConfigView {
                user: user@,
                identifier: identifier@,
                port: Some(port),
                key: Some(key@),
                source: source@,
                destination: destination@,
                cron_schedule: Some(cron_schedule@),
            }),
    {
        HostConfig {
            user,
            identifier,
            port: Some(port),
            key: Some(key),
            source,
            destination,
            cron_schedule: Some(cron_schedule),
        }
    }

    /// The port to connect to.
    pub fn port_or_default(&self) -> (r: u16)
        ensures
            r == match self.port {
                Some(p) => p,
                None => default_port(),
            },
    {
        match self.port {
            Some(p) => p,
            None => 22,
        }
    }

    /// The private key to authenticate with.
    pub fn key_or_default(&self) -> (r: FilePath)
        ensures
            r@ == match self.key {
                Some(k) => k@,
                None => default_key(),
            },
    {
        match &self.key {
            Some(k) => k.clone(),
            None => FilePath::from("$HOME/.ssh/ed25519"),
        }
    }

    /// The cron expression by which the host falls due.
    pub fn cron_or_default(&self) -> (r: String)
        ensures
            r@ == match self.cron_schedule {
                Some(c) => c@,
                None => default_cron(),
            },
    {
        match &self.cron_schedule {
            Some(c) => c.clone(),
            None => String::from_str("0 0 * * *"),
        }
    }

    /// The address to connect to: the host's address, a colon, the port.
    pub fn endpoint(&self) -> (r: String)
        ensures
            r@ == self.identifier@ + ":"@ + decimal(
                match self.port {
                    Some(p) => p as nat,
                    None => default_port() as nat,
                },
            ),
    {
        let mut r = self.identifier.clone();
        r.append(":");
        r.append(port_text(self.port_or_default()).as_str());
        r
    }

    /// The configuration as the console shows it.
    pub fn describe(&self) -> (r: String)
        ensures
            r@ == config_text(self@),
    {
        let mut r = String::from_str("addr: ");
        r.append(self.identifier.as_str());
        r.append("\nuser: ");
        r.append(self.user.as_str());
        r.append("\nport: ");
        r.append(port_text(self.port_or_default()).as_str());
        r.append("\nkey Path: ");
        r.append(self.key_or_default().to_string().as_str());
        r.append("\nsource: ");
        r.append(self.source.to_string().as_str());
        r.append("\ndestination: ");
        r.append(self.destination.to_string().as_str());
        r.append("\nfrequency (hrs): ");
        r.append(self.cron_or_default().as_str());
        r
    }

    /// The configuration of a new host. Fails with `ReadInput` where the
    /// port that was typed is no port.
    pub fn from_answers(answers: &HostAnswers) -> (r: Result<HostConfig, Trap>)
        ensures
            r is Ok == new_config(answers@).port is Some,
            r is Ok ==> r->Ok_0@ == new_config(answers@),
            r is Err ==> r->Err_0 is ReadInput,
    {
        let port: u16 = if answers.port.as_str().is_empty() {
            22
        } else {
            match parse_port(answers.port.as_str()) {
                Some(p) => p,
                None => {
                    return Err(Trap::ReadInput(String::from_str("Could not read input: no port")));
                },
            }
        };
        Ok(
            HostConfig::from(
                answers.user.clone(),
                answers.identifier.clone(),
                port,
                FilePath::from(answers.key.as_str()),
                FilePath::from(answers.source.as_str()),
                FilePath::from(answers.destination.as_str()),
                answers.cron_schedule.clone(),
            ),
        )
    }

    /// This configuration changed by the form. Fails with `InvalidInput`
    /// where the port that was typed is no port.
    pub fn changed_by(&self, answers: &HostAnswers) -> (r: Result<HostConfig, Trap>)
        ensures
            r is Ok == changed_config(self@, answers@).port is Some,
            r is Ok ==> r->Ok_0@ == changed_config(self@, answers@),
            r is Err ==> r->Err_0 is InvalidInput,
    {
        let port: u16 = if answers.port.as_str().is_empty() {
            self.port_or_default()
        } else {
            match parse_port(answers.port.as_str()) {
                Some(p) => p,
                None => {
                    return Err(
                        Trap::InvalidInput(
                            String::from_str("Invalid input, please provide integer value (u16)"),
                        ),
                    );
                },
            }
        };
        let prior_key = self.key_or_default();
        let prior_cron = self.cron_or_default();
        Ok(
            HostConfig::from(
                keep_or_take(&answers.user, &self.user),
                keep_or_take(&answers.identifier, &self.identifier),
                port,
                keep_or_parse(&answers.key, &prior_key),
                keep_or_parse(&answers.source, &self.source),
                keep_or_parse(&answers.destination, &self.destination),
                keep_or_take(&answers.cron_schedule, &prior_cron),
            ),
        )
    }
}

/// A host: its name and its configuration.
#[derive(Debug)]
pub struct Host {
    pub hostname: String,
    pub config: HostConfig,
}

/// A host as plain values.
pub struct HostView {
    pub hostname: Seq<char>,
    pub config: HostConfigView,
}

impl View for Host {
    type V = HostView;

    open spec fn view(&self) -> HostView {
        HostView { hostname: self.hostname@, config: self.config@ }
    }
}

impl Clone for Host {
    fn clone(&self) -> (r: Self)
        ensures
            r@ == self@,
    {
        Host { hostname: self.hostname.clone(), config: self.config.clone() }
    }
}

/// The hosts as plain values, in the order of the hosts file.
pub open spec fn hosts_view(hosts: Seq<Host>) -> Seq<HostView> {
    Seq::new(hosts.len(), |i: int| hosts[i]@)
}

/// Index of the first host named `name`; the number of hosts where none is.
pub open spec fn first_named(hosts: Seq<HostView>, name: Seq<char>) -> int
    decreases hosts.len(),
{
    if hosts.len() == 0 {
        0
    } else if hosts[0].hostname == name {
        0
    } else {
        1 + first_named(hosts.skip(1), name)
    }
}

/// Whether some host is named `name`.
pub open spec fn has_host(hosts: Seq<HostView>, name: Seq<char>) -> bool {
    first_named(hosts, name) < hosts.len()
}

/// No two hosts share a name.
pub open spec fn unique_names(hosts: Seq<HostView>) -> bool {
    forall|i: int, j: int|
        0 <= i < j < hosts.len() ==> (#[trigger] hosts[i]).hostname != (#[trigger] hosts[j]).hostname
}

/// The first host named `name` lies within the table or right behind it, is
/// named `name` where it lies within, and no host before it is.
pub proof fn lemma_first_named(hosts: Seq<HostView>, name: Seq<char>)
    ensures
        0 <= first_named(hosts, name) <= hosts.len(),
        has_host(hosts, name) ==> hosts[first_named(hosts, name)].hostname == name,
        forall|i: int| 0 <= i < first_named(hosts, name) ==> (#[trigger] hosts[i]).hostname != name,
    decreases hosts.len(),
{
    if hosts.len() > 0 && hosts[0].hostname != name {
        lemma_first_named(hosts.skip(1), name);
        let n = first_named(hosts.skip(1), name);
        assert forall|i: int| 0 <= i < 1 + n implies (#[trigger] hosts[i]).hostname != name by {
            if i > 0 {
                assert(hosts.skip(1)[i - 1] == hosts[i]);
            }
        }
        if n < hosts.skip(1).len() {
            assert(hosts.skip(1)[n] == hosts[n + 1]);
        }
    }
}

/// The host table.
#[derive(Debug)]
pub struct Settings {
    pub hosts: Vec<Host>,
}

impl View for Settings {
    type V = Seq<HostView>;

    open spec fn view(&self) -> Seq<HostView> {
        hosts_view(self.hosts@)
    }
}

impl Settings {
    /// The table of the given hosts.
    pub fn new(hosts: Vec<Host>) -> (r: Self)
        ensures
            r.hosts == hosts,
    {
        Self { hosts }
    }

    /// No two hosts of the table share a name.
    pub open spec fn wf(&self) -> bool {
        unique_names(self@)
    }

    /// Whether no two hosts of the table share a name.
    pub fn has_unique_names(&self) -> (r: bool)
        ensures
            r == self.wf(),
    {
        let mut i: usize = 0;
        while i < self.hosts.len()
            invariant
                i <= self.hosts.len(),
                forall|a: int, b: int|
                    0 <= a < b < i ==> (#[trigger] self@[a]).hostname != (#[trigger] self@[b]).hostname,
            decreases self.hosts.len() - i,
        {
            let mut j: usize = 0;
            while j < i
                invariant
                    j <= i < self.hosts.len(),
                    forall|a: int| 0 <= a < j ==> (#[trigger] self@[a]).hostname != self@[i as int].hostname,
                decreases i - j,
            {
                if self.hosts[j].hostname == self.hosts[i].hostname {
                    assert(self@[j as int].hostname == self@[i as int].hostname);
                    return false;
                }
                j += 1;
            }
            i += 1;
        }
        true
    }

    /// Index of the first host named `hostname`, if there is one.
    pub fn position(&self, hostname: &String) -> (r: Option<usize>)
        ensures
            r is Some == has_host(self@, hostname@),
            r is Some ==> r->0 == first_named(self@, hostname@),
    {
        let mut i: usize = 0;
        assert(self@.skip(0) =~= self@);
        while i < self.hosts.len()
            invariant
                i <= self.hosts.len(),
                first_named(self@, hostname@) == i + first_named(self@.skip(i as int), hostname@),
            decreases self.hosts.len() - i,
        {
            assert(self@.skip(i as int)[0] == self.hosts[i as int]@);
            if self.hosts[i].hostname == *hostname {
                return Some(i);
            }
            assert(self@.skip(i as int).skip(1) =~= self@.skip(i + 1));
            i += 1;
        }
        None
    }

    /// The configuration of the host named `hostname`.
    pub fn associated_config(&self, hostname: &String) -> (r: Option<HostConfig>)
        ensures
            r is Some == has_host(self@, hostname@),
            r is Some ==> r->0@ == self@[first_named(self@, hostname@)].config,
    {
        match self.position(hostname) {
            Some(i) => Some(self.hosts[i].config.clone()),
            None => None,
        }
    }

    /// Adds a host. A hostname that is in use is refused with `InvalidInput`,
    /// and the table stays as it was.
    pub fn add_host(&mut self, hostname: String, config: HostConfig) -> (r: Result<(), Trap>)
        ensures
            r is Ok == !has_host(old(self)@, hostname@),
            r is Ok ==> final(self)@ == old(self)@.push(
                (HostView { hostname: hostname@, config: config@ }),
            ),
            r is Err ==> r->Err_0 is InvalidInput && final(self)@ == old(self)@,
            old(self).wf() ==> final(self).wf(),
    {
        if self.position(&hostname).is_some() {
            return Err(Trap::InvalidInput(String::from_str("Hostname already in use!")));
        }
        proof {
            lemma_first_named(self@, hostname@);
        }
        self.hosts.push(Host { hostname, config });
        assert(self@ =~= old(self)@.push((HostView { hostname: hostname@, config: config@ })));
        Ok(())
    }

    /// Removes the first host named `hostname`. Says whether there was one.
    pub fn del_host(&mut self, hostname: &String) -> (r: bool)
        ensures
            r == has_host(old(self)@, hostname@),
            r ==> final(self)@ == old(self)@.remove(first_named(old(self)@, hostname@)),
            !r ==> final(self)@ == old(self)@,
            old(self).wf() ==> final(self).wf(),
            old(self).wf() ==> !has_host(final(self)@, hostname@),
    {
        match self.position(hostname) {
            Some(i) => {
                let _ = self.hosts.remove(i);
                proof {
                    let was = old(self)@;
                    let now = self@;
                    assert(now =~= was.remove(i as int));
                    if unique_names(was) {
                        lemma_first_named(was, hostname@);
                        lemma_first_named(now, hostname@);
                        assert forall|a: int, b: int| 0 <= a < b < now.len() implies (
                        #[trigger] now[a]).hostname != (#[trigger] now[b]).hostname by {
                            let a2 = if a < i { a } else { a + 1 };
                            let b2 = if b < i { b } else { b + 1 };
                            assert(was[a2].hostname != was[b2].hostname);
                        }
                        if has_host(now, hostname@) {
                            let j = first_named(now, hostname@);
                            let j2 = if j < i { j } else { j + 1 };
                            assert(was[j2].hostname == hostname@);
                            if j2 < i {
                                assert(was[j2].hostname != was[i as int].hostname);
                            } else {
                                assert(was[i as int].hostname != was[j2].hostname);
                            }
                        }
                    }
                }
                true
            },
            None => false,
        }
    }

    /// Changes the host named `hostname` by the form: it leaves its place in
    /// the table and comes back last, with the changed configuration. Fails
    /// with `InvalidInput`, the table unchanged, where there is no such host
    /// or the port that was typed is no port.
    pub fn mod_host(&mut self, hostname: &String, answers: &HostAnswers) -> (r: Result<(), Trap>)
        ensures
            r is Ok == (has_host(old(self)@, hostname@) && changed_config(
                old(self)@[first_named(old(self)@, hostname@)].config,
                answers@,
            ).port is Some),
            r is Ok ==> final(self)@ == old(self)@.remove(first_named(old(self)@, hostname@)).push(
                (HostView {
                    hostname: hostname@,
                    config: changed_config(
                        old(self)@[first_named(old(self)@, hostname@)].config,
                        answers@,
                    ),
                }),
            ),
            r is Err ==> r->Err_0 is InvalidInput && final(self)@ == old(self)@,
    {
        let i = match self.position(hostname) {
            Some(i) => i,
            None => {
                return Err(Trap::InvalidInput(String::from_str("hostname was not found")));
            },
        };
        let config = match self.hosts[i].config.changed_by(answers) {
            Ok(config) => config,
            Err(trap) => {
                return Err(trap);
            },
        };
        let _ = self.hosts.remove(i);
        assert(self@ =~= old(self)@.remove(i as int));
        self.hosts.push(Host { hostname: hostname.clone(), config });
        assert(self@ =~= old(self)@.remove(i as int).push(
            (HostView { hostname: hostname@, config: config@ }),
        ));
        Ok(())
    }
}

} // verus!
