//! The command line and the daemon's socket protocol: which commands the `wired` client
//! accepts, the messages it sends for them, and how the daemon reads those messages back.
use vstd::prelude::*;
use crate::chars::{
    digits_value, chars_equal, chars_of, has_prefix_at, parse_unsigned, starts_with, string_from_chars,
    unsigned_numeral, all_digits, digit_value, unsigned_digits,
};

verus! {

/// Declares `std::io::Error` to the verifier, so that errors can carry one.
#[verifier::external_type_specification]
#[verifier::external_body]
pub struct ExIoError(std::io::Error);

/// What can go wrong with a command over the socket.
#[derive(Debug)]
pub enum CLIError {
    Parse(&'static str),
    NotificationNotFound,
    InvalidCommand,
    Socket(std::io::Error),
}

/// Whether the daemon should start after the command line has been handled.
#[derive(Debug, Clone, Copy, PartialEq, Eq, Structural)]
pub enum ShouldRun {
    Yes,
    No,
}

pub open spec fn lit_latest() -> Seq<char> {
    seq!['l', 'a', 't', 'e', 's', 't']
}

pub open spec fn lit_all() -> Seq<char> {
    seq!['a', 'l', 'l']
}

pub open spec fn lit_id() -> Seq<char> {
    seq!['i', 'd']
}

pub open spec fn lit_default() -> Seq<char> {
    seq!['d', 'e', 'f', 'a', 'u', 'l', 't']
}

pub open spec fn lit_drop() -> Seq<char> {
    seq!['d', 'r', 'o', 'p']
}

pub open spec fn lit_action() -> Seq<char> {
    seq!['a', 'c', 't', 'i', 'o', 'n']
}

pub open spec fn lit_show() -> Seq<char> {
    seq!['s', 'h', 'o', 'w']
}

pub open spec fn lit_dnd() -> Seq<char> {
    seq!['d', 'n', 'd']
}

pub open spec fn lit_kill() -> Seq<char> {
    seq!['k', 'i', 'l', 'l']
}

/// The words that switch do-not-disturb on.
pub open spec fn on_values() -> Seq<Seq<char>> {
    seq![
        seq!['o', 'n'],
        seq!['t', 'r', 'u', 'e'],
        seq!['1'],
        seq!['e', 'n', 'a', 'b', 'l', 'e'],
        seq!['a', 'c', 't', 'i', 'v', 'a', 't', 'e'],
        seq!['z', 'z', 'z'],
    ]
}

/// The words that switch do-not-disturb off.
pub open spec fn off_values() -> Seq<Seq<char>> {
    seq![
        seq!['o', 'f', 'f'],
        seq!['f', 'a', 'l', 's', 'e'],
        seq!['0'],
        seq!['d', 'i', 's', 'a', 'b', 'l', 'e'],
        seq!['d', 'e', 'a', 'c', 't', 'i', 'v', 'a', 't', 'e'],
    ]
}

fn on_values_exec() -> (v: Vec<Vec<char>>)
    ensures
        v@.map_values(|w: Vec<char>| w@) == on_values(),
{
    let v = vec![
        vec!['o', 'n'],
        vec!['t', 'r', 'u', 'e'],
        vec!['1'],
        vec!['e', 'n', 'a', 'b', 'l', 'e'],
        vec!['a', 'c', 't', 'i', 'v', 'a', 't', 'e'],
        vec!['z', 'z', 'z'],
    ];
    assert(v@[0]@ =~= on_values()[0]);
    assert(v@[1]@ =~= on_values()[1]);
    assert(v@[2]@ =~= on_values()[2]);
    assert(v@[3]@ =~= on_values()[3]);
    assert(v@[4]@ =~= on_values()[4]);
    assert(v@[5]@ =~= on_values()[5]);
    assert(v@.map_values(|w: Vec<char>| w@) =~= on_values());
    v
}

fn off_values_exec() -> (v: Vec<Vec<char>>)
    ensures
        v@.map_values(|w: Vec<char>| w@) == off_values(),
{
    let v = vec![
        vec!['o', 'f', 'f'],
        vec!['f', 'a', 'l', 's', 'e'],
        vec!['0'],
        vec!['d', 'i', 's', 'a', 'b', 'l', 'e'],
        vec!['d', 'e', 'a', 'c', 't', 'i', 'v', 'a', 't', 'e'],
    ];
    assert(v@[0]@ =~= off_values()[0]);
    assert(v@[1]@ =~= off_values()[1]);
    assert(v@[2]@ =~= off_values()[2]);
    assert(v@[3]@ =~= off_values()[3]);
    assert(v@[4]@ =~= off_values()[4]);
    assert(v@.map_values(|w: Vec<char>| w@) =~= off_values());
    v
}

fn member(words: &Vec<Vec<char>>, s: &Vec<char>) -> (b: bool)
    ensures
        b == words@.map_values(|w: Vec<char>| w@).contains(s@),
{
    let ghost ws = words@.map_values(|w: Vec<char>| w@);
    let mut i: usize = 0;
    while i < words.len()
        invariant
            ws == words@.map_values(|w: Vec<char>| w@),
            0 <= i <= words@.len(),
            forall|j: int| 0 <= j < i ==> ws[j] != s@,
        decreases words@.len() - i,
    {
        if chars_equal(&words[i], s) {
            assert(ws[i as int] == s@);
            return true;
        }
        i += 1;
    }
    false
}

/// Whether `s` is one of the words that switch do-not-disturb on.
pub fn is_on_value(s: &str) -> (b: bool)
    ensures
        b == on_values().contains(s@),
{
    member(&on_values_exec(), &chars_of(s))
}

/// Whether `s` is one of the words that switch do-not-disturb off.
pub fn is_off_value(s: &str) -> (b: bool)
    ensures
        b == off_values().contains(s@),
{
    member(&off_values_exec(), &chars_of(s))
}

/// The text `arg` written as a `u32`, if it is one.
pub open spec fn u32_numeral(s: Seq<char>) -> Option<nat> {
    unsigned_numeral(s, 10, u32::MAX as nat)
}

/// The text `arg` written as a `usize`, if it is one.
pub open spec fn usize_numeral(s: Seq<char>) -> Option<nat> {
    unsigned_numeral(s, 10, usize::MAX as nat)
}

pub open spec fn bad_id_message() -> &'static str {
    "Notification ID must be a valid unsigned integer."
}

pub open spec fn bad_identifier_message() -> &'static str {
    "Notification identifier must be either [latest], a valid notification ID (unsigned integer), or a valid notification index (usize)."
}

pub open spec fn bad_action_message() -> &'static str {
    "Notification action must be one of [default|1|2|3]."
}

/// Which notification identifiers the client accepts: `latest`, `all` where allowed,
/// `id` and a `u32`, or a `usize` index.
pub open spec fn identifier_check(input: Seq<char>, allow_all: bool) -> Result<(), &'static str> {
    if input == lit_latest() || (input == lit_all() && allow_all) {
        Ok(())
    } else if starts_with(input, lit_id()) {
        if u32_numeral(input.skip(2)) is Some {
            Ok(())
        } else {
            Err(bad_id_message())
        }
    } else if usize_numeral(input) is Some {
        Ok(())
    } else {
        Err(bad_identifier_message())
    }
}

fn chars_from(v: &Vec<char>, start: usize) -> (r: Vec<char>)
    requires
        start <= v@.len(),
    ensures
        r@ == v@.skip(start as int),
{
    let mut r: Vec<char> = Vec::new();
    let mut i: usize = start;
    while i < v.len()
        invariant
            start <= i <= v@.len(),
            r@ == v@.subrange(start as int, i as int),
        decreases v@.len() - i,
    {
        r.push(v[i]);
        assert(v@.subrange(start as int, i + 1) =~= v@.subrange(start as int, i as int).push(
            v@[i as int],
        ));
        i += 1;
    }
    assert(r@ =~= v@.skip(start as int));
    r
}

fn parse_u32_chars(v: &Vec<char>) -> (r: Option<u32>)
    ensures
        r matches Some(n) ==> u32_numeral(v@) == Some(n as nat),
        r is None ==> u32_numeral(v@) is None,
{
    match parse_unsigned(v, 10, u32::MAX as u64) {
        Some(n) => Some(n as u32),
        None => None,
    }
}

fn parse_usize_chars(v: &Vec<char>) -> (r: Option<usize>)
    ensures
        r matches Some(n) ==> usize_numeral(v@) == Some(n as nat),
        r is None ==> usize_numeral(v@) is None,
{
    match parse_unsigned(v, 10, usize::MAX as u64) {
        Some(n) => Some(n as usize),
        None => None,
    }
}

/// Checks a notification identifier given on the command line; see [`identifier_check`].
pub fn validate_identifier(input: &str, allow_all: bool) -> (r: Result<(), &'static str>)
    ensures
        r == identifier_check(input@, allow_all),
{
    let v = chars_of(input);
    if chars_equal(&v, &vec!['l', 'a', 't', 'e', 's', 't']) || (chars_equal(
        &v,
        &vec!['a', 'l', 'l'],
    ) && allow_all) {
        return Ok(());
    }
    if has_prefix_at(&v, 0, &vec!['i', 'd']) {
        proof {
            assert(v@.skip(0) =~= v@);
        }
        let rest = chars_from(&v, 2);
        return match parse_u32_chars(&rest) {
            Some(_) => Ok(()),
            None => Err("Notification ID must be a valid unsigned integer."),
        };
    }
    proof {
        assert(v@.skip(0) =~= v@);
    }
    match parse_usize_chars(&v) {
        Some(_) => Ok(()),
        None => Err(
            "Notification identifier must be either [latest], a valid notification ID (unsigned integer), or a valid notification index (usize).",
        ),
    }
}

/// The action names the client accepts: `default`, `1`, `2`, `3`.
pub open spec fn action_names() -> Seq<Seq<char>> {
    seq![lit_default(), seq!['1'], seq!['2'], seq!['3']]
}

/// Checks an action name given on the command line: one of `default`, `1`, `2`, `3`.
pub fn validate_action(input: &str) -> (r: Result<(), &'static str>)
    ensures
        action_names().contains(input@) ==> r == Ok::<(), &'static str>(()),
        !action_names().contains(input@) ==> r == Err::<(), &'static str>(bad_action_message()),
{
    let names = vec![
        vec!['d', 'e', 'f', 'a', 'u', 'l', 't'],
        vec!['1'],
        vec!['2'],
        vec!['3'],
    ];
    assert(names@[0]@ =~= action_names()[0]);
    assert(names@[1]@ =~= action_names()[1]);
    assert(names@[2]@ =~= action_names()[2]);
    assert(names@[3]@ =~= action_names()[3]);
    assert(names@.map_values(|w: Vec<char>| w@) =~= action_names());
    if member(&names, &chars_of(input)) {
        Ok(())
    } else {
        Err("Notification action must be one of [default|1|2|3].")
    }
}

/// `i` is the first index of `s` that holds `c`.
pub open spec fn first_char_at(s: Seq<char>, c: char, i: int) -> bool {
    0 <= i < s.len() && s[i] == c && forall|j: int| 0 <= j < i ==> s[j] != c
}

/// `s` split at the first `c`: the text before it and the text after it.
pub open spec fn split_once(s: Seq<char>, c: char) -> Option<(Seq<char>, Seq<char>)> {
    if exists|i: int| first_char_at(s, c, i) {
        let i = choose|i: int| first_char_at(s, c, i);
        Some((s.take(i), s.skip(i + 1)))
    } else {
        None
    }
}

fn split_once_exec(v: &Vec<char>, c: char) -> (r: Option<(Vec<char>, Vec<char>)>)
    ensures
        r matches Some(p) ==> split_once(v@, c) == Some((p.0@, p.1@)),
        r is None ==> split_once(v@, c) is None,
{
    let mut i: usize = 0;
    while i < v.len()
        invariant
            0 <= i <= v@.len(),
            forall|j: int| 0 <= j < i ==> v@[j] != c,
        decreases v@.len() - i,
    {
        if v[i] == c {
            assert(first_char_at(v@, c, i as int));
            proof {
                let k = choose|k: int| first_char_at(v@, c, k);
                assert(k == i) by {
                    if k < i {
                        assert(v@[k] != c);
                    } else if i < k {
                        assert(v@[i as int] != c);
                    }
                }
            }
            let mut head: Vec<char> = Vec::new();
            let mut m: usize = 0;
            while m < i
                invariant
                    0 <= m <= i < v@.len(),
                    head@ == v@.take(m as int),
                decreases i - m,
            {
                head.push(v[m]);
                assert(v@.take(m + 1) =~= v@.take(m as int).push(v@[m as int]));
                m += 1;
            }
            let tail = chars_from(v, i + 1);
            return Some((head, tail));
        }
        i += 1;
    }
    assert(!exists|k: int| first_char_at(v@, c, k));
    None
}

/// Which notification a socket command names.
#[derive(Debug, Clone, Copy, PartialEq, Eq, Structural)]
pub enum WindowSelector {
    /// The most recent notification.
    Latest,
    /// The notification with this identifier.
    Id(u32),
    /// The `n`-th most recent notification: 0 is the newest, 1 the one before it.
    Index(usize),
}

pub open spec fn bad_selector_id_message() -> &'static str {
    "ID is not of type u32."
}

pub open spec fn bad_selector_message() -> &'static str {
    "Value must be one of latest, id<u32>, or <usize>."
}

/// The notification that socket argument `arg` names: `latest`, `id` and a `u32`, or a
/// `usize` position.
pub open spec fn window_selector_of(arg: Seq<char>) -> Result<WindowSelector, CLIError> {
    if arg == lit_latest() {
        Ok(WindowSelector::Latest)
    } else if starts_with(arg, lit_id()) {
        match u32_numeral(arg.skip(2)) {
            Some(n) => Ok(WindowSelector::Id(n as u32)),
            None => Err(CLIError::Parse(bad_selector_id_message())),
        }
    } else {
        match usize_numeral(arg) {
            Some(n) => Ok(WindowSelector::Index(n as usize)),
            None => Err(CLIError::Parse(bad_selector_message())),
        }
    }
}

fn window_selector_from(v: &Vec<char>) -> (r: Result<WindowSelector, CLIError>)
    ensures
        r == window_selector_of(v@),
{
    if chars_equal(v, &vec!['l', 'a', 't', 'e', 's', 't']) {
        return Ok(WindowSelector::Latest);
    }
    proof {
        assert(v@.skip(0) =~= v@);
    }
    if has_prefix_at(v, 0, &vec!['i', 'd']) {
        let rest = chars_from(v, 2);
        match parse_u32_chars(&rest) {
            Some(n) => Ok(WindowSelector::Id(n)),
            None => Err(CLIError::Parse("ID is not of type u32.")),
        }
    } else {
        match parse_usize_chars(v) {
            Some(n) => Ok(WindowSelector::Index(n)),
            None => Err(CLIError::Parse("Value must be one of latest, id<u32>, or <usize>.")),
        }
    }
}

/// Reads the notification that socket argument `arg` names; see [`window_selector_of`].
pub fn parse_window_selector(arg: &str) -> (r: Result<WindowSelector, CLIError>)
    ensures
        r == window_selector_of(arg@),
{
    window_selector_from(&chars_of(arg))
}

/// A command that the daemon reads from its socket, as text.
pub enum SpecSocketCommand {
    DropAll,
    Drop(WindowSelector),
    Action(WindowSelector, Seq<char>),
    ShowId(u32),
    ShowLast(usize),
    Dnd(Option<bool>),
    Kill,
}

/// A command that the daemon reads from its socket.
#[derive(Debug)]
pub enum SocketCommand {
    /// Close every notification.
    DropAll,
    /// Close one notification.
    Drop(WindowSelector),
    /// Invoke an action of a notification; the action slot is still text.
    Action(WindowSelector, String),
    /// Show again the notification with this identifier from the history.
    ShowId(u32),
    /// Show again this many of the most recent notifications from the history.
    ShowLast(usize),
    /// Switch do-not-disturb on or off; `None` for a word that is neither.
    Dnd(Option<bool>),
    /// Stop the daemon.
    Kill,
}

impl View for SocketCommand {
    type V = SpecSocketCommand;

    open spec fn view(&self) -> SpecSocketCommand {
        match self {
            SocketCommand::DropAll => SpecSocketCommand::DropAll,
            SocketCommand::Drop(w) => SpecSocketCommand::Drop(*w),
            SocketCommand::Action(w, a) => SpecSocketCommand::Action(*w, a@),
            SocketCommand::ShowId(n) => SpecSocketCommand::ShowId(*n),
            SocketCommand::ShowLast(n) => SpecSocketCommand::ShowLast(*n),
            SocketCommand::Dnd(b) => SpecSocketCommand::Dnd(*b),
            SocketCommand::Kill => SpecSocketCommand::Kill,
        }
    }
}

pub open spec fn malformed_command_message() -> &'static str {
    "Malformed command."
}

pub open spec fn malformed_action_message() -> &'static str {
    "Malformed action request."
}

pub open spec fn not_u32_message() -> &'static str {
    "Value is not of type u32."
}

pub open spec fn not_usize_message() -> &'static str {
    "Value is not of type usize."
}

/// The do-not-disturb setting that word `args` asks for.
pub open spec fn dnd_setting(args: Seq<char>) -> Option<bool> {
    if on_values().contains(args) {
        Some(true)
    } else if off_values().contains(args) {
        Some(false)
    } else {
        None
    }
}

/// The `show` command with arguments `args`: `id` and a `u32`, or a `usize` count.
pub open spec fn show_command_of(args: Seq<char>) -> Result<SpecSocketCommand, CLIError> {
    if starts_with(args, lit_id()) {
        match u32_numeral(args.skip(2)) {
            Some(n) => Ok(SpecSocketCommand::ShowId(n as u32)),
            None => Err(CLIError::Parse(not_u32_message())),
        }
    } else {
        match usize_numeral(args) {
            Some(n) => Ok(SpecSocketCommand::ShowLast(n as usize)),
            None => Err(CLIError::Parse(not_usize_message())),
        }
    }
}

/// The `action` command with arguments `args`: a notification and an action slot,
/// separated by `,`.
pub open spec fn action_command_of(args: Seq<char>) -> Result<SpecSocketCommand, CLIError> {
    match split_once(args, ',') {
        None => Err(CLIError::Parse(malformed_action_message())),
        Some((n, a)) => match window_selector_of(n) {
            Ok(w) => Ok(SpecSocketCommand::Action(w, a)),
            Err(e) => Err(e),
        },
    }
}

/// The `drop` command with arguments `args`: `all`, or a notification.
pub open spec fn drop_command_of(args: Seq<char>) -> Result<SpecSocketCommand, CLIError> {
    if args == lit_all() {
        Ok(SpecSocketCommand::DropAll)
    } else {
        match window_selector_of(args) {
            Ok(w) => Ok(SpecSocketCommand::Drop(w)),
            Err(e) => Err(e),
        }
    }
}

/// The command `command` with arguments `args`.
pub open spec fn command_of(command: Seq<char>, args: Seq<char>) -> Result<
    SpecSocketCommand,
    CLIError,
> {
    if command == lit_drop() {
        drop_command_of(args)
    } else if command == lit_action() {
        action_command_of(args)
    } else if command == lit_show() {
        show_command_of(args)
    } else if command == lit_dnd() {
        Ok(SpecSocketCommand::Dnd(dnd_setting(args)))
    } else if command == lit_kill() {
        Ok(SpecSocketCommand::Kill)
    } else {
        Err(CLIError::InvalidCommand)
    }
}

/// The command in one line read from the socket: `command:arguments`, where the command is
/// `drop`, `action`, `show`, `dnd` or `kill`.
pub open spec fn socket_command_of(line: Seq<char>) -> Result<SpecSocketCommand, CLIError> {
    match split_once(line, ':') {
        None => Err(CLIError::Parse(malformed_command_message())),
        Some((command, args)) => command_of(command, args),
    }
}

/// Reads one line from the socket; see [`socket_command_of`].
pub fn parse_socket_command(line: &str) -> (r: Result<SocketCommand, CLIError>)
    ensures
        r matches Ok(c) ==> socket_command_of(line@) == Ok::<SpecSocketCommand, CLIError>(c@),
        r matches Err(e) ==> socket_command_of(line@) == Err::<SpecSocketCommand, CLIError>(e),
{
    let v = chars_of(line);
    let (command, args) = match split_once_exec(&v, ':') {
        Some(p) => p,
        None => {
            return Err(CLIError::Parse("Malformed command."));
        },
    };
    proof {
        assert(args@.skip(0) =~= args@);
    }
    if chars_equal(&command, &vec!['d', 'r', 'o', 'p']) {
        if chars_equal(&args, &vec!['a', 'l', 'l']) {
            Ok(SocketCommand::DropAll)
        } else {
            match window_selector_from(&args) {
                Ok(w) => Ok(SocketCommand::Drop(w)),
                Err(e) => Err(e),
            }
        }
    } else if chars_equal(&command, &vec!['a', 'c', 't', 'i', 'o', 'n']) {
        match split_once_exec(&args, ',') {
            None => Err(CLIError::Parse("Malformed action request.")),
            Some((n, a)) => match window_selector_from(&n) {
                Ok(w) => Ok(SocketCommand::Action(w, string_from_chars(&a))),
                Err(e) => Err(e),
            },
        }
    } else if chars_equal(&command, &vec!['s', 'h', 'o', 'w']) {
        if has_prefix_at(&args, 0, &vec!['i', 'd']) {
            let rest = chars_from(&args, 2);
            match parse_u32_chars(&rest) {
                Some(n) => Ok(SocketCommand::ShowId(n)),
                None => Err(CLIError::Parse("Value is not of type u32.")),
            }
        } else {
            match parse_usize_chars(&args) {
                Some(n) => Ok(SocketCommand::ShowLast(n)),
                None => Err(CLIError::Parse("Value is not of type usize.")),
            }
        }
    } else if chars_equal(&command, &vec!['d', 'n', 'd']) {
        let on = member(&on_values_exec(), &args);
        let setting = if on {
            Some(true)
        } else if member(&off_values_exec(), &args) {
            Some(false)
        } else {
            None
        };
        Ok(SocketCommand::Dnd(setting))
    } else if chars_equal(&command, &vec!['k', 'i', 'l', 'l']) {
        Ok(SocketCommand::Kill)
    } else {
        Err(CLIError::InvalidCommand)
    }
}

/// The action slot that the text of an action command names, as a number.
pub fn parse_action_index(action: &str) -> (r: Result<usize, CLIError>)
    ensures
        r matches Ok(n) ==> usize_numeral(action@) == Some(n as nat),
        r matches Err(e) ==> usize_numeral(action@) is None && e == CLIError::Parse(
            not_usize_message(),
        ),
{
    match parse_usize_chars(&chars_of(action)) {
        Some(n) => Ok(n),
        None => Err(CLIError::Parse("Value is not of type usize.")),
    }
}


pub open spec fn missing_colon_message() -> &'static str {
    "Missing ':' in action argument.\nNotification and action arguments must be in the format of [latest|N]:[default|1|2|3]"
}

pub open spec fn bad_dnd_message() -> &'static str {
    "The DND flag takes a bool argument, but I didn't recognize any.\nAllowed values are: on|off true|false 1|0 enable|disable"
}

/// `word:` followed by `args`.
pub open spec fn command_line(word: Seq<char>, args: Seq<char>) -> Seq<char> {
    word + seq![':'] + args
}

/// The message that `--kill` sends.
pub open spec fn kill_message() -> Seq<char> {
    command_line(lit_kill(), Seq::empty())
}

/// The message that `--drop d` sends, or why `d` is refused.
pub open spec fn drop_message(d: Seq<char>) -> Result<Seq<char>, &'static str> {
    match identifier_check(d, true) {
        Ok(_) => Ok(command_line(lit_drop(), d)),
        Err(e) => Err(e),
    }
}

/// The message that `--action a` sends, or why `a` is refused: `a` is a notification
/// identifier and an action name, separated by `:`.
pub open spec fn action_message(a: Seq<char>) -> Result<Seq<char>, &'static str> {
    match split_once(a, ':') {
        None => Err(missing_colon_message()),
        Some((n, x)) => match identifier_check(n, false) {
            Err(e) => Err(e),
            Ok(_) => if action_names().contains(x) {
                Ok(command_line(lit_action(), n + seq![','] + x))
            } else {
                Err(bad_action_message())
            },
        },
    }
}

/// The message that `--dnd z` sends, or why `z` is refused.
pub open spec fn dnd_message(z: Seq<char>) -> Result<Seq<char>, &'static str> {
    if on_values().contains(z) || off_values().contains(z) {
        Ok(command_line(lit_dnd(), z))
    } else {
        Err(bad_dnd_message())
    }
}

/// The message that `--show s` sends, or why `s` is refused.
pub open spec fn show_message(s: Seq<char>) -> Result<Seq<char>, &'static str> {
    match identifier_check(s, false) {
        Ok(_) => Ok(command_line(lit_show(), s)),
        Err(e) => Err(e),
    }
}

/// One more option handled: once an option is refused, nothing further is sent.
pub open spec fn plan_step(
    acc: (Seq<Seq<char>>, Option<&'static str>),
    step: Option<Result<Seq<char>, &'static str>>,
) -> (Seq<Seq<char>>, Option<&'static str>) {
    if acc.1 is Some {
        acc
    } else {
        match step {
            None => acc,
            Some(Ok(m)) => (acc.0.push(m), None),
            Some(Err(e)) => (acc.0, Some(e)),
        }
    }
}

pub open spec fn opt_step(
    o: Option<Seq<char>>,
    f: spec_fn(Seq<char>) -> Result<Seq<char>, &'static str>,
) -> Option<Result<Seq<char>, &'static str>> {
    match o {
        Some(x) => Some(f(x)),
        None => None,
    }
}

/// What the `wired` command does with its options, as text.
pub enum SpecCliPlan {
    Run,
    PrintUsage,
    PrintVersion,
    Send(Seq<Seq<char>>, Option<&'static str>),
    Done,
}

/// What the `wired` command does with its options.
#[derive(Debug)]
pub enum CliPlan {
    /// Start the daemon.
    Run,
    /// Print the usage text and stop.
    PrintUsage,
    /// Print the version and stop.
    PrintVersion,
    /// Connect to the daemon's socket and write these messages in order; then stop, with
    /// this error if an option was refused.
    Send(Vec<String>, Option<&'static str>),
    /// Stop.
    Done,
}

impl View for CliPlan {
    type V = SpecCliPlan;

    open spec fn view(&self) -> SpecCliPlan {
        match self {
            CliPlan::Run => SpecCliPlan::Run,
            CliPlan::PrintUsage => SpecCliPlan::PrintUsage,
            CliPlan::PrintVersion => SpecCliPlan::PrintVersion,
            CliPlan::Send(m, e) => SpecCliPlan::Send(m@.map_values(|x: String| x@), *e),
            CliPlan::Done => SpecCliPlan::Done,
        }
    }
}

/// What the `wired` command does: with no options it runs; `--help` and `--version` print
/// and stop; `--run` runs; otherwise `--kill`, `--drop`, `--action`, `--dnd`, `--show`, in
/// that order, each become one message to the daemon, until one is refused.
pub open spec fn cli_plan(
    arg_count: nat,
    help: bool,
    version: bool,
    run: bool,
    kill: bool,
    drop: Option<Seq<char>>,
    action: Option<Seq<char>>,
    dnd: Option<Seq<char>>,
    show: Option<Seq<char>>,
) -> SpecCliPlan {
    if arg_count == 1 {
        SpecCliPlan::Run
    } else if help {
        SpecCliPlan::PrintUsage
    } else if version {
        SpecCliPlan::PrintVersion
    } else if run {
        SpecCliPlan::Run
    } else if !(kill || drop is Some || action is Some || dnd is Some || show is Some) {
        SpecCliPlan::Done
    } else {
        let a0: (Seq<Seq<char>>, Option<&'static str>) = (Seq::empty(), None);
        let a1 = plan_step(
            a0,
            if kill {
                Some(Ok(kill_message()))
            } else {
                None
            },
        );
        let a2 = plan_step(a1, opt_step(drop, |d: Seq<char>| drop_message(d)));
        let a3 = plan_step(a2, opt_step(action, |a: Seq<char>| action_message(a)));
        let a4 = plan_step(a3, opt_step(dnd, |z: Seq<char>| dnd_message(z)));
        let a5 = plan_step(a4, opt_step(show, |x: Seq<char>| show_message(x)));
        SpecCliPlan::Send(a5.0, a5.1)
    }
}

fn line_with(word: Vec<char>, args: &Vec<char>) -> (r: String)
    ensures
        r@ == command_line(word@, args@),
{
    let mut out = word;
    let ghost w = out@;
    out.push(':');
    let mut i: usize = 0;
    while i < args.len()
        invariant
            0 <= i <= args@.len(),
            out@ == w + seq![':'] + args@.take(i as int),
        decreases args@.len() - i,
    {
        out.push(args[i]);
        assert(args@.take(i + 1) =~= args@.take(i as int).push(args@[i as int]));
        i += 1;
    }
    assert(args@.take(i as int) =~= args@);
    string_from_chars(&out)
}

fn drop_message_exec(d: &String) -> (r: Result<String, &'static str>)
    ensures
        r matches Ok(m) ==> drop_message(d@) == Ok::<Seq<char>, &'static str>(m@),
        r matches Err(e) ==> drop_message(d@) == Err::<Seq<char>, &'static str>(e),
{
    match validate_identifier(d.as_str(), true) {
        Ok(_) => Ok(line_with(vec!['d', 'r', 'o', 'p'], &chars_of(d.as_str()))),
        Err(e) => Err(e),
    }
}

fn action_message_exec(a: &String) -> (r: Result<String, &'static str>)
    ensures
        r matches Ok(m) ==> action_message(a@) == Ok::<Seq<char>, &'static str>(m@),
        r matches Err(e) ==> action_message(a@) == Err::<Seq<char>, &'static str>(e),
{
    let v = chars_of(a.as_str());
    match split_once_exec(&v, ':') {
        None => Err(
            "Missing ':' in action argument.\nNotification and action arguments must be in the format of [latest|N]:[default|1|2|3]",
        ),
        Some((n, x)) => {
            let ns = string_from_chars(&n);
            match validate_identifier(ns.as_str(), false) {
                Err(e) => Err(e),
                Ok(_) => {
                    let xs = string_from_chars(&x);
                    match validate_action(xs.as_str()) {
                        Err(e) => Err(e),
                        Ok(_) => {
                            let mut args = n;
                            let ghost nn = args@;
                            args.push(',');
                            let mut i: usize = 0;
                            while i < x.len()
                                invariant
                                    0 <= i <= x@.len(),
                                    args@ == nn + seq![','] + x@.take(i as int),
                                decreases x@.len() - i,
                            {
                                args.push(x[i]);
                                assert(x@.take(i + 1) =~= x@.take(i as int).push(x@[i as int]));
                                i += 1;
                            }
                            assert(x@.take(i as int) =~= x@);
                            Ok(line_with(vec!['a', 'c', 't', 'i', 'o', 'n'], &args))
                        },
                    }
                },
            }
        },
    }
}

fn dnd_message_exec(z: &String) -> (r: Result<String, &'static str>)
    ensures
        r matches Ok(m) ==> dnd_message(z@) == Ok::<Seq<char>, &'static str>(m@),
        r matches Err(e) ==> dnd_message(z@) == Err::<Seq<char>, &'static str>(e),
{
    if is_on_value(z.as_str()) || is_off_value(z.as_str()) {
        Ok(line_with(vec!['d', 'n', 'd'], &chars_of(z.as_str())))
    } else {
        Err(
            "The DND flag takes a bool argument, but I didn't recognize any.\nAllowed values are: on|off true|false 1|0 enable|disable",
        )
    }
}

fn show_message_exec(s: &String) -> (r: Result<String, &'static str>)
    ensures
        r matches Ok(m) ==> show_message(s@) == Ok::<Seq<char>, &'static str>(m@),
        r matches Err(e) ==> show_message(s@) == Err::<Seq<char>, &'static str>(e),
{
    match validate_identifier(s.as_str(), false) {
        Ok(_) => Ok(line_with(vec!['s', 'h', 'o', 'w'], &chars_of(s.as_str()))),
        Err(e) => Err(e),
    }
}

fn apply_step(
    messages: &mut Vec<String>,
    error: &mut Option<&'static str>,
    step: Option<Result<String, &'static str>>,
)
    ensures
        (final(messages)@.map_values(|x: String| x@), *final(error)) == plan_step(
            (old(messages)@.map_values(|x: String| x@), *old(error)),
            match step {
                None => None,
                Some(Ok(m)) => Some(Ok::<Seq<char>, &'static str>(m@)),
                Some(Err(e)) => Some(Err::<Seq<char>, &'static str>(e)),
            },
        ),
{
    if error.is_some() {
        return;
    }
    match step {
        None => {},
        Some(Ok(m)) => {
            let ghost before = messages@.map_values(|x: String| x@);
            let ghost mv = m@;
            messages.push(m);
            assert(messages@.map_values(|x: String| x@) =~= before.push(mv));
        },
        Some(Err(e)) => {
            *error = Some(e);
        },
    }
}

/// Decides what the `wired` command does with its options; see [`cli_plan`].
/// `arg_count` counts the program name too.
pub fn process_cli(
    arg_count: usize,
    help: bool,
    version: bool,
    run: bool,
    kill: bool,
    drop: Option<String>,
    action: Option<String>,
    dnd: Option<String>,
    show: Option<String>,
) -> (plan: CliPlan)
    ensures
        plan@ == cli_plan(
            arg_count as nat,
            help,
            version,
            run,
            kill,
            match drop {
                Some(x) => Some(x@),
                None => None,
            },
            match action {
                Some(x) => Some(x@),
                None => None,
            },
            match dnd {
                Some(x) => Some(x@),
                None => None,
            },
            match show {
                Some(x) => Some(x@),
                None => None,
            },
        ),
{
    if arg_count == 1 {
        return CliPlan::Run;
    }
    if help {
        return CliPlan::PrintUsage;
    }
    if version {
        return CliPlan::PrintVersion;
    }
    if run {
        return CliPlan::Run;
    }
    if !(kill || drop.is_some() || action.is_some() || dnd.is_some() || show.is_some()) {
        return CliPlan::Done;
    }
    let mut messages: Vec<String> = Vec::new();
    let mut error: Option<&'static str> = None;
    proof {
        assert(messages@.map_values(|x: String| x@) =~= Seq::<Seq<char>>::empty());
    }
    let no_args: Vec<char> = Vec::new();
    let kill_step = if kill {
        Some(Ok(line_with(vec!['k', 'i', 'l', 'l'], &no_args)))
    } else {
        None
    };
    apply_step(&mut messages, &mut error, kill_step);
    let drop_step = match &drop {
        Some(d) => Some(drop_message_exec(d)),
        None => None,
    };
    apply_step(&mut messages, &mut error, drop_step);
    let action_step = match &action {
        Some(a) => Some(action_message_exec(a)),
        None => None,
    };
    apply_step(&mut messages, &mut error, action_step);
    let dnd_step = match &dnd {
        Some(z) => Some(dnd_message_exec(z)),
        None => None,
    };
    apply_step(&mut messages, &mut error, dnd_step);
    let show_step = match &show {
        Some(x) => Some(show_message_exec(x)),
        None => None,
    };
    apply_step(&mut messages, &mut error, show_step);
    CliPlan::Send(messages, error)
}


proof fn lemma_split_after_word(word: Seq<char>, sep: char, rest: Seq<char>)
    requires
        forall|i: int| 0 <= i < word.len() ==> word[i] != sep,
    ensures
        split_once(word + seq![sep] + rest, sep) == Some((word, rest)),
{
    let s = word + seq![sep] + rest;
    assert(s[word.len() as int] == sep);
    assert forall|j: int| 0 <= j < word.len() implies s[j] != sep by {
        assert(s[j] == word[j]);
    }
    assert(first_char_at(s, sep, word.len() as int));
    let k = choose|k: int| first_char_at(s, sep, k);
    assert(k == word.len()) by {
        if k < word.len() {
            assert(s[k] == word[k]);
        } else if k > word.len() {
            assert(s[word.len() as int] != sep);
        }
    }
    assert(s.take(k) =~= word);
    assert(s.skip(k + 1) =~= rest);
}

proof fn lemma_numeral_chars(t: Seq<char>, max: nat, c: char)
    requires
        unsigned_numeral(t, 10, max) is Some,
        c != '+',
        !('0' <= c && c <= '9'),
    ensures
        forall|i: int| 0 <= i < t.len() ==> t[i] != c,
{
    let d = unsigned_digits(t);
    assert forall|i: int| 0 <= i < t.len() implies t[i] != c by {
        if t.len() > 0 && t[0] == '+' {
            if i > 0 {
                assert(t[i] == d[i - 1]);
                assert(digit_value(d[i - 1], 10) is Some);
            }
        } else {
            assert(t[i] == d[i]);
            assert(digit_value(d[i], 10) is Some);
        }
    }
}

proof fn lemma_identifier_has_no_comma(n: Seq<char>, allow_all: bool)
    requires
        identifier_check(n, allow_all) is Ok,
    ensures
        forall|i: int| 0 <= i < n.len() ==> n[i] != ',',
{
    if n == lit_latest() || n == lit_all() {
    } else if starts_with(n, lit_id()) {
        lemma_numeral_chars(n.skip(2), u32::MAX as nat, ',');
        assert forall|i: int| 0 <= i < n.len() implies n[i] != ',' by {
            if i < 2 {
                assert(n.take(2)[i] == lit_id()[i]);
            } else {
                assert(n[i] == n.skip(2)[i - 2]);
            }
        }
    } else {
        lemma_numeral_chars(n, usize::MAX as nat, ',');
    }
}

proof fn lemma_words_have_no_colon()
    ensures
        forall|i: int| 0 <= i < lit_drop().len() ==> lit_drop()[i] != ':',
        forall|i: int| 0 <= i < lit_action().len() ==> lit_action()[i] != ':',
        forall|i: int| 0 <= i < lit_show().len() ==> lit_show()[i] != ':',
        forall|i: int| 0 <= i < lit_dnd().len() ==> lit_dnd()[i] != ':',
        forall|i: int| 0 <= i < lit_kill().len() ==> lit_kill()[i] != ':',
{
}

/// What `--kill` sends, the daemon reads as the kill command.
pub proof fn kill_message_is_read_back()
    ensures
        socket_command_of(kill_message()) == Ok::<SpecSocketCommand, CLIError>(
            SpecSocketCommand::Kill,
        ),
{
    lemma_words_have_no_colon();
    lemma_split_after_word(lit_kill(), ':', Seq::empty());
    assert(lit_kill() != lit_drop());
    assert(lit_kill() != lit_action());
    assert(lit_kill() != lit_show());
    assert(lit_kill() != lit_dnd());
}

/// What `--drop d` sends, the daemon reads as dropping the notification that `d` names.
pub proof fn drop_message_is_read_back(d: Seq<char>)
    requires
        drop_message(d) is Ok,
    ensures
        d == lit_all() ==> socket_command_of(command_line(lit_drop(), d)) == Ok::<
            SpecSocketCommand,
            CLIError,
        >(SpecSocketCommand::DropAll),
        d != lit_all() ==> (window_selector_of(d) matches Ok(w) && socket_command_of(
            command_line(lit_drop(), d),
        ) == Ok::<SpecSocketCommand, CLIError>(SpecSocketCommand::Drop(w))),
{
    lemma_words_have_no_colon();
    lemma_split_after_word(lit_drop(), ':', d);
}

proof fn lemma_action_slot_numeral(x: Seq<char>)
    requires
        action_names().contains(x),
    ensures
        usize_numeral(x) is Some <==> x != lit_default(),
{
    let k = choose|k: int| 0 <= k < action_names().len() && action_names()[k] == x;
    if k == 0 {
        assert(x == lit_default());
        assert(digit_value(x[0], 10) is None);
        assert(unsigned_digits(x) == x);
        assert(!all_digits(x, 10));
    } else {
        assert(x.len() == 1);
        assert(unsigned_digits(x) == x);
        assert(x.drop_last() =~= Seq::<char>::empty());
        assert(digit_value(x[0], 10) is Some);
        assert(all_digits(x, 10));
        assert(digits_value(x.drop_last(), 10) == 0);
        assert(digits_value(x, 10) <= 9);
        assert(x != lit_default());
    }
}

/// What `--action a` sends, the daemon reads as invoking action `x` of the notification
/// that `n` names, where `a` is `n:x`; the daemon then reads `x` as a slot number unless it
/// is `default`.
pub proof fn action_message_is_read_back(a: Seq<char>)
    requires
        action_message(a) is Ok,
    ensures
        split_once(a, ':') matches Some((n, x)) && window_selector_of(n) matches Ok(w)
            && socket_command_of(command_line(lit_action(), n + seq![','] + x)) == Ok::<
            SpecSocketCommand,
            CLIError,
        >(SpecSocketCommand::Action(w, x)) && (usize_numeral(x) is Some <==> x
            != lit_default()),
{
    let (n, x) = split_once(a, ':').unwrap();
    let args = n + seq![','] + x;
    let line = command_line(lit_action(), args);
    lemma_words_have_no_colon();
    lemma_split_after_word(lit_action(), ':', args);
    assert(lit_action() != lit_drop());
    assert(socket_command_of(line) == action_command_of(args));
    lemma_identifier_has_no_comma(n, false);
    lemma_split_after_word(n, ',', x);
    assert(window_selector_of(n) is Ok);
    assert(action_names().contains(x));
    lemma_action_slot_numeral(x);
}

/// What `--dnd z` sends, the daemon reads as switching do-not-disturb on for the "on"
/// words and off for the "off" words.
pub proof fn dnd_message_is_read_back(z: Seq<char>)
    requires
        dnd_message(z) is Ok,
    ensures
        socket_command_of(command_line(lit_dnd(), z)) == Ok::<SpecSocketCommand, CLIError>(
            SpecSocketCommand::Dnd(Some(on_values().contains(z))),
        ),
{
    lemma_words_have_no_colon();
    lemma_split_after_word(lit_dnd(), ':', z);
    assert(lit_dnd() != lit_drop());
    assert(lit_dnd() != lit_action());
    assert(lit_dnd() != lit_show());
}

/// What `--show s` sends, for any `s` but `latest`, the daemon reads as showing again the
/// notification with identifier `n` (for `s` = `idn`) or the last `n` notifications (for
/// `s` = `n`).
pub proof fn show_message_is_read_back(s: Seq<char>)
    requires
        show_message(s) is Ok,
        s != lit_latest(),
    ensures
        window_selector_of(s) matches Ok(WindowSelector::Id(n)) ==> socket_command_of(
            command_line(lit_show(), s),
        ) == Ok::<SpecSocketCommand, CLIError>(SpecSocketCommand::ShowId(n)),
        window_selector_of(s) matches Ok(WindowSelector::Index(i)) ==> socket_command_of(
            command_line(lit_show(), s),
        ) == Ok::<SpecSocketCommand, CLIError>(SpecSocketCommand::ShowLast(i)),
        window_selector_of(s) matches Ok(w) && w != WindowSelector::Latest,
{
    lemma_words_have_no_colon();
    lemma_split_after_word(lit_show(), ':', s);
    assert(lit_show() != lit_drop());
    assert(lit_show() != lit_action());
    let line = command_line(lit_show(), s);
    assert(split_once(line, ':') == Some((lit_show(), s)));
    assert(socket_command_of(line) == show_command_of(s));
    if starts_with(s, lit_id()) {
        assert(u32_numeral(s.skip(2)) is Some);
        assert(socket_command_of(line) == Ok::<SpecSocketCommand, CLIError>(
            SpecSocketCommand::ShowId(u32_numeral(s.skip(2))->Some_0 as u32),
        ));
    } else {
        assert(usize_numeral(s) is Some);
        assert(socket_command_of(line) == Ok::<SpecSocketCommand, CLIError>(
            SpecSocketCommand::ShowLast(usize_numeral(s)->Some_0 as usize),
        ));
    }
}


/// What getopts' `Options::parse` makes of the arguments `args` (without the program name),
/// given the options to recognise: `flags` (short name, long name) take no value and
/// `values` take one. On success: for each flag, whether it is present, and for each valued
/// option, its value if present. On failure: getopts' error, as text.
pub uninterp spec fn getopts_parse(
    flags: Seq<(Seq<char>, Seq<char>)>,
    values: Seq<(Seq<char>, Seq<char>)>,
    args: Seq<Seq<char>>,
) -> Result<(Seq<bool>, Seq<Option<Seq<char>>>), Seq<char>>;

/// The text of each name pair of an option table.
pub open spec fn option_table_view(t: Seq<(String, String)>) -> Seq<(Seq<char>, Seq<char>)> {
    t.map_values(|p: (String, String)| (p.0@, p.1@))
}

/// The plain values of what [`getopts_parse`] names.
pub open spec fn parsed_options_view(r: Result<(Vec<bool>, Vec<Option<String>>), String>) -> Result<
    (Seq<bool>, Seq<Option<Seq<char>>>),
    Seq<char>,
> {
    match r {
        Ok((p, v)) => Ok(
            (
                p@,
                v@.map_values(
                    |o: Option<String>|
                        match o {
                            Some(x) => Some(x@),
                            None => None,
                        },
                ),
            ),
        ),
        Err(e) => Err(e@),
    }
}

/// Names that getopts takes for an option: a short name of one ASCII character and a long
/// name of at least two characters.
pub open spec fn option_names_ok(short: Seq<char>, long: Seq<char>) -> bool {
    short.len() == 1 && (short[0] as u32) < 128 && long.len() >= 2
}

/// getopts: `Options::new`, then `optflag` for each of `flags` and `optopt` for each of
/// `values` (descriptions and hints left empty, which parsing does not read), then
/// `Options::parse` on `args`; a success is read back with `opt_present` for each flag and
/// `opt_str` for each valued option, by its short name, and a failure is turned into its
/// text. The result is named [`getopts_parse`]; one entry comes back per option. Names that
/// getopts would reject with a panic (`validate_names`) are ruled out, and the short names
/// looked up are the ones registered, so `opt_present` and `opt_str` find them.
#[verifier::external_body]
fn parse_options(
    flags: &Vec<(String, String)>,
    values: &Vec<(String, String)>,
    args: &Vec<String>,
) -> (r: Result<(Vec<bool>, Vec<Option<String>>), String>)
    requires
        forall|i: int| 0 <= i < flags@.len() ==> option_names_ok(#[trigger] flags@[i].0@, flags@[i].1@),
        forall|i: int| 0 <= i < values@.len() ==> option_names_ok(#[trigger] values@[i].0@, values@[i].1@),
    ensures
        parsed_options_view(r) == getopts_parse(
            option_table_view(flags@),
            option_table_view(values@),
            args@.map_values(|s: String| s@),
        ),
        r matches Ok((p, v)) ==> p@.len() == flags@.len() && v@.len() == values@.len(),
{
    let mut opts = getopts::Options::new();
    flags.iter().for_each(|(short, long)| { opts.optflag(short, long, ""); });
    values.iter().for_each(|(short, long)| { opts.optopt(short, long, "", ""); });
    match opts.parse(args) {
        Ok(m) => Ok((
            flags.iter().map(|(short, _)| m.opt_present(short)).collect(),
            values.iter().map(|(short, _)| m.opt_str(short)).collect(),
        )),
        Err(e) => Err(e.to_string()),
    }
}

/// The options of the `wired` command that take no value: help, version, run, kill.
pub open spec fn cli_flag_table() -> Seq<(Seq<char>, Seq<char>)> {
    seq![
        (seq!['h'], seq!['h', 'e', 'l', 'p']),
        (seq!['v'], seq!['v', 'e', 'r', 's', 'i', 'o', 'n']),
        (seq!['r'], seq!['r', 'u', 'n']),
        (seq!['x'], seq!['k', 'i', 'l', 'l']),
    ]
}

/// The options of the `wired` command that take a value: drop, action, dnd, show.
pub open spec fn cli_value_table() -> Seq<(Seq<char>, Seq<char>)> {
    seq![
        (seq!['d'], seq!['d', 'r', 'o', 'p']),
        (seq!['a'], seq!['a', 'c', 't', 'i', 'o', 'n']),
        (seq!['z'], seq!['d', 'n', 'd']),
        (seq!['s'], seq!['s', 'h', 'o', 'w']),
    ]
}

fn option_entry(short: char, long: &Vec<char>) -> (e: (String, String))
    ensures
        e.0@ == seq![short],
        e.1@ == long@,
{
    let s = vec![short];
    let r = (string_from_chars(s.as_slice()), string_from_chars(long.as_slice()));
    assert(s@ =~= seq![short]);
    r
}

/// What the `wired` command does with its command line `args`, the program's name first:
/// with nothing after the name it runs the daemon; otherwise the rest is read by getopts
/// with the options `-h/--help`, `-v/--version`, `-r/--run`, `-x/--kill` (no value) and
/// `-d/--drop`, `-a/--action`, `-z/--dnd`, `-s/--show` (with a value), and the plan is
/// [`cli_plan`] of what it found; getopts' error comes back as text.
pub fn process_cli_args(args: &Vec<String>) -> (r: Result<CliPlan, String>)
    requires
        args@.len() >= 1,
    ensures
        args@.len() == 1 ==> (r matches Ok(p) && p@ == SpecCliPlan::Run),
        args@.len() > 1 ==> match getopts_parse(
            cli_flag_table(),
            cli_value_table(),
            args@.skip(1).map_values(|s: String| s@),
        ) {
            Ok((f, v)) => r matches Ok(p) && f.len() == 4 && v.len() == 4 && p@ == cli_plan(
                args@.len() as nat,
                f[0],
                f[1],
                f[2],
                f[3],
                v[0],
                v[1],
                v[2],
                v[3],
            ),
            Err(e) => r matches Err(m) && m@ == e,
        },
{
    if args.len() == 1 {
        return Ok(CliPlan::Run);
    }
    let flags = vec![
        option_entry('h', &vec!['h', 'e', 'l', 'p']),
        option_entry('v', &vec!['v', 'e', 'r', 's', 'i', 'o', 'n']),
        option_entry('r', &vec!['r', 'u', 'n']),
        option_entry('x', &vec!['k', 'i', 'l', 'l']),
    ];
    let values = vec![
        option_entry('d', &vec!['d', 'r', 'o', 'p']),
        option_entry('a', &vec!['a', 'c', 't', 'i', 'o', 'n']),
        option_entry('z', &vec!['d', 'n', 'd']),
        option_entry('s', &vec!['s', 'h', 'o', 'w']),
    ];
    proof {
        assert(option_table_view(flags@) =~= cli_flag_table());
        assert(option_table_view(values@) =~= cli_value_table());
    }
    let mut rest: Vec<String> = Vec::new();
    let mut i: usize = 1;
    while i < args.len()
        invariant
            1 <= i <= args@.len(),
            rest@ == args@.subrange(1, i as int),
        decreases args@.len() - i,
    {
        rest.push(args[i].clone());
        assert(rest@ =~= args@.subrange(1, i + 1));
        i += 1;
    }
    proof {
        assert(rest@ =~= args@.skip(1));
        assert(rest@.map_values(|s: String| s@) =~= args@.skip(1).map_values(|s: String| s@));
    }
    match parse_options(&flags, &values, &rest) {
        Ok((f, v)) => {
            let ghost vv = v@.map_values(
                |o: Option<String>|
                    match o {
                        Some(x) => Some(x@),
                        None => None,
                    },
            );
            assert(vv.len() == 4);
            let mut v = v;
            let show = v.pop().unwrap();
            let dnd = v.pop().unwrap();
            let action = v.pop().unwrap();
            let drop = v.pop().unwrap();
            Ok(process_cli(args.len(), f[0], f[1], f[2], f[3], drop, action, dnd, show))
        },
        Err(e) => Err(e),
    }
}

} // verus!
